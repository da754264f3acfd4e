//! Glob patterns, matched by the `glob` crate.

use vstd::prelude::*;

verus! {

/// The error that `glob` reports for a pattern it cannot compile.
#[verifier::external_type_specification]
#[verifier::external_body]
pub struct ExPatternError(glob::PatternError);

/// Whether `glob::Pattern::new` accepts `pattern`, on the platform that the
/// library is built for.
pub uninterp spec fn glob_compiles(pattern: Seq<char>) -> bool;

/// What `glob::Pattern::matches` says of `candidate` once `pattern` is
/// compiled, with the default match options, on the platform that the
/// library is built for.
pub uninterp spec fn glob_accepts(pattern: Seq<char>, candidate: Seq<char>) -> bool;

/// Tells whether `pattern` is a valid glob that matches `candidate`. A pattern
/// that does not compile matches nothing.
pub open spec fn glob_matches(pattern: Seq<char>, candidate: Seq<char>) -> bool {
    glob_compiles(pattern) && glob_accepts(pattern, candidate)
}

/// Compiles `pattern` with `glob::Pattern::new` and, where that succeeds,
/// matches `candidate` against it with `glob::Pattern::matches`. The contract
/// claims that both depend on the two texts alone: the error comes back
/// exactly for the patterns that do not compile, and the answer for one that
/// does is the same whenever it is asked of the same texts.
#[verifier::external_body]
fn compile_and_match(pattern: &str, candidate: &str) -> (r: Result<bool, glob::PatternError>)
    ensures
        r is Ok <==> glob_compiles(pattern@),
        r matches Ok(answer) ==> answer == glob_accepts(pattern@, candidate@),
{
    match glob::Pattern::new(pattern) {
        Ok(compiled) => Ok(compiled.matches(candidate)),
        Err(error) => Err(error),
    }
}

/// What an attempt to match counts as: the answer of a pattern that
/// compiled, and no match for one that did not.
pub fn match_or_never(outcome: Result<bool, glob::PatternError>) -> (r: bool)
    ensures
        r == (outcome == Ok::<bool, glob::PatternError>(true)),
        outcome is Err ==> !r,
{
    match outcome {
        Ok(answer) => answer,
        Err(_) => false,
    }
}

/// Tells whether `pattern` matches `candidate`. An invalid pattern is no
/// error: it never matches.
pub fn glob_match(pattern: &str, candidate: &str) -> (r: bool)
    ensures
        r == glob_matches(pattern@, candidate@),
{
    match_or_never(compile_and_match(pattern, candidate))
}

/// Tells whether any pattern of `patterns` matches `candidate`.
pub open spec fn any_matches(patterns: Seq<Seq<char>>, candidate: Seq<char>) -> bool {
    exists|i: int| 0 <= i < patterns.len() && glob_matches(#[trigger] patterns[i], candidate)
}

/// Tells whether any pattern of `patterns` matches `candidate`.
pub fn any_match(patterns: &Vec<String>, candidate: &str) -> (r: bool)
    ensures
        r == any_matches(crate::text::strings(patterns@), candidate@),
{
    let ghost texts = crate::text::strings(patterns@);
    let mut i: usize = 0;
    while i < patterns.len()
        invariant
            i <= patterns.len(),
            texts == crate::text::strings(patterns@),
            forall|j: int| 0 <= j < i ==> !glob_matches(#[trigger] texts[j], candidate@),
        decreases patterns.len() - i,
    {
        if glob_match(patterns[i].as_str(), candidate) {
            proof {
                assert(glob_matches(texts[i as int], candidate@));
            }
            return true;
        }
        i += 1;
    }
    false
}

} // verus!
