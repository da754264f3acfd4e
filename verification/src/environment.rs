//! Environment files: which file holds the environment of a given name.

use crate::error::{ScopeError, ScopeErrorView};
use crate::text::chars_of;
use vstd::prelude::*;
use vstd::string::StringExecFns;

verus! {

/// Tells whether `c` may stand in the name of an environment: a letter or
/// digit of ASCII, `_`, `-` or `.`.
pub open spec fn is_environment_char(c: char) -> bool {
    ||| 'a' <= c <= 'z'
    ||| 'A' <= c <= 'Z'
    ||| '0' <= c <= '9'
    ||| c == '_'
    ||| c == '-'
    ||| c == '.'
}

/// Tells whether `name` may be the name of an environment: it is not empty,
/// and every character of it may stand in such a name.
pub open spec fn is_environment_name(name: Seq<char>) -> bool {
    name.len() > 0 && forall|i: int| 0 <= i < name.len() ==> is_environment_char(#[trigger] name[i])
}

/// The file that holds the environment called `name`, as a path from the
/// directory of the scope, or the reason why the name is refused.
pub open spec fn environment_file(name: Seq<char>) -> Result<Seq<char>, ScopeErrorView> {
    if name.len() == 0 {
        Err(ScopeErrorView::EmptyEnvironmentName)
    } else if !is_environment_name(name) {
        Err(ScopeErrorView::InvalidEnvironmentName { name })
    } else {
        Ok(".env."@ + name)
    }
}

/// Tells whether `c` may stand in the name of an environment.
pub fn is_environment_character(c: char) -> (r: bool)
    ensures
        r == is_environment_char(c),
{
    ('a' <= c && c <= 'z') || ('A' <= c && c <= 'Z') || ('0' <= c && c <= '9') || c == '_' || c
        == '-' || c == '.'
}

/// The name of the file that holds the environment called `env_name`. The
/// name is checked before anything is looked for on disk: it must not be
/// empty, and may hold letters and digits of ASCII, `_`, `-` and `.` only.
/// The file is then read as any other in the scope.
pub fn environment_file_name(env_name: &str) -> (r: Result<String, ScopeError>)
    ensures
        match r {
            Ok(file) => environment_file(env_name@) == Ok::<Seq<char>, ScopeErrorView>(file@),
            Err(e) => environment_file(env_name@) == Err::<Seq<char>, ScopeErrorView>(e@),
        },
        r is Ok <==> is_environment_name(env_name@),
{
    let chars = chars_of(env_name);
    if chars.len() == 0 {
        return Err(ScopeError::EmptyEnvironmentName);
    }
    let mut i: usize = 0;
    while i < chars.len()
        invariant
            i <= chars.len(),
            chars@ == env_name@,
            chars@.len() > 0,
            forall|j: int| 0 <= j < i ==> is_environment_char(#[trigger] chars@[j]),
        decreases chars.len() - i,
    {
        if !is_environment_character(chars[i]) {
            return Err(ScopeError::InvalidEnvironmentName { name: String::from_str(env_name) });
        }
        i += 1;
    }
    let mut file = String::from_str(".env.");
    file.append(env_name);
    Ok(file)
}

} // verus!
