//! Paths handed to version control: which of them are safe to stage, and how
//! they are written so that they are taken literally.

use crate::paths::{dot, dot_dot, normalize_chars, normalized};
use crate::text::{
    chars_of, holds_text, split, split_chars, string_of, strings, texts, trim, trimmed,
};
use vstd::prelude::*;
use vstd::string::StringExecFns;

verus! {

/// The form in which a path is staged: backslashes become forward slashes,
/// and white space around the path is dropped.
pub open spec fn commit_form(path: Seq<char>) -> Seq<char> {
    trim(normalized(path))
}

/// Tells whether a piece between two separators names a file or directory:
/// it is neither empty, nor `.`, nor `..`.
pub open spec fn is_entry_name(piece: Seq<char>) -> bool {
    piece.len() > 0 && piece != dot() && piece != dot_dot()
}

/// Tells whether every piece of `pieces` names a file or directory.
pub open spec fn all_entry_names(pieces: Seq<Seq<char>>) -> bool {
    forall|i: int| 0 <= i < pieces.len() ==> is_entry_name(#[trigger] pieces[i])
}

/// Tells whether a path in commit form may be staged: it holds no NUL, and
/// every piece between its separators names a file or directory. So it is not
/// empty, does not start or end with a separator, and has no empty segment,
/// no `.` and no `..`.
pub open spec fn is_safe_commit_path(path: Seq<char>) -> bool {
    !path.contains('\0') && all_entry_names(split(path, '/'))
}

/// The paths that are staged for `paths`: the commit form of each path that
/// is safe in that form, in the order given, each one once.
pub open spec fn sanitized(paths: Seq<Seq<char>>) -> Seq<Seq<char>>
    decreases paths.len(),
{
    if paths.len() == 0 {
        Seq::empty()
    } else {
        let front = sanitized(paths.drop_last());
        let path = commit_form(paths.last());
        if is_safe_commit_path(path) && !front.contains(path) {
            front.push(path)
        } else {
            front
        }
    }
}

/// The pathspec that makes version control take `path` literally.
pub open spec fn literal_pathspec(path: Seq<char>) -> Seq<char> {
    ":(literal)"@ + path
}

/// What is staged holds no path twice, only safe paths, and only paths that
/// were asked for.
pub proof fn lemma_sanitized_is_clean(paths: Seq<Seq<char>>)
    ensures
        sanitized(paths).no_duplicates(),
        forall|i: int|
            0 <= i < sanitized(paths).len() ==> is_safe_commit_path(#[trigger] sanitized(paths)[i]),
        forall|i: int|
            0 <= i < sanitized(paths).len() ==> exists|j: int|
                0 <= j < paths.len() && commit_form(paths[j]) == #[trigger] sanitized(paths)[i],
        sanitized(paths).len() <= paths.len(),
    decreases paths.len(),
{
    if paths.len() > 0 {
        let front_paths = paths.drop_last();
        lemma_sanitized_is_clean(front_paths);
        let front = sanitized(front_paths);
        let path = commit_form(paths.last());
        let all = sanitized(paths);
        assert forall|i: int| 0 <= i < all.len() implies exists|j: int|
            0 <= j < paths.len() && commit_form(paths[j]) == #[trigger] all[i] by {
            if i < front.len() {
                let j = choose|j: int|
                    0 <= j < front_paths.len() && commit_form(front_paths[j]) == front[i];
                assert(front_paths[j] == paths[j]);
                assert(commit_form(paths[j]) == all[i]);
            } else {
                assert(commit_form(paths[paths.len() - 1]) == all[i]);
            }
        }
    }
}

/// Every safe path that was asked for is staged.
pub proof fn lemma_sanitized_keeps_safe(paths: Seq<Seq<char>>, j: int)
    requires
        0 <= j < paths.len(),
        is_safe_commit_path(commit_form(paths[j])),
    ensures
        sanitized(paths).contains(commit_form(paths[j])),
    decreases paths.len(),
{
    let front = sanitized(paths.drop_last());
    let path = commit_form(paths.last());
    if j < paths.len() - 1 {
        lemma_sanitized_keeps_safe(paths.drop_last(), j);
        assert(paths.drop_last()[j] == paths[j]);
        let k = choose|k: int| 0 <= k < front.len() && front[k] == commit_form(paths[j]);
        assert(sanitized(paths)[k] == commit_form(paths[j]));
    } else {
        if front.contains(path) {
            let k = choose|k: int| 0 <= k < front.len() && front[k] == path;
            assert(sanitized(paths)[k] == path);
        } else {
            assert(sanitized(paths)[front.len() as int] == path);
        }
    }
}

/// Tells whether `v` holds a NUL.
fn holds_nul(v: &Vec<char>) -> (r: bool)
    ensures
        r == v@.contains('\0'),
{
    let mut i: usize = 0;
    while i < v.len()
        invariant
            i <= v.len(),
            forall|j: int| 0 <= j < i ==> v@[j] != '\0',
        decreases v.len() - i,
    {
        if v[i] == '\0' {
            return true;
        }
        i += 1;
    }
    false
}

/// Tells whether `piece` names a file or directory.
fn names_entry(piece: &Vec<char>) -> (r: bool)
    ensures
        r == is_entry_name(piece@),
{
    if piece.len() == 0 {
        return false;
    }
    if piece.len() == 1 && piece[0] == '.' {
        assert(piece@ =~= dot());
        return false;
    }
    if piece.len() == 2 && piece[0] == '.' && piece[1] == '.' {
        assert(piece@ =~= dot_dot());
        return false;
    }
    proof {
        if piece@ == dot() {
            assert(dot().len() == 1 && dot()[0] == '.');
        }
        if piece@ == dot_dot() {
            assert(dot_dot().len() == 2 && dot_dot()[0] == '.' && dot_dot()[1] == '.');
        }
    }
    true
}

/// Tells whether the path `v`, in commit form, may be staged.
fn is_safe(v: &Vec<char>) -> (r: bool)
    ensures
        r == is_safe_commit_path(v@),
{
    if holds_nul(v) {
        return false;
    }
    let pieces = split_chars(v, '/');
    let mut i: usize = 0;
    while i < pieces.len()
        invariant
            i <= pieces.len(),
            texts(pieces@) == split(v@, '/'),
            forall|j: int| 0 <= j < i ==> is_entry_name(#[trigger] split(v@, '/')[j]),
        decreases pieces.len() - i,
    {
        proof {
            assert(texts(pieces@)[i as int] == pieces@[i as int]@);
        }
        if !names_entry(&pieces[i]) {
            return false;
        }
        i += 1;
    }
    true
}

/// Picks the paths that are safe to stage. Each path is put in commit form:
/// backslashes become forward slashes and surrounding white space is dropped.
/// A path is dropped when it is empty, absolute, holds a NUL, or has an empty
/// segment, a segment `.` or a segment `..`. What is left keeps its order, and
/// a path that occurs again is dropped.
pub fn sanitize_commit_paths(paths: Vec<String>) -> (r: Vec<String>)
    ensures
        strings(r@) == sanitized(strings(paths@)),
        strings(r@).no_duplicates(),
        forall|i: int| 0 <= i < r@.len() ==> is_safe_commit_path(#[trigger] strings(r@)[i]),
{
    let mut out: Vec<String> = Vec::new();
    let mut i: usize = 0;
    proof {
        assert(strings(paths@).take(0) =~= Seq::<Seq<char>>::empty());
        assert(strings(out@) =~= Seq::<Seq<char>>::empty());
    }
    while i < paths.len()
        invariant
            i <= paths.len(),
            strings(out@) == sanitized(strings(paths@).take(i as int)),
        decreases paths.len() - i,
    {
        let ghost before = strings(out@);
        proof {
            assert(strings(paths@).take(i + 1).drop_last() =~= strings(paths@).take(i as int));
            assert(strings(paths@).take(i + 1).last() == paths@[i as int]@);
        }
        let form = trimmed(&normalize_chars(&chars_of(paths[i].as_str())));
        if is_safe(&form) {
            let item = string_of(&form);
            if !holds_text(&out, &item) {
                out.push(item);
                proof {
                    assert(strings(out@) =~= before.push(form@));
                }
            }
        }
        i += 1;
    }
    proof {
        assert(strings(paths@).take(paths.len() as int) =~= strings(paths@));
        lemma_sanitized_is_clean(strings(paths@));
    }
    out
}

/// Writes `path` as a pathspec that version control takes literally, with no
/// character of it read as a pattern.
pub fn to_literal_pathspec(path: &str) -> (r: String)
    ensures
        r@ == literal_pathspec(path@),
{
    let mut r = String::from_str(":(literal)");
    r.append(path);
    r
}

} // verus!
