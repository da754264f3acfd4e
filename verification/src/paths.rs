//! The path grammar: segments, containment, relative paths and identifiers.
//!
//! A path is text whose segments are separated by `/`, as in POSIX: no other
//! character separates, and nothing before the first segment names a drive.
//! A backslash and a colon are characters of a name like any other.
//! Containment is decided on whole segments, never on raw prefixes of the
//! text. A caller on a platform that writes paths otherwise hands them in
//! written with `/`, and refuses beforehand what its platform reads as a
//! drive.

use crate::error::{ScopeError, ScopeErrorView};
use crate::text::{
    append_chars, chars_of, copy_chars, join, join_chars, lemma_split_pieces, split,
    split_chars, starts_with_pieces, string_of, strings, texts, trim, trimmed,
};
use vstd::prelude::*;
use vstd::string::StringExecFns;

verus! {

/// `s` with every backslash replaced by a forward slash.
pub open spec fn normalized(s: Seq<char>) -> Seq<char> {
    Seq::new(
        s.len(),
        |i: int|
            if s[i] == '\\' {
                '/'
            } else {
                s[i]
            },
    )
}

/// The identifier of the thing of kind `kind` that lives at `value`.
pub open spec fn id_text(kind: Seq<char>, value: Seq<char>) -> Seq<char> {
    kind.push(':') + normalized(value)
}

/// The segment that stands for the directory itself.
pub open spec fn dot() -> Seq<char> {
    seq!['.']
}

/// The segment that stands for the parent directory.
pub open spec fn dot_dot() -> Seq<char> {
    seq!['.', '.']
}

/// The segment that stands for the root of the file system.
pub open spec fn slash() -> Seq<char> {
    seq!['/']
}

/// Tells whether a piece between two separators counts as a segment: an
/// empty piece and a piece `.` do not.
pub open spec fn is_kept(piece: Seq<char>) -> bool {
    piece.len() > 0 && piece != dot()
}

/// `is_kept` as a predicate to filter with.
pub open spec fn kept() -> spec_fn(Seq<char>) -> bool {
    |piece: Seq<char>| is_kept(piece)
}

/// Tells whether a segment is the name of a file or directory.
pub open spec fn is_plain_name(piece: Seq<char>) -> bool {
    piece.len() > 0 && piece != dot() && piece != dot_dot() && !piece.contains('/')
}

/// Tells whether `s` starts at the root of the file system.
pub open spec fn is_absolute(s: Seq<char>) -> bool {
    s.len() > 0 && s[0] == '/'
}

/// The segments of `s`: `/` first if `s` is absolute, `.` first if `s` starts
/// with that segment, then every piece between separators that is neither
/// empty nor `.`.
///
/// The grammar is that of POSIX. Only `/` separates: a backslash is a
/// character of a name like any other, and `C:` is a name, no drive.
pub open spec fn components(s: Seq<char>) -> Seq<Seq<char>> {
    let pieces = split(s, '/');
    let lead = if is_absolute(s) {
        seq![slash()]
    } else if pieces[0] == dot() {
        seq![dot()]
    } else {
        Seq::empty()
    };
    lead + pieces.filter(kept())
}

/// Tells whether `candidate` is `root` or lies below it, segment by segment.
pub open spec fn is_within(root: Seq<char>, candidate: Seq<char>) -> bool {
    components(root).is_prefix_of(components(candidate))
}

/// The path from `base` to `path`: the segments of `path` that follow those of
/// `base`, joined by `/` and normalized; `.` where there are none, or where
/// `path` does not lie within `base`.
pub open spec fn relative_text(base: Seq<char>, path: Seq<char>) -> Seq<char> {
    let rest = components(path).skip(components(base).len() as int);
    if is_within(base, path) && rest.len() > 0 {
        normalized(join(rest, '/'))
    } else {
        dot()
    }
}

/// `base` with `segment` below it.
pub open spec fn joined(base: Seq<char>, segment: Seq<char>) -> Seq<char> {
    if base.len() > 0 && base.last() != '/' {
        base.push('/') + segment
    } else {
        base + segment
    }
}

/// `base` with each of `segments` below the one before.
pub open spec fn descended(base: Seq<char>, segments: Seq<Seq<char>>) -> Seq<char>
    decreases segments.len(),
{
    if segments.len() == 0 {
        base
    } else {
        joined(descended(base, segments.drop_last()), segments.last())
    }
}

/// Every path lies within itself.
pub proof fn lemma_within_itself(path: Seq<char>)
    ensures
        is_within(path, path),
{
    assert(components(path) =~= components(path).subrange(0, components(path).len() as int));
}

/// What lies within a directory lies within every directory around that one.
pub proof fn lemma_within_chain(outer: Seq<char>, inner: Seq<char>, path: Seq<char>)
    requires
        is_within(outer, inner),
        is_within(inner, path),
    ensures
        is_within(outer, path),
{
    let a = components(outer);
    let b = components(inner);
    let c = components(path);
    assert(a =~= c.subrange(0, a.len() as int)) by {
        assert forall|i: int| 0 <= i < a.len() implies a[i] == c[i] by {
            assert(a[i] == b.subrange(0, a.len() as int)[i]);
            assert(b[i] == c.subrange(0, b.len() as int)[i]);
        }
    }
}

/// A path lies within a root exactly when it is that directory or has more
/// segments, the first of which are the root's.
pub proof fn lemma_within_is_same_or_below(root: Seq<char>, candidate: Seq<char>)
    ensures
        is_within(root, candidate) <==> components(candidate) == components(root) || (components(
            root,
        ).len() < components(candidate).len() && components(candidate).take(
            components(root).len() as int,
        ) == components(root)),
{
    let r = components(root);
    let c = components(candidate);
    if r.len() <= c.len() {
        assert(c.take(r.len() as int) =~= c.subrange(0, r.len() as int));
    }
    if c == r {
        assert(r =~= c.subrange(0, r.len() as int));
    }
    if is_within(root, candidate) && r.len() == c.len() {
        assert(c.subrange(0, r.len() as int) =~= c);
    }
}

/// A name put below a directory adds one segment to it: the name.
pub proof fn lemma_joined_components(base: Seq<char>, segment: Seq<char>)
    requires
        is_plain_name(segment),
    ensures
        components(joined(base, segment)) == components(base).push(segment),
{
    let whole = joined(base, segment);
    lemma_split_pieces(base, '/');
    assert(kept()(segment) == is_kept(segment));
    let empty = Seq::<char>::empty();
    assert(kept()(empty) == is_kept(empty));
    if base.len() == 0 {
        assert(whole =~= segment);
        crate::text::lemma_split_whole(segment, '/');
        assert(split(base, '/') =~= seq![empty]);
        assert(seq![empty] =~= Seq::<Seq<char>>::empty().push(empty));
        assert(seq![segment] =~= Seq::<Seq<char>>::empty().push(segment));
        Seq::<Seq<char>>::empty().lemma_filter_push(empty, kept());
        Seq::<Seq<char>>::empty().lemma_filter_push(segment, kept());
        assert(Seq::<Seq<char>>::empty().filter(kept()) =~= Seq::<Seq<char>>::empty()) by {
            reveal(Seq::filter);
        }
        assert(segment[0] != '/') by {
            if segment[0] == '/' {
                assert(segment.contains('/'));
            }
        }
        assert(dot().len() == 1);
        assert(split(whole, '/') == seq![segment]);
        assert(split(whole, '/').filter(kept()) =~= seq![segment]);
        assert(split(base, '/').filter(kept()) =~= Seq::<Seq<char>>::empty());
        assert(split(base, '/')[0] == empty);
        assert(split(whole, '/')[0] == segment);
        assert(components(base) =~= Seq::<Seq<char>>::empty());
        assert(components(whole) =~= seq![segment]);
        assert(components(whole) =~= components(base).push(segment));
    } else {
        // The text up to and with the separator that precedes the name.
        let stem = if base.last() != '/' {
            base.push('/')
        } else {
            base
        };
        let before = stem.drop_last();
        assert(stem.last() == '/');
        assert(whole =~= stem + segment);
        crate::text::lemma_split_append(stem, segment, '/');
        lemma_split_pieces(before, '/');
        let front = split(before, '/');
        assert(split(stem, '/') == front.push(empty));
        assert(front.push(empty).drop_last() =~= front);
        assert(empty + segment =~= segment);
        assert(split(whole, '/') == front.push(segment));
        front.lemma_filter_push(empty, kept());
        front.lemma_filter_push(segment, kept());
        assert(front.push(segment)[0] == front[0]);
        assert(front.push(empty)[0] == front[0]);
        assert(whole[0] == base[0]);
        if base.last() != '/' {
            assert(before =~= base);
            assert(components(whole) =~= components(base).push(segment));
        } else {
            assert(components(whole) =~= components(base).push(segment));
        }
    }
}

/// A name put below a directory that lies within a root gives a path that
/// lies within that root.
pub proof fn lemma_joined_stays_within(root: Seq<char>, current: Seq<char>, segment: Seq<char>)
    requires
        is_within(root, current),
        is_plain_name(segment),
    ensures
        is_within(root, joined(current, segment)),
        is_within(current, joined(current, segment)),
{
    lemma_joined_components(current, segment);
    let c = components(current);
    assert(c =~= c.push(segment).subrange(0, c.len() as int));
    lemma_within_chain(root, current, joined(current, segment));
}

/// Names put one below the other, starting in a directory that lies within
/// a root, give a path that lies within that root.
pub proof fn lemma_descended_stays_within(
    root: Seq<char>,
    current: Seq<char>,
    segments: Seq<Seq<char>>,
)
    requires
        is_within(root, current),
        forall|i: int| 0 <= i < segments.len() ==> is_plain_name(#[trigger] segments[i]),
    ensures
        is_within(root, descended(current, segments)),
    decreases segments.len(),
{
    if segments.len() > 0 {
        let front = segments.drop_last();
        assert forall|i: int| 0 <= i < front.len() implies is_plain_name(#[trigger] front[i]) by {
            assert(front[i] == segments[i]);
        }
        lemma_descended_stays_within(root, current, front);
        lemma_joined_stays_within(root, descended(current, front), segments.last());
    }
}

/// Tells whether a trimmed relative path would leave the directory it is
/// resolved in: it is absolute, or one of its segments is `..`.
pub open spec fn escapes(t: Seq<char>) -> bool {
    is_absolute(t) || split(t, '/').contains(dot_dot())
}

/// What parsing `input` as a relative path gives: its segments, or the reason
/// why it is refused.
pub open spec fn parsed_relative(input: Seq<char>) -> Result<Seq<Seq<char>>, ScopeErrorView> {
    let t = trim(input);
    let names = split(t, '/').filter(kept());
    if t.len() == 0 {
        Err(ScopeErrorView::EmptyPath)
    } else if escapes(t) {
        Err(ScopeErrorView::EscapingSegment { input })
    } else if names.len() == 0 {
        Err(ScopeErrorView::NoSegments { input })
    } else {
        Ok(names)
    }
}

/// The characters of `v` with every backslash replaced by a forward slash.
pub fn normalize_chars(v: &Vec<char>) -> (r: Vec<char>)
    ensures
        r@ == normalized(v@),
{
    let mut r: Vec<char> = Vec::new();
    let mut i: usize = 0;
    while i < v.len()
        invariant
            i <= v.len(),
            r@ == normalized(v@).take(i as int),
        decreases v.len() - i,
    {
        let c = v[i];
        if c == '\\' {
            r.push('/');
        } else {
            r.push(c);
        }
        proof {
            assert(r@ =~= normalized(v@).take(i + 1));
        }
        i += 1;
    }
    proof {
        assert(normalized(v@).take(v.len() as int) =~= normalized(v@));
    }
    r
}

/// Replaces every backslash of `input` by a forward slash.
pub fn normalize_path(input: &str) -> (r: String)
    ensures
        r@ == normalized(input@),
{
    let chars = chars_of(input);
    let out = normalize_chars(&chars);
    string_of(&out)
}

/// Makes the identifier of the thing of kind `prefix` that lives at `value`:
/// the kind, a colon, and the normalized value.
pub fn make_id(prefix: &str, value: &str) -> (r: String)
    ensures
        r@ == id_text(prefix@, value@),
{
    let mut out = chars_of(prefix);
    out.push(':');
    let tail = normalize_chars(&chars_of(value));
    append_chars(&mut out, &tail);
    string_of(&out)
}

/// Tells whether `piece` is the segment `.`.
fn is_dot(piece: &Vec<char>) -> (r: bool)
    ensures
        r == (piece@ == dot()),
{
    let r = piece.len() == 1 && piece[0] == '.';
    proof {
        if r {
            assert(piece@ =~= dot());
        }
    }
    r
}

/// Tells whether `piece` is the segment `..`.
fn is_dot_dot(piece: &Vec<char>) -> (r: bool)
    ensures
        r == (piece@ == dot_dot()),
{
    let r = piece.len() == 2 && piece[0] == '.' && piece[1] == '.';
    proof {
        if r {
            assert(piece@ =~= dot_dot());
        }
    }
    r
}

/// The segments of `v`.
pub fn components_of(v: &Vec<char>) -> (r: Vec<Vec<char>>)
    ensures
        texts(r@) == components(v@),
{
    let pieces = split_chars(v, '/');
    proof {
        lemma_split_pieces(v@, '/');
    }
    let mut out: Vec<Vec<char>> = Vec::new();
    if v.len() > 0 && v[0] == '/' {
        let mut lead: Vec<char> = Vec::new();
        lead.push('/');
        out.push(lead);
        assert(texts(out@) =~= seq![slash()]);
    } else if is_dot(&pieces[0]) {
        let mut lead: Vec<char> = Vec::new();
        lead.push('.');
        out.push(lead);
        assert(texts(out@) =~= seq![dot()]);
    } else {
        assert(texts(out@) =~= Seq::<Seq<char>>::empty());
    }
    let ghost lead = texts(out@);
    let mut i: usize = 0;
    proof {
        assert(texts(pieces@).take(0) =~= Seq::<Seq<char>>::empty());
        assert(Seq::<Seq<char>>::empty().filter(kept()) =~= Seq::<Seq<char>>::empty()) by {
            reveal(Seq::filter);
        }
        assert(texts(out@) =~= lead + texts(pieces@).take(0).filter(kept()));
    }
    while i < pieces.len()
        invariant
            i <= pieces.len(),
            texts(out@) == lead + texts(pieces@).take(i as int).filter(kept()),
        decreases pieces.len() - i,
    {
        let ghost before = texts(pieces@).take(i as int);
        proof {
            assert(texts(pieces@).take(i + 1) =~= before.push(pieces@[i as int]@));
            before.lemma_filter_push(pieces@[i as int]@, kept());
        }
        proof {
            assert(kept()(pieces@[i as int]@) == is_kept(pieces@[i as int]@));
        }
        if pieces[i].len() > 0 && !is_dot(&pieces[i]) {
            let ghost old_out = texts(out@);
            out.push(copy_chars(&pieces[i]));
            assert(texts(out@) =~= old_out.push(pieces@[i as int]@));
            assert(texts(out@) =~= lead + texts(pieces@).take(i + 1).filter(kept()));
        }
        i += 1;
    }
    proof {
        assert(texts(pieces@).take(pieces.len() as int) =~= texts(pieces@));
    }
    out
}

/// Checks that `candidate` is `root` or lies below it. Both are compared
/// segment by segment, so `/a/bc` is not within `/a/b`.
pub fn ensure_within_root(root: &str, candidate: &str) -> (r: Result<(), ScopeError>)
    ensures
        r is Ok <==> is_within(root@, candidate@),
        r matches Err(e) ==> e@ == (ScopeErrorView::OutsideRoot {
            root: root@,
            resolved: candidate@,
        }),
{
    let base = components_of(&chars_of(root));
    let whole = components_of(&chars_of(candidate));
    if starts_with_pieces(&whole, &base) {
        Ok(())
    } else {
        Err(
            ScopeError::OutsideRoot {
                root: String::from_str(root),
                resolved: String::from_str(candidate),
            },
        )
    }
}

/// The path from `base` to `path`, normalized; `.` where the two are the same
/// directory or `path` does not lie within `base`.
pub fn relative_path(base: &str, path: &str) -> (r: String)
    ensures
        r@ == relative_text(base@, path@),
{
    let start = components_of(&chars_of(base));
    let whole = components_of(&chars_of(path));
    if starts_with_pieces(&whole, &start) && whole.len() > start.len() {
        let rest = join_chars(&whole, start.len(), '/');
        string_of(&normalize_chars(&rest))
    } else {
        let mut here: Vec<char> = Vec::new();
        here.push('.');
        assert(here@ =~= dot());
        string_of(&here)
    }
}

/// `base` with `segment` below it: a separator is put between the two unless
/// `base` is empty or ends with one.
pub fn join_path(base: &str, segment: &str) -> (r: String)
    ensures
        r@ == joined(base@, segment@),
{
    let mut out = chars_of(base);
    if out.len() > 0 && out[out.len() - 1] != '/' {
        out.push('/');
    }
    append_chars(&mut out, &chars_of(segment));
    string_of(&out)
}

/// Parses a relative path into its segments. White space around the path is
/// ignored, and so are empty segments and segments `.`. The path is refused
/// when nothing is left of it, when it starts at the root, and when any of its
/// segments is `..`.
///
/// The segments are those of POSIX, separated by `/` alone: `a\b` and `C:x`
/// are one name each.
pub fn parse_relative_path(relative_path: &str) -> (r: Result<Vec<String>, ScopeError>)
    ensures
        match r {
            Ok(segments) => parsed_relative(relative_path@) == Ok::<
                Seq<Seq<char>>,
                ScopeErrorView,
            >(strings(segments@)),
            Err(e) => parsed_relative(relative_path@) == Err::<Seq<Seq<char>>, ScopeErrorView>(e@),
        },
        r is Err <==> trim(relative_path@).len() == 0 || is_absolute(trim(relative_path@)) || split(
            trim(relative_path@),
            '/',
        ).contains(dot_dot()) || split(trim(relative_path@), '/').filter(kept()).len() == 0,
        r matches Ok(segments) ==> segments@.len() > 0 && forall|i: int|
            0 <= i < segments@.len() ==> is_plain_name(#[trigger] segments@[i]@),
{
    let t = trimmed(&chars_of(relative_path));
    if t.len() == 0 {
        return Err(ScopeError::EmptyPath);
    }
    if t[0] == '/' {
        return Err(ScopeError::EscapingSegment { input: String::from_str(relative_path) });
    }
    let pieces = split_chars(&t, '/');
    proof {
        lemma_split_pieces(t@, '/');
    }
    let mut out: Vec<String> = Vec::new();
    let mut i: usize = 0;
    proof {
        assert(texts(pieces@).take(0) =~= Seq::<Seq<char>>::empty());
        assert(Seq::<Seq<char>>::empty().filter(kept()) =~= Seq::<Seq<char>>::empty()) by {
            reveal(Seq::filter);
        }
        assert(strings(out@) =~= texts(pieces@).take(0).filter(kept()));
    }
    while i < pieces.len()
        invariant
            i <= pieces.len(),
            t@ == trim(relative_path@),
            t@.len() > 0,
            !is_absolute(t@),
            texts(pieces@) == split(t@, '/'),
            strings(out@) == texts(pieces@).take(i as int).filter(kept()),
            !texts(pieces@).take(i as int).contains(dot_dot()),
            forall|j: int| 0 <= j < pieces.len() ==> !(#[trigger] texts(pieces@)[j]).contains('/'),
            forall|j: int| 0 <= j < out@.len() ==> is_plain_name(#[trigger] out@[j]@),
        decreases pieces.len() - i,
    {
        let ghost before = texts(pieces@).take(i as int);
        let ghost piece = pieces@[i as int]@;
        proof {
            assert(texts(pieces@)[i as int] == piece);
            assert(texts(pieces@).take(i + 1) =~= before.push(piece));
            before.lemma_filter_push(piece, kept());
        }
        proof {
            assert(kept()(piece) == is_kept(piece));
        }
        if is_dot_dot(&pieces[i]) {
            proof {
                assert(split(t@, '/')[i as int] == dot_dot());
                assert(split(t@, '/').contains(dot_dot()));
            }
            return Err(ScopeError::EscapingSegment { input: String::from_str(relative_path) });
        }
        if pieces[i].len() > 0 && !is_dot(&pieces[i]) {
            let ghost old_out = out@;
            out.push(string_of(&pieces[i]));
            assert(strings(out@) =~= strings(old_out).push(piece));
        }
        proof {
            assert forall|x: Seq<char>| before.push(piece).contains(x) implies x != dot_dot() by {
                let k = choose|k: int| 0 <= k < before.push(piece).len() && before.push(piece)[k] == x;
                if k < before.len() {
                    assert(before.contains(x));
                }
            }
        }
        i += 1;
    }
    proof {
        assert(texts(pieces@).take(pieces.len() as int) =~= texts(pieces@));
    }
    if out.len() == 0 {
        return Err(ScopeError::NoSegments { input: String::from_str(relative_path) });
    }
    Ok(out)
}

} // verus!
