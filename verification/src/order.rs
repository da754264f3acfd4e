//! The order of texts, and sorting by a text key.

use crate::text::texts;
use vstd::prelude::*;

verus! {

/// Tells whether `a` comes before `b` or is `b`, in the order of a
/// dictionary: the first character in which the two differ decides, and a
/// text comes before every text that it starts.
pub open spec fn text_le(a: Seq<char>, b: Seq<char>) -> bool
    decreases a.len(),
{
    if a.len() == 0 {
        true
    } else if b.len() == 0 {
        false
    } else if a[0] != b[0] {
        a[0] < b[0]
    } else {
        text_le(a.drop_first(), b.drop_first())
    }
}

/// Every text is in order with itself.
pub proof fn lemma_text_le_reflexive(a: Seq<char>)
    ensures
        text_le(a, a),
    decreases a.len(),
{
    if a.len() > 0 {
        lemma_text_le_reflexive(a.drop_first());
    }
}

/// Of two texts, one comes before the other or is it.
pub proof fn lemma_text_le_total(a: Seq<char>, b: Seq<char>)
    ensures
        text_le(a, b) || text_le(b, a),
    decreases a.len(),
{
    if a.len() > 0 && b.len() > 0 && a[0] == b[0] {
        lemma_text_le_total(a.drop_first(), b.drop_first());
    }
}

/// Two texts that are in order both ways are the same text.
pub proof fn lemma_text_le_antisymmetric(a: Seq<char>, b: Seq<char>)
    requires
        text_le(a, b),
        text_le(b, a),
    ensures
        a == b,
    decreases a.len(),
{
    if a.len() == 0 || b.len() == 0 {
        assert(a =~= b);
    } else {
        lemma_text_le_antisymmetric(a.drop_first(), b.drop_first());
        assert(a =~= seq![a[0]] + a.drop_first());
        assert(b =~= seq![b[0]] + b.drop_first());
    }
}

/// The order of texts carries over a text in between.
pub proof fn lemma_text_le_transitive(a: Seq<char>, b: Seq<char>, c: Seq<char>)
    requires
        text_le(a, b),
        text_le(b, c),
    ensures
        text_le(a, c),
    decreases a.len(),
{
    if a.len() > 0 && b.len() > 0 && c.len() > 0 {
        if a[0] == b[0] && b[0] == c[0] {
            lemma_text_le_transitive(a.drop_first(), b.drop_first(), c.drop_first());
        }
    }
}

/// Tells whether `a` comes before `b` or is `b`, in the order of a
/// dictionary.
pub fn chars_le(a: &Vec<char>, b: &Vec<char>) -> (r: bool)
    ensures
        r == text_le(a@, b@),
{
    let mut i: usize = 0;
    proof {
        assert(a@.skip(0) =~= a@);
        assert(b@.skip(0) =~= b@);
    }
    while i < a.len() && i < b.len()
        invariant
            i <= a.len(),
            i <= b.len(),
            text_le(a@, b@) == text_le(a@.skip(i as int), b@.skip(i as int)),
        decreases a.len() - i,
    {
        proof {
            assert(a@.skip(i as int)[0] == a@[i as int]);
            assert(b@.skip(i as int)[0] == b@[i as int]);
            assert(a@.skip(i as int).drop_first() =~= a@.skip(i + 1));
            assert(b@.skip(i as int).drop_first() =~= b@.skip(i + 1));
        }
        if a[i] != b[i] {
            return a[i] < b[i];
        }
        i += 1;
    }
    i == a.len()
}

/// `sorted` with `item` put before the first element whose key does not come
/// before the key of `item`.
pub open spec fn placed<T>(item: T, sorted: Seq<T>, key: spec_fn(T) -> Seq<char>) -> Seq<T>
    decreases sorted.len(),
{
    if sorted.len() == 0 || text_le(key(item), key(sorted[0])) {
        seq![item] + sorted
    } else {
        seq![sorted[0]] + placed(item, sorted.drop_first(), key)
    }
}

/// The elements of `s` in the order of their keys. Elements with the same
/// key keep the order that they have in `s`.
pub open spec fn sorted_by_key<T>(s: Seq<T>, key: spec_fn(T) -> Seq<char>) -> Seq<T>
    decreases s.len(),
{
    if s.len() == 0 {
        Seq::empty()
    } else {
        placed(s[0], sorted_by_key(s.drop_first(), key), key)
    }
}

/// Tells whether the keys of `s` are in order.
pub open spec fn in_key_order<T>(s: Seq<T>, key: spec_fn(T) -> Seq<char>) -> bool {
    forall|i: int, j: int| 0 <= i <= j < s.len() ==> text_le(key(s[i]), key(s[j]))
}

/// Where `item` goes in `sorted`: behind the elements whose keys come
/// strictly before its own.
pub open spec fn place_of<T>(item: T, sorted: Seq<T>, key: spec_fn(T) -> Seq<char>) -> int
    decreases sorted.len(),
{
    if sorted.len() == 0 || text_le(key(item), key(sorted[0])) {
        0
    } else {
        1 + place_of(item, sorted.drop_first(), key)
    }
}

/// Placing an element inserts it at its place.
pub proof fn lemma_placed_is_insert<T>(item: T, sorted: Seq<T>, key: spec_fn(T) -> Seq<char>)
    ensures
        0 <= place_of(item, sorted, key) <= sorted.len(),
        placed(item, sorted, key) == sorted.insert(place_of(item, sorted, key), item),
    decreases sorted.len(),
{
    if sorted.len() == 0 || text_le(key(item), key(sorted[0])) {
        assert(seq![item] + sorted =~= sorted.insert(0, item));
    } else {
        let rest = sorted.drop_first();
        lemma_placed_is_insert(item, rest, key);
        let p = place_of(item, rest, key);
        assert(seq![sorted[0]] + rest.insert(p, item) =~= sorted.insert(p + 1, item));
    }
}

/// The place of an element is the first index whose key does not come before
/// the element's key.
pub proof fn lemma_place_found<T>(item: T, sorted: Seq<T>, key: spec_fn(T) -> Seq<char>, p: int)
    requires
        0 <= p <= sorted.len(),
        forall|j: int| 0 <= j < p ==> !text_le(key(item), key(#[trigger] sorted[j])),
        p < sorted.len() ==> text_le(key(item), key(sorted[p])),
    ensures
        place_of(item, sorted, key) == p,
    decreases sorted.len(),
{
    if p > 0 {
        let rest = sorted.drop_first();
        assert(!text_le(key(item), key(sorted[0])));
        assert forall|j: int| 0 <= j < p - 1 implies !text_le(
            key(item),
            key(#[trigger] rest[j]),
        ) by {
            assert(rest[j] == sorted[j + 1]);
        }
        if p < sorted.len() {
            assert(rest[p - 1] == sorted[p]);
        }
        lemma_place_found(item, rest, key, p - 1);
    }
}

/// Placing an element among elements in key order leaves them in key order,
/// and adds that element and nothing else.
pub proof fn lemma_placed_keeps_order<T>(item: T, sorted: Seq<T>, key: spec_fn(T) -> Seq<char>)
    requires
        in_key_order(sorted, key),
    ensures
        in_key_order(placed(item, sorted, key), key),
        placed(item, sorted, key).to_multiset() == sorted.to_multiset().insert(item),
        placed(item, sorted, key).len() == sorted.len() + 1,
{
    lemma_placed_is_insert(item, sorted, key);
    let p = place_of(item, sorted, key);
    lemma_place_bounds(item, sorted, key);
    let out = sorted.insert(p, item);
    vstd::seq_lib::to_multiset_insert(sorted, p, item);
    assert forall|i: int, j: int| 0 <= i <= j < out.len() implies text_le(
        key(out[i]),
        key(out[j]),
    ) by {
        if i == j {
            lemma_text_le_reflexive(key(out[i]));
        } else if j == p {
            // out[i] is an element before the place: its key comes before.
            assert(out[i] == sorted[i]);
            lemma_text_le_total(key(item), key(sorted[i]));
        } else if i == p {
            // out[j] is an element from the place on.
            assert(out[j] == sorted[j - 1]);
            lemma_text_le_transitive(key(item), key(sorted[p]), key(sorted[j - 1]));
        } else {
            let a = if i < p {
                i
            } else {
                i - 1
            };
            let b = if j < p {
                j
            } else {
                j - 1
            };
            assert(out[i] == sorted[a]);
            assert(out[j] == sorted[b]);
        }
    }
}

/// Every element before the place of `item` has a key strictly before the
/// key of `item`, and the element at the place does not.
pub proof fn lemma_place_bounds<T>(item: T, sorted: Seq<T>, key: spec_fn(T) -> Seq<char>)
    ensures
        0 <= place_of(item, sorted, key) <= sorted.len(),
        forall|j: int|
            0 <= j < place_of(item, sorted, key) ==> !text_le(key(item), key(#[trigger] sorted[j])),
        place_of(item, sorted, key) < sorted.len() ==> text_le(
            key(item),
            key(sorted[place_of(item, sorted, key)]),
        ),
    decreases sorted.len(),
{
    if !(sorted.len() == 0 || text_le(key(item), key(sorted[0]))) {
        let rest = sorted.drop_first();
        lemma_place_bounds(item, rest, key);
        let p = place_of(item, rest, key);
        assert forall|j: int| 0 <= j < p + 1 implies !text_le(
            key(item),
            key(#[trigger] sorted[j]),
        ) by {
            if j > 0 {
                assert(sorted[j] == rest[j - 1]);
            }
        }
        if p < rest.len() {
            assert(sorted[p + 1] == rest[p]);
        }
    }
}

/// Sorting gives the same elements, each as often as before, with their keys
/// in order.
pub proof fn lemma_sorted_by_key<T>(s: Seq<T>, key: spec_fn(T) -> Seq<char>)
    ensures
        in_key_order(sorted_by_key(s, key), key),
        sorted_by_key(s, key).to_multiset() == s.to_multiset(),
        sorted_by_key(s, key).len() == s.len(),
    decreases s.len(),
{
    broadcast use vstd::seq_lib::group_to_multiset_ensures;

    if s.len() == 0 {
        assert(sorted_by_key(s, key) =~= s);
    } else {
        let rest = s.drop_first();
        lemma_sorted_by_key(rest, key);
        lemma_placed_keeps_order(s[0], sorted_by_key(rest, key), key);
        assert(s =~= rest.insert(0, s[0]));
        vstd::seq_lib::to_multiset_insert(rest, 0, s[0]);
    }
}

/// The index in `keys`, which are in order, where `key` is to be put so that
/// it stands before every key that does not come before it.
pub fn insertion_point(keys: &Vec<Vec<char>>, key: &Vec<char>) -> (p: usize)
    ensures
        p <= keys.len(),
        forall|j: int| 0 <= j < p ==> !text_le(key@, #[trigger] texts(keys@)[j]),
        p < keys.len() ==> text_le(key@, texts(keys@)[p as int]),
{
    let mut p: usize = 0;
    while p < keys.len()
        invariant
            p <= keys.len(),
            forall|j: int| 0 <= j < p ==> !text_le(key@, #[trigger] texts(keys@)[j]),
        decreases keys.len() - p,
    {
        if chars_le(key, &keys[p]) {
            return p;
        }
        p += 1;
    }
    p
}

} // verus!
