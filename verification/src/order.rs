//! Texts in the order of their bytes.

use vstd::prelude::*;
use vstd::utf8::encode_utf8;

use crate::text::lemma_encoding_is_injective;
use crate::text::texts;

verus! {

/// Whether the bytes `a` come before the bytes `b` in a dictionary, or are the
/// same.
pub open spec fn bytes_at_most(a: Seq<u8>, b: Seq<u8>) -> bool
    decreases a.len(),
{
    ||| a.len() == 0
    ||| b.len() > 0 && a[0] < b[0]
    ||| b.len() > 0 && a[0] == b[0] && bytes_at_most(a.drop_first(), b.drop_first())
}

/// Whether the text `a` comes before the text `b` in the order of their UTF-8
/// bytes, or is the same.
pub open spec fn text_at_most(a: Seq<char>, b: Seq<char>) -> bool {
    bytes_at_most(encode_utf8(a), encode_utf8(b))
}

/// Whether `list` holds its texts in ascending order.
pub open spec fn ascending(list: Seq<Seq<char>>) -> bool {
    forall|i: int, j: int|
        0 <= i <= j < list.len() ==> text_at_most(#[trigger] list[i], #[trigger] list[j])
}

/// Whether `list` holds each of `keys` once, nothing else, and in ascending order.
pub open spec fn lists_in_order(list: Seq<Seq<char>>, keys: Set<Seq<char>>) -> bool {
    &&& list.no_duplicates()
    &&& forall|k: Seq<char>| #[trigger] list.contains(k) <==> keys.contains(k)
    &&& ascending(list)
}

/// The texts of a finite set in ascending order.
pub open spec fn in_order(keys: Set<Seq<char>>) -> Seq<Seq<char>> {
    choose|list: Seq<Seq<char>>| lists_in_order(list, keys)
}

proof fn lemma_bytes_reflexive(a: Seq<u8>)
    ensures
        bytes_at_most(a, a),
    decreases a.len(),
{
    if a.len() > 0 {
        lemma_bytes_reflexive(a.drop_first());
    }
}

proof fn lemma_bytes_antisymmetric(a: Seq<u8>, b: Seq<u8>)
    requires
        bytes_at_most(a, b),
        bytes_at_most(b, a),
    ensures
        a == b,
    decreases a.len(),
{
    if a.len() > 0 && b.len() > 0 {
        lemma_bytes_antisymmetric(a.drop_first(), b.drop_first());
        assert(a =~= seq![a[0]] + a.drop_first());
        assert(b =~= seq![b[0]] + b.drop_first());
    } else {
        assert(a =~= b);
    }
}

proof fn lemma_bytes_transitive(a: Seq<u8>, b: Seq<u8>, c: Seq<u8>)
    requires
        bytes_at_most(a, b),
        bytes_at_most(b, c),
    ensures
        bytes_at_most(a, c),
    decreases a.len(),
{
    if a.len() > 0 && a[0] == b[0] && b[0] == c[0] {
        lemma_bytes_transitive(a.drop_first(), b.drop_first(), c.drop_first());
    }
}

proof fn lemma_bytes_total(a: Seq<u8>, b: Seq<u8>)
    ensures
        bytes_at_most(a, b) || bytes_at_most(b, a),
    decreases a.len(),
{
    if a.len() > 0 && b.len() > 0 {
        lemma_bytes_total(a.drop_first(), b.drop_first());
    }
}

/// The order of texts is total: reflexive, antisymmetric and transitive, and any
/// two texts are in it one way or the other.
pub proof fn law_text_order_is_total(a: Seq<char>, b: Seq<char>, c: Seq<char>)
    ensures
        text_at_most(a, a),
        text_at_most(a, b) && text_at_most(b, a) ==> a == b,
        text_at_most(a, b) && text_at_most(b, c) ==> text_at_most(a, c),
        text_at_most(a, b) || text_at_most(b, a),
{
    let (x, y, z) = (encode_utf8(a), encode_utf8(b), encode_utf8(c));
    lemma_bytes_reflexive(x);
    lemma_bytes_total(x, y);
    if text_at_most(a, b) && text_at_most(b, a) {
        lemma_bytes_antisymmetric(x, y);
        lemma_encoding_is_injective(a, b);
    }
    if text_at_most(a, b) && text_at_most(b, c) {
        lemma_bytes_transitive(x, y, z);
    }
}

/// Common leading bytes do not matter to the order.
proof fn lemma_bytes_skip_common(a: Seq<u8>, b: Seq<u8>, n: int)
    requires
        0 <= n <= a.len(),
        n <= b.len(),
        forall|i: int| 0 <= i < n ==> a[i] == b[i],
    ensures
        bytes_at_most(a, b) == bytes_at_most(a.skip(n), b.skip(n)),
    decreases n,
{
    if n == 0 {
        assert(a.skip(0) == a);
        assert(b.skip(0) == b);
    } else {
        lemma_bytes_skip_common(a.drop_first(), b.drop_first(), n - 1);
        assert(a.drop_first().skip(n - 1) == a.skip(n));
        assert(b.drop_first().skip(n - 1) == b.skip(n));
    }
}

/// Whether `a` comes before `b` in the order of bytes, or is the same.
pub fn is_at_most(a: &str, b: &str) -> (r: bool)
    ensures
        r == text_at_most(a@, b@),
{
    let x: &[u8] = a.as_bytes();
    let y: &[u8] = b.as_bytes();
    let mut i: usize = 0;
    while i < x.len() && i < y.len() && x[i] == y[i]
        invariant
            i <= x@.len(),
            i <= y@.len(),
            forall|j: int| 0 <= j < i ==> x@[j] == y@[j],
        decreases x@.len() - i,
    {
        i += 1;
    }
    proof {
        lemma_bytes_skip_common(x@, y@, i as int);
    }
    i == x.len() || (i < y.len() && x[i] < y[i])
}

/// There is only one way to list a set of texts in order.
pub proof fn law_listing_in_order_is_unique(
    a: Seq<Seq<char>>,
    b: Seq<Seq<char>>,
    keys: Set<Seq<char>>,
)
    requires
        lists_in_order(a, keys),
        lists_in_order(b, keys),
    ensures
        a == b,
    decreases a.len(),
{
    if a.len() == 0 {
        if b.len() > 0 {
            assert(b.contains(b[0]));
            assert(a.contains(b[0]));
        }
        assert(a =~= b);
    } else {
        assert(a.contains(a[0]));
        assert(b.contains(a[0]));
        assert(b.contains(b[0]));
        assert(a.contains(b[0]));
        let i = choose|i: int| 0 <= i < a.len() && a[i] == b[0];
        let j = choose|j: int| 0 <= j < b.len() && b[j] == a[0];
        assert(text_at_most(a[0], a[i]));
        assert(text_at_most(b[0], b[j]));
        law_text_order_is_total(a[0], b[0], b[0]);
        let rest = keys.remove(a[0]);
        lemma_listing_without_first(a, keys);
        lemma_listing_without_first(b, keys);
        law_listing_in_order_is_unique(a.drop_first(), b.drop_first(), rest);
        assert(a =~= seq![a[0]] + a.drop_first());
        assert(b =~= seq![b[0]] + b.drop_first());
    }
}

proof fn lemma_listing_without_first(list: Seq<Seq<char>>, keys: Set<Seq<char>>)
    requires
        lists_in_order(list, keys),
        list.len() > 0,
    ensures
        lists_in_order(list.drop_first(), keys.remove(list[0])),
{
    let rest = list.drop_first();
    assert forall|i: int, j: int| 0 <= i <= j < rest.len() implies text_at_most(
        #[trigger] rest[i],
        #[trigger] rest[j],
    ) by {
        assert(rest[i] == list[i + 1]);
        assert(rest[j] == list[j + 1]);
    }
    assert forall|k: Seq<char>| #[trigger] rest.contains(k) <==> keys.remove(list[0]).contains(
        k,
    ) by {
        if rest.contains(k) {
            let i = choose|i: int| 0 <= i < rest.len() && rest[i] == k;
            assert(list[i + 1] == k);
            assert(list.contains(k));
        }
        if keys.contains(k) && k != list[0] {
            assert(list.contains(k));
            let i = choose|i: int| 0 <= i < list.len() && list[i] == k;
            assert(rest[i - 1] == k);
        }
    }
}

/// A new text between those that come before it and those that come after it keeps
/// a list in order.
proof fn lemma_insert_in_order(before: Seq<Seq<char>>, at: int, key: Seq<char>)
    requires
        ascending(before),
        before.no_duplicates(),
        !before.contains(key),
        0 <= at <= before.len(),
        forall|i: int| 0 <= i < at ==> text_at_most(#[trigger] before[i], key),
        at < before.len() ==> text_at_most(key, before[at]),
    ensures
        ascending(before.insert(at, key)),
        before.insert(at, key).no_duplicates(),
        forall|k: Seq<char>| #[trigger]
            before.insert(at, key).contains(k) <==> before.contains(k) || k == key,
{
    let after = before.insert(at, key);
    assert forall|i: int| at <= i < before.len() implies text_at_most(
        key,
        #[trigger] before[i],
    ) by {
        assert(text_at_most(before[at], before[i]));
        law_text_order_is_total(key, before[at], before[i]);
    }
    assert forall|i: int, j: int| 0 <= i <= j < after.len() implies text_at_most(
        #[trigger] after[i],
        #[trigger] after[j],
    ) by {
        law_text_order_is_total(key, key, key);
        let x = if i < at { i } else { i - 1 };
        let y = if j < at { j } else { j - 1 };
        assert(i != at ==> after[i] == before[x]);
        assert(j != at ==> after[j] == before[y]);
    }
    assert forall|k: Seq<char>| #[trigger] after.contains(k) <==> before.contains(k) || k
        == key by {
        if before.contains(k) {
            let i = choose|i: int| 0 <= i < before.len() && before[i] == k;
            assert(after[if i < at { i } else { i + 1 }] == k);
        }
        assert(after[at] == key);
        if after.contains(k) {
            let i = choose|i: int| 0 <= i < after.len() && after[i] == k;
            if i != at {
                assert(before[if i < at { i } else { i - 1 }] == k);
            }
        }
    }
    assert forall|i: int, j: int|
        0 <= i < after.len() && 0 <= j < after.len() && i != j implies after[i] != after[j] by {
        let x = if i < at { i } else { i - 1 };
        let y = if j < at { j } else { j - 1 };
        assert(i != at ==> after[i] == before[x] && before.contains(before[x]));
        assert(j != at ==> after[j] == before[y] && before.contains(before[y]));
    }
}

/// There is a place in an ordered list for any text.
proof fn lemma_place_in_order(list: Seq<Seq<char>>, key: Seq<char>) -> (at: int)
    requires
        ascending(list),
    ensures
        0 <= at <= list.len(),
        forall|i: int| 0 <= i < at ==> text_at_most(#[trigger] list[i], key),
        at < list.len() ==> text_at_most(key, list[at]),
    decreases list.len(),
{
    if list.len() == 0 {
        0
    } else {
        let front = list.drop_last();
        assert forall|i: int, j: int| 0 <= i <= j < front.len() implies text_at_most(
            #[trigger] front[i],
            #[trigger] front[j],
        ) by {
            assert(text_at_most(list[i], list[j]));
        }
        let at = lemma_place_in_order(front, key);
        assert forall|i: int| 0 <= i < at implies text_at_most(#[trigger] list[i], key) by {
            assert(list[i] == front[i]);
        }
        law_text_order_is_total(list.last(), key, key);
        if at == front.len() && text_at_most(list.last(), key) {
            at + 1
        } else {
            law_text_order_is_total(key, list.last(), key);
            at
        }
    }
}

/// Every finite set of texts can be listed in order.
pub proof fn law_finite_set_is_listed_in_order(keys: Set<Seq<char>>)
    requires
        keys.finite(),
    ensures
        lists_in_order(in_order(keys), keys),
    decreases keys.len(),
{
    if keys.len() == 0 {
        let none: Seq<Seq<char>> = seq![];
        assert(keys =~= Set::empty());
        assert(lists_in_order(none, keys));
    } else {
        let key = keys.choose();
        let rest = keys.remove(key);
        law_finite_set_is_listed_in_order(rest);
        let before = in_order(rest);
        assert(!before.contains(key));
        let at = lemma_place_in_order(before, key);
        lemma_insert_in_order(before, at, key);
        assert(lists_in_order(before.insert(at, key), keys));
    }
}

/// Puts `key` where it belongs in a list that is in order.
fn insert_in_order(list: &mut Vec<String>, key: String)
    requires
        ascending(texts(old(list)@)),
        texts(old(list)@).no_duplicates(),
        !texts(old(list)@).contains(key@),
    ensures
        ascending(texts(final(list)@)),
        texts(final(list)@).no_duplicates(),
        forall|k: Seq<char>| #[trigger]
            texts(final(list)@).contains(k) <==> texts(old(list)@).contains(k) || k == key@,
{
    let ghost before = texts(list@);
    let mut at: usize = 0;
    while at < list.len() && is_at_most(list[at].as_str(), key.as_str())
        invariant
            at <= list.len(),
            before == texts(list@),
            forall|i: int| 0 <= i < at ==> text_at_most(#[trigger] before[i], key@),
        decreases list.len() - at,
    {
        assert(before[at as int] == list@[at as int]@);
        at += 1;
    }
    let ghost new_key = key@;
    proof {
        if at < list.len() {
            assert(before[at as int] == list@[at as int]@);
            law_text_order_is_total(before[at as int], new_key, new_key);
        }
        lemma_insert_in_order(before, at as int, new_key);
    }
    list.insert(at, key);
    assert(texts(list@) =~= before.insert(at as int, new_key));
}

/// The texts of a list without duplicates, in order.
pub(crate) fn sorted(list: &Vec<String>) -> (result: Vec<String>)
    requires
        texts(list@).no_duplicates(),
    ensures
        lists_in_order(texts(result@), texts(list@).to_set()),
        texts(result@) == in_order(texts(list@).to_set()),
{
    let ghost all = texts(list@);
    let mut result: Vec<String> = Vec::new();
    for i in 0..list.len()
        invariant
            all == texts(list@),
            all.no_duplicates(),
            ascending(texts(result@)),
            texts(result@).no_duplicates(),
            forall|k: Seq<char>| #[trigger]
                texts(result@).contains(k) <==> all.take(i as int).contains(k),
    {
        let ghost key = list@[i as int]@;
        proof {
            assert(all[i as int] == key);
            if texts(result@).contains(key) {
                assert(all.take(i as int).contains(key));
                let j = choose|j: int| 0 <= j < i && all.take(i as int)[j] == key;
                assert(all[j] == key);
            }
        }
        let ghost before = texts(result@);
        insert_in_order(&mut result, list[i].clone());
        proof {
            let here = all.take(i as int);
            let next = all.take(i + 1);
            assert(next =~= here.push(key));
            assert forall|k: Seq<char>| #[trigger] texts(result@).contains(k) <==> next.contains(
                k,
            ) by {
                assert(texts(result@).contains(k) <==> before.contains(k) || k == key);
                if next.contains(k) {
                    let j = choose|j: int| 0 <= j < next.len() && next[j] == k;
                    if j < i {
                        assert(here[j] == k);
                    }
                }
                if here.contains(k) {
                    let j = choose|j: int| 0 <= j < here.len() && here[j] == k;
                    assert(next[j] == k);
                }
                assert(next[i as int] == key);
            }
        }
    }
    proof {
        assert(all.take(list@.len() as int) =~= all);
        let keys = all.to_set();
        assert(lists_in_order(texts(result@), keys));
        law_listing_in_order_is_unique(texts(result@), in_order(keys), keys);
    }
    result
}

proof fn lemma_bytes_by_first_difference(a: Seq<u8>, b: Seq<u8>, n: int)
    requires
        0 <= n <= a.len(),
        n <= b.len(),
        forall|i: int| 0 <= i < n ==> a[i] == b[i],
        n < a.len() && n < b.len() ==> a[n] != b[n],
    ensures
        bytes_at_most(a, b) == (n == a.len() || n < b.len() && a[n] < b[n]),
{
    lemma_bytes_skip_common(a, b, n);
}

/// Texts are ordered by the first byte in which they differ; and where one goes on
/// after the other ends, the shorter one comes first.
pub proof fn law_text_order_goes_by_the_first_difference(a: Seq<char>, b: Seq<char>, n: int)
    requires
        ({
            let (x, y) = (encode_utf8(a), encode_utf8(b));
            &&& 0 <= n <= x.len() && n <= y.len()
            &&& forall|i: int| 0 <= i < n ==> x[i] == y[i]
            &&& n < x.len() && n < y.len() ==> x[n] != y[n]
        }),
    ensures
        ({
            let (x, y) = (encode_utf8(a), encode_utf8(b));
            text_at_most(a, b) == (n == x.len() || n < y.len() && x[n] < y[n])
        }),
{
    lemma_bytes_by_first_difference(encode_utf8(a), encode_utf8(b), n);
}

/// A finite set of texts in order: each of them once, none that is not in the set,
/// and one that is at most another never behind it.
pub proof fn law_texts_in_order(keys: Set<Seq<char>>)
    requires
        keys.finite(),
    ensures
        forall|k: Seq<char>| #[trigger] in_order(keys).contains(k) <==> keys.contains(k),
        forall|i: int, j: int|
            #![trigger in_order(keys)[i], in_order(keys)[j]]
            0 <= i < j < in_order(keys).len() ==> in_order(keys)[i] != in_order(keys)[j]
                && text_at_most(in_order(keys)[i], in_order(keys)[j]) && !text_at_most(
                in_order(keys)[j],
                in_order(keys)[i],
            ),
{
    law_finite_set_is_listed_in_order(keys);
    let list = in_order(keys);
    assert forall|i: int, j: int|
        #![trigger list[i], list[j]]
        0 <= i < j < list.len() implies list[i] != list[j] && text_at_most(list[i], list[j])
        && !text_at_most(list[j], list[i]) by {
        law_text_order_is_total(list[i], list[j], list[i]);
    }
}

} // verus!
