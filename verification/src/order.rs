//! Stable ordering of items by a text key.

use crate::text::{lemma_text_lt_transitive, lemma_text_order_total, text_less, text_lt};
use vstd::prelude::*;

verus! {

/// The keys as plain texts.
pub open spec fn texts(keys: Seq<Vec<char>>) -> Seq<Seq<char>> {
    Seq::new(keys.len(), |i: int| keys[i]@)
}

/// `order` names the place `v`.
pub open spec fn names(order: Seq<usize>, v: int) -> bool {
    exists|a: int| 0 <= a < order.len() && #[trigger] order[a] == v
}

/// `order` names each of the places `0..n` exactly once.
pub open spec fn is_permutation(order: Seq<usize>, n: nat) -> bool {
    &&& order.len() == n
    &&& forall|i: int| 0 <= i < n ==> (#[trigger] order[i]) < n
    &&& forall|i: int, j: int| 0 <= i < j < n ==> #[trigger] order[i] != #[trigger] order[j]
    &&& forall|v: int| 0 <= v < n ==> #[trigger] names(order, v)
}

/// The item at place `i` goes before the item at place `j`: by key, and among
/// equal keys by place.
pub open spec fn goes_before(keys: Seq<Seq<char>>, i: int, j: int) -> bool {
    text_lt(keys[i], keys[j]) || (keys[i] == keys[j] && i < j)
}

/// `order` lists the places of `keys` by ascending key, equal keys in the order of
/// their places.
pub open spec fn is_sorted_order(keys: Seq<Seq<char>>, order: Seq<usize>) -> bool {
    &&& is_permutation(order, keys.len())
    &&& forall|a: int, b: int|
        0 <= a < b < order.len() ==> goes_before(
            keys,
            #[trigger] order[a] as int,
            #[trigger] order[b] as int,
        )
}

/// Of two different places exactly one goes before the other.
pub proof fn lemma_goes_before_total(keys: Seq<Seq<char>>, i: int, j: int)
    requires
        i != j,
    ensures
        goes_before(keys, i, j) != goes_before(keys, j, i),
{
    lemma_text_order_total(keys[i], keys[j]);
}

/// Only one order of the places is sorted.
pub proof fn lemma_sorted_order_unique(keys: Seq<Seq<char>>, o1: Seq<usize>, o2: Seq<usize>)
    requires
        is_sorted_order(keys, o1),
        is_sorted_order(keys, o2),
    ensures
        o1 == o2,
{
    let n = keys.len() as int;
    lemma_agree_upto(keys, o1, o2, n);
    assert(o1 =~= o2);
}

proof fn lemma_agree_upto(keys: Seq<Seq<char>>, o1: Seq<usize>, o2: Seq<usize>, k: int)
    requires
        is_sorted_order(keys, o1),
        is_sorted_order(keys, o2),
        0 <= k <= keys.len(),
    ensures
        forall|i: int| 0 <= i < k ==> o1[i] == o2[i],
    decreases k,
{
    if k > 0 {
        lemma_agree_upto(keys, o1, o2, k - 1);
        let m = k - 1;
        let x = o1[m] as int;
        let y = o2[m] as int;
        if x != y {
            assert(names(o2, x));
            let j = choose|a: int| 0 <= a < o2.len() && #[trigger] o2[a] == x;
            assert(names(o1, y));
            let l = choose|a: int| 0 <= a < o1.len() && #[trigger] o1[a] == y;
            if j < m {
                assert(o1[j] == o2[j]);
            }
            if l < m {
                assert(o2[l] == o1[l]);
            }
            assert(goes_before(keys, o2[m] as int, o2[j] as int));
            assert(goes_before(keys, o1[m] as int, o1[l] as int));
            lemma_goes_before_total(keys, x, y);
        }
    }
}

/// The items of `s` in the given order of their places.
pub open spec fn arranged<T>(s: Seq<T>, order: Seq<usize>) -> Seq<T> {
    Seq::new(order.len(), |i: int| s[order[i] as int])
}

/// The sorted order of the places of `keys`.
pub open spec fn sort_order(keys: Seq<Seq<char>>) -> Seq<usize> {
    choose|order: Seq<usize>| is_sorted_order(keys, order)
}

/// The places of `keys` in ascending order of key; equal keys keep their
/// order.
pub fn sorted_order(keys: &Vec<Vec<char>>) -> (order: Vec<usize>)
    ensures
        is_sorted_order(texts(keys@), order@),
        order@ == sort_order(texts(keys@)),
{
    let ghost ks = texts(keys@);
    let mut order: Vec<usize> = Vec::new();
    let mut i: usize = 0;
    while i < keys.len()
        invariant
            i <= keys.len(),
            ks == texts(keys@),
            order.len() == i,
            forall|a: int| 0 <= a < i ==> (#[trigger] order@[a]) < i,
            forall|a: int, b: int| 0 <= a < b < i ==> #[trigger] order@[a] != #[trigger] order@[b],
            forall|v: int| 0 <= v < i ==> #[trigger] names(order@, v),
            forall|a: int, b: int|
                0 <= a < b < i ==> goes_before(
                    ks,
                    #[trigger] order@[a] as int,
                    #[trigger] order@[b] as int,
                ),
        decreases keys.len() - i,
    {
        let mut p: usize = 0;
        while p < i && !text_less(&keys[i], &keys[order[p]])
            invariant
                p <= i < keys.len(),
                ks == texts(keys@),
                order.len() == i,
                forall|a: int| 0 <= a < i ==> (#[trigger] order@[a]) < i,
                forall|a: int| 0 <= a < p ==> !text_lt(ks[i as int], ks[(#[trigger] order@[a]) as int]),
            decreases i - p,
        {
            p += 1;
        }
        let ghost before = order@;
        order.insert(p, i);
        proof {
            let after = order@;
            assert forall|a: int, b: int| 0 <= a < b < i + 1 implies goes_before(
                ks,
                #[trigger] after[a] as int,
                #[trigger] after[b] as int,
            ) by {
                if b < p {
                    assert(after[a] == before[a] && after[b] == before[b]);
                } else if b == p {
                    assert(after[a] == before[a]);
                    lemma_text_order_total(ks[i as int], ks[before[a] as int]);
                } else if a < p {
                    assert(after[a] == before[a] && after[b] == before[b - 1]);
                } else if a == p {
                    assert(after[b] == before[b - 1]);
                    assert(text_lt(ks[i as int], ks[before[p as int] as int]));
                    if b - 1 > p {
                        assert(goes_before(ks, before[p as int] as int, before[b - 1] as int));
                        if text_lt(ks[before[p as int] as int], ks[before[b - 1] as int]) {
                            lemma_text_lt_transitive(
                                ks[i as int],
                                ks[before[p as int] as int],
                                ks[before[b - 1] as int],
                            );
                        }
                    }
                } else {
                    assert(after[a] == before[a - 1] && after[b] == before[b - 1]);
                }
            }
            assert forall|a: int, b: int| 0 <= a < b < i + 1 implies #[trigger] after[a]
                != #[trigger] after[b] by {
                if a != p && b != p {
                    let a0 = if a < p { a } else { a - 1 };
                    let b0 = if b < p { b } else { b - 1 };
                    assert(after[a] == before[a0] && after[b] == before[b0]);
                } else if a == p {
                    assert(after[b] == before[b - 1]);
                } else {
                    assert(after[a] == before[a]);
                }
            }
            assert forall|a: int| 0 <= a < i + 1 implies (#[trigger] after[a]) < i + 1 by {
                if a < p {
                    assert(after[a] == before[a]);
                } else if a > p {
                    assert(after[a] == before[a - 1]);
                }
            }
            assert forall|v: int| 0 <= v < i + 1 implies #[trigger] names(after, v) by {
                if v == i {
                    assert(after[p as int] == v);
                } else {
                    assert(names(before, v));
                    let a = choose|a: int| 0 <= a < before.len() && #[trigger] before[a] == v;
                    if a < p {
                        assert(after[a] == v);
                    } else {
                        assert(after[a + 1] == v);
                    }
                }
            }
        }
        i += 1;
    }
    proof {
        lemma_sorted_order_unique(ks, order@, sort_order(ks));
    }
    order
}

/// The texts in ascending order; equal texts keep their order.
pub open spec fn sorted_texts(s: Seq<Seq<char>>) -> Seq<Seq<char>> {
    arranged(s, sort_order(s))
}

/// The texts in ascending order.
pub fn sort_texts(v: &Vec<Vec<char>>) -> (r: Vec<Vec<char>>)
    ensures
        texts(r@) == sorted_texts(texts(v@)),
{
    let order = sorted_order(v);
    let mut r: Vec<Vec<char>> = Vec::new();
    let mut k: usize = 0;
    while k < order.len()
        invariant
            k <= order.len(),
            order.len() == v.len(),
            is_sorted_order(texts(v@), order@),
            r.len() == k,
            forall|j: int| 0 <= j < k ==> (#[trigger] r@[j])@ == v@[order@[j] as int]@,
        decreases order.len() - k,
    {
        assert(order@[k as int] < v.len());
        r.push(v[order[k]].clone());
        k += 1;
    }
    assert(texts(r@) =~= sorted_texts(texts(v@)));
    r
}

/// The first `n` of the texts without those that repeat the text before
/// them.
pub open spec fn deduped(s: Seq<Seq<char>>, n: nat) -> Seq<Seq<char>>
    decreases n,
{
    if n == 0 || n > s.len() {
        Seq::empty()
    } else {
        let rest = deduped(s, (n - 1) as nat);
        if n >= 2 && s[n - 1] == s[n - 2] {
            rest
        } else {
            rest.push(s[n - 1])
        }
    }
}

/// The texts without those that repeat the text before them.
pub fn dedup_texts(v: &Vec<Vec<char>>) -> (r: Vec<Vec<char>>)
    ensures
        texts(r@) == deduped(texts(v@), v@.len()),
{
    let ghost ts = texts(v@);
    let mut r: Vec<Vec<char>> = Vec::new();
    let mut i: usize = 0;
    assert(texts(r@) =~= deduped(ts, 0));
    while i < v.len()
        invariant
            i <= v.len(),
            ts == texts(v@),
            texts(r@) == deduped(ts, i as nat),
        decreases v.len() - i,
    {
        let ghost before = texts(r@);
        if i == 0 || !crate::text::text_same(&v[i], &v[i - 1]) {
            r.push(v[i].clone());
            assert(texts(r@) =~= before.push(ts[i as int]));
        }
        i += 1;
    }
    r
}

} // verus!
