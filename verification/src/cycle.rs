//! Cycles in a directed graph that is given by the successors of each node.

use vstd::prelude::*;

verus! {

/// Every successor is a node.
pub open spec fn in_range(adj: Seq<Vec<usize>>) -> bool {
    forall|a: int, j: int|
        0 <= a < adj.len() && 0 <= j < adj[a]@.len() ==> (#[trigger] adj[a]@[j]) < adj.len()
}

/// `b` is a successor of `a`.
pub open spec fn adjacent(adj: Seq<Vec<usize>>, a: int, b: int) -> bool {
    0 <= a < adj.len() && exists|j: int| 0 <= j < adj[a]@.len() && #[trigger] adj[a]@[j] == b
}

/// `a` has a successor in `s`.
pub open spec fn steps_into(adj: Seq<Vec<usize>>, s: Set<int>, a: int) -> bool {
    exists|b: int| s.contains(b) && #[trigger] adjacent(adj, a, b)
}

/// `s` is a set of nodes, not empty, each of which has a successor in `s`:
/// from any of them one can walk on within `s` for ever.
pub open spec fn closed(adj: Seq<Vec<usize>>, s: Set<int>) -> bool {
    &&& exists|a: int| s.contains(a)
    &&& forall|a: int| s.contains(a) ==> 0 <= a < adj.len() && #[trigger] steps_into(adj, s, a)
}

/// The graph has a cycle: among finitely many nodes, a walk that never ends
/// comes back to a node.
pub open spec fn cyclic(adj: Seq<Vec<usize>>) -> bool {
    exists|s: Set<int>| #[trigger] closed(adj, s)
}

/// No node that is marked lies in a closed set.
spec fn clear(adj: Seq<Vec<usize>>, removed: Seq<bool>) -> bool {
    forall|s: Set<int>, a: int|
        #[trigger] closed(adj, s) && 0 <= a < removed.len() && removed[a] ==> !#[trigger] s.contains(a)
}

/// Every successor in the list is marked.
spec fn all_marked(list: Seq<usize>, removed: Seq<bool>) -> bool {
    forall|j: int| 0 <= j < list.len() ==> removed[(#[trigger] list[j]) as int]
}

fn successors_marked(list: &Vec<usize>, removed: &Vec<bool>) -> (r: bool)
    requires
        forall|j: int| 0 <= j < list@.len() ==> (#[trigger] list@[j]) < removed@.len(),
    ensures
        r == all_marked(list@, removed@),
{
    let mut j: usize = 0;
    while j < list.len()
        invariant
            j <= list.len(),
            forall|j: int| 0 <= j < list@.len() ==> (#[trigger] list@[j]) < removed@.len(),
            forall|i: int| 0 <= i < j ==> removed@[(#[trigger] list@[i]) as int],
        decreases list.len() - j,
    {
        if !removed[list[j]] {
            return false;
        }
        j += 1;
    }
    true
}

/// Whether the graph has a cycle.
pub fn has_cycle(adj: &Vec<Vec<usize>>) -> (r: bool)
    requires
        in_range(adj@),
    ensures
        r == cyclic(adj@),
{
    let n = adj.len();
    let mut removed: Vec<bool> = Vec::new();
    while removed.len() < n
        invariant
            removed.len() <= n,
            forall|i: int| 0 <= i < removed.len() ==> !removed@[i],
        decreases n - removed.len(),
    {
        removed.push(false);
    }
    let mut count: usize = 0;
    let mut progress = true;
    proof {
        lemma_marks_zero(removed@, n as int);
        assert forall|s: Set<int>, a: int| #[trigger]
            closed(adj@, s) && 0 <= a < removed@.len() && removed@[a] implies !#[trigger] s.contains(
            a,
        ) by {}
    }
    while progress
        invariant
            n == adj.len(),
            removed.len() == n,
            in_range(adj@),
            clear(adj@, removed@),
            count <= n,
            count == marks(removed@, n as int),
            !progress ==> forall|a: int|
                0 <= a < n && !removed@[a] ==> !#[trigger] all_marked(adj@[a]@, removed@),
        decreases n - count, if progress { 1int } else { 0int },
    {
        progress = false;
        let ghost start = removed@;
        let ghost count0 = count;
        let mut a: usize = 0;
        while a < n
            invariant
                a <= n,
                n == adj.len(),
                removed.len() == n,
                in_range(adj@),
                clear(adj@, removed@),
                count0 <= count <= n,
                progress == (count > count0),
                count == marks(removed@, n as int),
                !progress ==> removed@ == start,
                !progress ==> forall|x: int|
                    0 <= x < a && !removed@[x] ==> !#[trigger] all_marked(adj@[x]@, removed@),
            decreases n - a,
        {
            if !removed[a] {
                assert forall|j: int| 0 <= j < adj@[a as int]@.len() implies (
                #[trigger] adj@[a as int]@[j]) < removed@.len() by {}
                if successors_marked(&adj[a], &removed) {
                    let ghost before = removed@;
                    removed.set(a, true);
                    proof {
                        assert forall|s: Set<int>, x: int| #[trigger]
                            closed(adj@, s) && 0 <= x < n && removed@[x] implies !#[trigger] s.contains(
                            x,
                        ) by {
                            if x == a && s.contains(x) {
                                assert(steps_into(adj@, s, a as int));
                                let b = choose|b: int|
                                    s.contains(b) && #[trigger] adjacent(adj@, a as int, b);
                                let j = choose|j: int|
                                    0 <= j < adj@[a as int]@.len() && #[trigger] adj@[a as int]@[j]
                                        == b;
                                assert(before[adj@[a as int]@[j] as int]);
                                assert(!s.contains(b));
                            } else if x != a {
                                assert(before[x]);
                            }
                        }
                        lemma_marks_update(before, a as int, n as int);
                        lemma_marks_bound(removed@, n as int);
                    }
                    count = count + 1;
                    progress = true;
                }
            }
            a += 1;
        }
    }
    proof {
        lemma_marks_bound(removed@, n as int);
        if count < n {
            let s = Set::new(|x: int| 0 <= x < n && !removed@[x]);
            let w = choose|x: int| 0 <= x < n && !removed@[x];
            assert(s.contains(w));
            assert forall|x: int| s.contains(x) implies 0 <= x < adj@.len() && #[trigger] steps_into(
                adj@,
                s,
                x,
            ) by {
                assert(!all_marked(adj@[x]@, removed@));
                let j = choose|j: int|
                    0 <= j < adj@[x]@.len() && !removed@[(#[trigger] adj@[x]@[j]) as int];
                let b = adj@[x]@[j] as int;
                assert(s.contains(b));
                assert(adjacent(adj@, x, b));
            }
            assert(closed(adj@, s));
        } else {
            assert forall|s: Set<int>| !#[trigger] closed(adj@, s) by {
                if closed(adj@, s) {
                    let x = choose|x: int| s.contains(x);
                    assert(steps_into(adj@, s, x));
                    assert(removed@[x]);
                }
            }
        }
    }
    count < n
}

/// The number of marks among the first `k` places.
spec fn marks(removed: Seq<bool>, k: int) -> int
    decreases k,
{
    if k <= 0 {
        0
    } else {
        marks(removed, k - 1) + if removed[k - 1] {
            1int
        } else {
            0int
        }
    }
}

/// Marking one more place adds one to the number of marks.
proof fn lemma_marks_update(before: Seq<bool>, a: int, k: int)
    requires
        0 <= a < before.len(),
        0 <= k <= before.len(),
        !before[a],
    ensures
        marks(before.update(a, true), k) == marks(before, k) + if a < k {
            1int
        } else {
            0int
        },
    decreases k,
{
    if k > 0 {
        lemma_marks_update(before, a, k - 1);
    }
}

/// There are at most `k` marks among `k` places: `k` where all are marked,
/// fewer where one is not.
proof fn lemma_marks_bound(removed: Seq<bool>, k: int)
    requires
        0 <= k <= removed.len(),
    ensures
        0 <= marks(removed, k) <= k,
        marks(removed, k) == k ==> forall|i: int| 0 <= i < k ==> removed[i],
        marks(removed, k) < k ==> exists|i: int| 0 <= i < k && !removed[i],
    decreases k,
{
    if k > 0 {
        lemma_marks_bound(removed, k - 1);
        if marks(removed, k) < k {
            if !removed[k - 1] {
            } else {
                let i = choose|i: int| 0 <= i < k - 1 && !removed[i];
                assert(0 <= i < k && !removed[i]);
            }
        }
    }
}

/// Without marks the number of marks is zero.
proof fn lemma_marks_zero(removed: Seq<bool>, k: int)
    requires
        0 <= k <= removed.len(),
        forall|i: int| 0 <= i < removed.len() ==> !removed[i],
    ensures
        marks(removed, k) == 0,
    decreases k,
{
    if k > 0 {
        lemma_marks_zero(removed, k - 1);
    }
}

} // verus!
