//! Association lists: the first entry under a key is the one that counts.

use vstd::prelude::*;

verus! {

/// A type whose values can be compared by their mathematical value.
pub trait Key: DeepView + Sized {
    /// Whether the two values are the same.
    fn same_key(&self, other: &Self) -> (r: bool)
        ensures
            r == (self.deep_view() == other.deep_view()),
    ;
}

/// The place of the first entry under `key` at or after `from`.
pub open spec fn find_from<A, B>(s: Seq<(A, B)>, key: A, from: int) -> Option<int>
    decreases s.len() - from,
{
    if from < 0 || from >= s.len() {
        None
    } else if s[from].0 == key {
        Some(from)
    } else {
        find_from(s, key, from + 1)
    }
}

/// The place of the first entry under `key`.
pub open spec fn find<A, B>(s: Seq<(A, B)>, key: A) -> Option<int> {
    find_from(s, key, 0)
}

/// The value of the first entry under `key`.
pub open spec fn lookup<A, B>(s: Seq<(A, B)>, key: A) -> Option<B> {
    match find(s, key) {
        Some(i) => Some(s[i].1),
        None => None,
    }
}

/// The list with `value` under `key`: in place of the first entry under that
/// key, or else at the end.
pub open spec fn put<A, B>(s: Seq<(A, B)>, key: A, value: B) -> Seq<(A, B)> {
    match find(s, key) {
        Some(i) => s.update(i, (key, value)),
        None => s.push((key, value)),
    }
}

/// What `find_from` returns is the first place at or after `from` that holds
/// the key.
pub proof fn lemma_find_from<A, B>(s: Seq<(A, B)>, key: A, from: int)
    requires
        0 <= from,
    ensures
        match find_from(s, key, from) {
            Some(i) => from <= i < s.len() && s[i].0 == key && forall|j: int|
                from <= j < i ==> (#[trigger] s[j]).0 != key,
            None => forall|j: int| from <= j < s.len() ==> (#[trigger] s[j]).0 != key,
        },
    decreases s.len() - from,
{
    if from < s.len() && s[from].0 != key {
        lemma_find_from(s, key, from + 1);
    }
}

/// After `put`, the key is found with the new value, and every other key is
/// found as before.
pub proof fn lemma_put_lookup<A, B>(s: Seq<(A, B)>, key: A, value: B, other: A)
    ensures
        lookup(put(s, key, value), key) == Some(value),
        other != key ==> lookup(put(s, key, value), other) == lookup(s, other),
        find(s, key) is Some ==> find(put(s, key, value), other) == find(s, other),
        find(s, key) is None ==> find(put(s, key, value), key) == Some(s.len() as int),
{
    let t = put(s, key, value);
    lemma_find_from(s, key, 0);
    lemma_find_from(s, other, 0);
    lemma_find_from(t, key, 0);
    lemma_find_from(t, other, 0);
    match find(s, key) {
        Some(i) => {
            assert(t[i].0 == key);
            assert forall|j: int| 0 <= j < s.len() implies (#[trigger] t[j]).0 == s[j].0 by {}
            match find(t, key) {
                Some(k) => {
                    if k < i {
                        assert(s[k].0 != key);
                    }
                },
                None => {},
            }
            match (find(s, other), find(t, other)) {
                (Some(a), Some(b)) => {
                    if a < b {
                        assert(t[a].0 != other);
                    } else if b < a {
                        assert(s[b].0 != other);
                    }
                },
                (Some(a), None) => {
                    assert(t[a].0 == other);
                },
                (None, Some(b)) => {
                    assert(s[b].0 != other);
                },
                (None, None) => {},
            }
        },
        None => {
            assert(t[s.len() as int].0 == key);
            assert forall|j: int| 0 <= j < s.len() implies (#[trigger] t[j]) == s[j] by {}
            match find(t, key) {
                Some(k) => {
                    if k < s.len() {
                        assert(s[k].0 != key);
                    }
                },
                None => {},
            }
            if other != key {
                match (find(s, other), find(t, other)) {
                    (Some(a), Some(b)) => {
                        if a < b {
                            assert(t[a].0 != other);
                        } else if b < a {
                            assert(s[b].0 != other);
                        }
                    },
                    (Some(a), None) => {
                        assert(t[a].0 == other);
                    },
                    (None, Some(b)) => {
                        if b < s.len() {
                            assert(s[b].0 != other);
                        }
                    },
                    (None, None) => {},
                }
            }
        },
    }
}

/// An association list from keys to values.
#[derive(Debug)]
pub struct Table<K, V> {
    pub entries: Vec<(K, V)>,
}

impl<K: DeepView, V: DeepView> DeepView for Table<K, V> {
    type V = Seq<(K::V, V::V)>;

    open spec fn deep_view(&self) -> Seq<(K::V, V::V)> {
        self.entries.deep_view()
    }
}

impl<K: Key, V: DeepView> Table<K, V> {
    /// The table without entries.
    pub fn new() -> (t: Self)
        ensures
            t.deep_view() == Seq::<(K::V, V::V)>::empty(),
    {
        let t = Table { entries: Vec::new() };
        assert(t.deep_view() =~= Seq::<(K::V, V::V)>::empty());
        t
    }

    /// The place of the first entry under `key`.
    pub fn position(&self, key: &K) -> (r: Option<usize>)
        ensures
            match r {
                Some(i) => find(self.deep_view(), key.deep_view()) == Some(i as int) && i
                    < self.entries.len(),
                None => find(self.deep_view(), key.deep_view()) is None,
            },
    {
        let ghost s = self.deep_view();
        let ghost k = key.deep_view();
        let mut i: usize = 0;
        while i < self.entries.len()
            invariant
                i <= self.entries.len(),
                s == self.deep_view(),
                k == key.deep_view(),
                s.len() == self.entries.len(),
                find(s, k) == find_from(s, k, i as int),
            decreases self.entries.len() - i,
        {
            assert(s[i as int].0 == self.entries@[i as int].0.deep_view());
            if self.entries[i].0.same_key(key) {
                return Some(i);
            }
            i += 1;
        }
        None
    }

    /// The value of the first entry under `key`.
    pub fn get(&self, key: &K) -> (r: Option<&V>)
        ensures
            r.deep_view() == lookup(self.deep_view(), key.deep_view()),
    {
        match self.position(key) {
            Some(i) => {
                assert(self.deep_view()[i as int].1 == self.entries@[i as int].1.deep_view());
                Some(&self.entries[i].1)
            },
            None => None,
        }
    }

    /// Puts `value` under `key`: in place of the first entry under that key,
    /// or else at the end.
    pub fn insert(&mut self, key: K, value: V)
        ensures
            final(self).deep_view() == put(
                old(self).deep_view(),
                key.deep_view(),
                value.deep_view(),
            ),
    {
        let ghost s = self.deep_view();
        let ghost kv = (key.deep_view(), value.deep_view());
        match self.position(&key) {
            Some(i) => {
                self.entries.set(i, (key, value));
                assert(self.deep_view() =~= s.update(i as int, kv));
            },
            None => {
                self.entries.push((key, value));
                assert(self.deep_view() =~= s.push(kv));
            },
        }
    }
}

} // verus!
