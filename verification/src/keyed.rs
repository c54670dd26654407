//! A small map from text keys, kept in the order of insertion.
use vstd::prelude::*;
use crate::text::same;

verus! {

/// Keys that can be compared.
pub trait Key: View {
    /// Whether two keys are the same.
    fn same_key(&self, other: &Self) -> (r: bool)
        ensures
            r == (self@ == other@),
    ;
}

impl Key for String {
    fn same_key(&self, other: &Self) -> (r: bool) {
        same(self.as_str(), other.as_str())
    }
}

impl Key for (String, String) {
    fn same_key(&self, other: &Self) -> (r: bool) {
        same(self.0.as_str(), other.0.as_str()) && same(self.1.as_str(), other.1.as_str())
    }
}

impl Key for (String, u64) {
    fn same_key(&self, other: &Self) -> (r: bool) {
        same(self.0.as_str(), other.0.as_str()) && self.1 == other.1
    }
}

/// A map that holds each key once, in the order in which the keys came.
#[derive(Debug)]
#[verifier::reject_recursive_types(K)]
#[verifier::reject_recursive_types(V)]
pub struct KeyedList<K: Key, V> {
    entries: Vec<(K, V)>,
}

impl<K: Key, V> KeyedList<K, V> {
    /// The entries in their order.
    pub closed spec fn list(self) -> Seq<(K::V, V)> {
        self.entries@.map_values(|e: (K, V)| (e.0@, e.1))
    }

    /// No key occurs twice.
    pub open spec fn wf(self) -> bool {
        distinct(self.list())
    }
}

/// Whether no key occurs twice.
pub open spec fn distinct<A, V>(s: Seq<(A, V)>) -> bool {
    forall|i: int, j: int|
        0 <= i < s.len() && 0 <= j < s.len() && (#[trigger] s[i]).0 == (#[trigger] s[j]).0 ==> i
            == j
}

/// The position of a key.
pub open spec fn place<A, V>(s: Seq<(A, V)>, k: A) -> Option<int> {
    if exists|i: int| 0 <= i < s.len() && (#[trigger] s[i]).0 == k {
        Some(choose|i: int| 0 <= i < s.len() && (#[trigger] s[i]).0 == k)
    } else {
        None
    }
}

/// The map that a list without repeated keys amounts to.
pub open spec fn as_map<A, V>(s: Seq<(A, V)>) -> Map<A, V> {
    Map::new(|k: A| place(s, k) is Some, |k: A| s[place(s, k)->0].1)
}

/// In a list without repeated keys the place of a key is where it stands.
pub proof fn lemma_place<A, V>(s: Seq<(A, V)>, i: int)
    requires
        distinct(s),
        0 <= i < s.len(),
    ensures
        place(s, s[i].0) == Some(i),
        as_map(s).contains_key(s[i].0),
        as_map(s)[s[i].0] == s[i].1,
{
    assert(exists|j: int| 0 <= j < s.len() && (#[trigger] s[j]).0 == s[i].0);
}

/// A key that stands nowhere is not in the map.
pub proof fn lemma_no_place<A, V>(s: Seq<(A, V)>, k: A)
    requires
        forall|i: int| 0 <= i < s.len() ==> (#[trigger] s[i]).0 != k,
    ensures
        !as_map(s).contains_key(k),
{
}

impl<K: Key, V> View for KeyedList<K, V> {
    type V = Map<K::V, V>;

    open spec fn view(&self) -> Map<K::V, V> {
        as_map(self.list())
    }
}

impl<K: Key, V> KeyedList<K, V> {
    /// An empty map.
    pub fn new() -> (r: KeyedList<K, V>)
        ensures
            r.wf(),
            r@ == Map::<K::V, V>::empty(),
            r.list() == Seq::<(K::V, V)>::empty(),
    {
        let r = KeyedList { entries: Vec::new() };
        assert(r.list() =~= Seq::<(K::V, V)>::empty());
        assert(r@ =~= Map::<K::V, V>::empty());
        r
    }

    /// The number of keys.
    pub fn len(&self) -> (n: usize)
        ensures
            n == self.list().len(),
    {
        self.entries.len()
    }

    /// The `i`th key.
    pub fn key(&self, i: usize) -> (r: &K)
        requires
            i < self.list().len(),
        ensures
            r@ == self.list()[i as int].0,
    {
        &self.entries[i].0
    }

    /// The `i`th value.
    pub fn value(&self, i: usize) -> (r: &V)
        requires
            i < self.list().len(),
        ensures
            *r == self.list()[i as int].1,
    {
        &self.entries[i].1
    }

    /// The place of a key.
    fn find(&self, k: &K) -> (r: Option<usize>)
        requires
            self.wf(),
        ensures
            match r {
                Some(i) => i < self.entries@.len() && self.list()[i as int].0 == k@,
                None => forall|i: int|
                    0 <= i < self.list().len() ==> (#[trigger] self.list()[i]).0 != k@,
            },
    {
        let mut i: usize = 0;
        while i < self.entries.len()
            invariant
                i <= self.entries@.len(),
                forall|j: int| 0 <= j < i ==> (#[trigger] self.list()[j]).0 != k@,
            decreases self.entries@.len() - i,
        {
            assert(self.list()[i as int].0 == self.entries@[i as int].0@);
            if self.entries[i].0.same_key(k) {
                return Some(i);
            }
            i += 1;
        }
        None
    }

    /// The value of a key.
    pub fn get(&self, k: &K) -> (r: Option<&V>)
        requires
            self.wf(),
        ensures
            match r {
                Some(v) => self@.contains_key(k@) && self@[k@] == *v,
                None => !self@.contains_key(k@),
            },
    {
        match self.find(k) {
            Some(i) => {
                proof {
                    lemma_place(self.list(), i as int);
                }
                Some(&self.entries[i].1)
            },
            None => {
                proof {
                    lemma_no_place(self.list(), k@);
                }
                None
            },
        }
    }

    /// Sets the value of a key.
    pub fn insert(&mut self, k: K, v: V)
        requires
            old(self).wf(),
        ensures
            final(self).wf(),
            final(self)@ == old(self)@.insert(k@, v),
    {
        let ghost before = self.list();
        match self.find(&k) {
            Some(i) => {
                self.entries.set(i, (k, v));
                proof {
                    let now = self.list();
                    assert(now =~= before.update(i as int, (k@, v)));
                    assert forall|a: int, b: int|
                        0 <= a < now.len() && 0 <= b < now.len() && (#[trigger] now[a]).0 == (
                        #[trigger] now[b]).0 implies a == b by {
                        assert(before[a].0 == now[a].0);
                        assert(before[b].0 == now[b].0);
                    }
                    assert forall|q: K::V|
                        (#[trigger] as_map(now).dom().contains(q)) == as_map(before).insert(k@, v).dom().contains(q)
                            && (as_map(now).dom().contains(q) ==> as_map(now)[q] == as_map(
                            before,
                        ).insert(k@, v)[q]) by {
                        if place(now, q) is Some {
                            let p = place(now, q)->0;
                            lemma_place(now, p);
                            lemma_place(before, p);
                            assert(before[p].0 == q);
                        }
                        if place(before, q) is Some {
                            let p = place(before, q)->0;
                            lemma_place(before, p);
                            lemma_place(now, p);
                            assert(now[p].0 == q);
                        }
                        lemma_place(now, i as int);
                    }
                    assert(self@ =~= old(self)@.insert(k@, v));
                }
            },
            None => {
                proof {
                    lemma_no_place(before, k@);
                }
                self.entries.push((k, v));
                proof {
                    let now = self.list();
                    assert(now =~= before.push((k@, v)));
                    assert(self.wf());
                    assert forall|q: K::V|
                        (#[trigger] as_map(now).dom().contains(q)) == as_map(before).insert(k@, v).dom().contains(q)
                            && (as_map(now).dom().contains(q) ==> as_map(now)[q] == as_map(
                            before,
                        ).insert(k@, v)[q]) by {
                        lemma_place(now, now.len() - 1);
                        if place(now, q) is Some {
                            let p = place(now, q)->0;
                            lemma_place(now, p);
                            if p < before.len() {
                                lemma_place(before, p);
                                assert(before[p].0 == q);
                            }
                        }
                        if place(before, q) is Some {
                            let p = place(before, q)->0;
                            lemma_place(before, p);
                            lemma_place(now, p);
                            assert(now[p].0 == q);
                        }
                    }
                    assert(self@ =~= old(self)@.insert(k@, v));
                }
            },
        }
    }

    /// Takes a key out.
    pub fn remove(&mut self, k: &K) -> (r: Option<V>)
        requires
            old(self).wf(),
        ensures
            final(self).wf(),
            match r {
                Some(v) => old(self)@.contains_key(k@) && old(self)@[k@] == v && final(self)@
                    == old(self)@.remove(k@),
                None => !old(self)@.contains_key(k@) && final(self)@ == old(self)@,
            },
    {
        let ghost before = self.list();
        match self.find(k) {
            Some(i) => {
                let (_k, v) = self.entries.remove(i);
                proof {
                    let now = self.list();
                    assert(now =~= before.remove(i as int));
                    lemma_place(before, i as int);
                    assert forall|a: int, b: int|
                        0 <= a < now.len() && 0 <= b < now.len() && (#[trigger] now[a]).0 == (
                        #[trigger] now[b]).0 implies a == b by {
                        let x = if a < i {
                            a
                        } else {
                            a + 1
                        };
                        let y = if b < i {
                            b
                        } else {
                            b + 1
                        };
                        assert(before[x] == now[a]);
                        assert(before[y] == now[b]);
                    }
                    assert forall|q: K::V|
                        (#[trigger] as_map(now).dom().contains(q)) == as_map(before).remove(k@).dom().contains(q)
                            && (as_map(now).dom().contains(q) ==> as_map(now)[q] == as_map(
                            before,
                        ).remove(k@)[q]) by {
                        if place(now, q) is Some {
                            let p = place(now, q)->0;
                            lemma_place(now, p);
                            let x = if p < i {
                                p
                            } else {
                                p + 1
                            };
                            assert(before[x] == now[p]);
                            lemma_place(before, x);
                            if q == k@ {
                                assert(before[x].0 == before[i as int].0);
                            }
                        }
                        if place(before, q) is Some {
                            let p = place(before, q)->0;
                            lemma_place(before, p);
                            if q != k@ {
                                let x = if p < i {
                                    p
                                } else {
                                    p - 1
                                };
                                assert(now[x] == before[p]);
                                lemma_place(now, x);
                            }
                        }
                    }
                    assert(self@ =~= old(self)@.remove(k@));
                }
                Some(v)
            },
            None => {
                proof {
                    lemma_no_place(before, k@);
                }
                None
            },
        }
    }
}

/// How often `k` stands in `s`.
pub open spec fn times<A>(s: Seq<A>, k: A) -> nat
    decreases s.len(),
{
    if s.len() == 0 {
        0
    } else {
        times(s.drop_last(), k) + if s.last() == k {
            1nat
        } else {
            0nat
        }
    }
}

/// A count, as far as 32 bits hold it.
pub open spec fn capped(n: nat) -> u32 {
    if n <= u32::MAX {
        n as u32
    } else {
        u32::MAX
    }
}

/// One more, as far as 32 bits hold it.
pub fn count_on(n: u32) -> (r: u32)
    ensures
        forall|k: nat| n == capped(k) ==> r == #[trigger] capped(k + 1),
{
    if n < u32::MAX {
        n + 1
    } else {
        n
    }
}

/// Whether `m` counts the elements of `s`.
pub open spec fn counts<A>(m: Map<A, u32>, s: Seq<A>) -> bool {
    &&& forall|k: A| #[trigger] m.contains_key(k) <==> times(s, k) > 0
    &&& forall|k: A| m.contains_key(k) ==> #[trigger] m[k] == capped(times(s, k))
}

impl<K: Key> KeyedList<K, u32> {
    /// Counts one more occurrence of a key.
    pub(crate) fn bump(&mut self, k: K, Ghost(seen): Ghost<Seq<K::V>>) -> (n: u32)
        requires
            old(self).wf(),
            counts(old(self)@, seen),
        ensures
            final(self).wf(),
            counts(final(self)@, seen.push(k@)),
            n == capped(times(seen.push(k@), k@)),
    {
        let n: u32 = match self.get(&k) {
            Some(n) => *n,
            None => 0,
        };
        proof {
            assert(seen.push(k@).drop_last() =~= seen);
            assert(n == capped(times(seen, k@)));
        }
        let ghost m = self@;
        let ghost kv = k@;
        let more = count_on(n);
        assert(more == capped(times(seen, kv) + 1));
        self.insert(k, more);
        proof {
            assert forall|q: K::V| #[trigger] self@.contains_key(q) <==> times(
                seen.push(kv),
                q,
            ) > 0 by {
                assert(m.contains_key(q) <==> times(seen, q) > 0);
            }
            assert forall|q: K::V| self@.contains_key(q) implies #[trigger] self@[q] == capped(
                times(seen.push(kv), q),
            ) by {
                if q != kv {
                    assert(m.contains_key(q));
                    assert(m[q] == capped(times(seen, q)));
                }
            }
        }
        more
    }
}

} // verus!
