//! An ordered name-to-value mapping.
//!
//! Every collection of the engine is keyed by a rule or part name. The
//! entries keep their insertion order, which makes every traversal of the
//! engine deterministic; inserting an existing name replaces its value in
//! place.

use vstd::prelude::*;

verus! {

/// Index of the first entry with key `k`, or -1 when no entry has it.
pub open spec fn nm_index_of<X>(m: Seq<(Seq<char>, X)>, k: Seq<char>) -> int
    decreases m.len(),
{
    if m.len() <= 0 {
        -1
    } else if m[0].0 == k {
        0
    } else {
        let r = nm_index_of(m.subrange(1, m.len() as int), k);
        if r == -1 {
            -1
        } else {
            1 + r
        }
    }
}

pub open spec fn nm_has_key<X>(m: Seq<(Seq<char>, X)>, k: Seq<char>) -> bool {
    nm_index_of(m, k) >= 0
}

/// Value stored under `k`; meaningful only when `nm_has_key(m, k)`.
pub open spec fn nm_get<X>(m: Seq<(Seq<char>, X)>, k: Seq<char>) -> X {
    m[nm_index_of(m, k)].1
}

/// Replaces the value under an existing key, or appends a fresh entry.
pub open spec fn nm_insert<X>(m: Seq<(Seq<char>, X)>, k: Seq<char>, v: X) -> Seq<(Seq<char>, X)> {
    let i = nm_index_of(m, k);
    if i >= 0 {
        m.update(i, (m[i].0, v))
    } else {
        m.push((k, v))
    }
}

/// Drops the entry under `k` if there is one.
pub open spec fn nm_remove<X>(m: Seq<(Seq<char>, X)>, k: Seq<char>) -> Seq<(Seq<char>, X)> {
    let i = nm_index_of(m, k);
    if i >= 0 {
        m.remove(i)
    } else {
        m
    }
}

/// The mapping built from a list of pairs, later entries replacing earlier
/// ones of the same name.
pub open spec fn nm_from_pairs<X>(pairs: Seq<(Seq<char>, X)>) -> Seq<(Seq<char>, X)>
    decreases pairs.len(),
{
    if pairs.len() == 0 {
        Seq::empty()
    } else {
        nm_insert(nm_from_pairs(pairs.drop_last()), pairs.last().0, pairs.last().1)
    }
}

pub open spec fn nm_unique_keys<X>(m: Seq<(Seq<char>, X)>) -> bool {
    forall|i: int, j: int|
        0 <= i < j < m.len() ==> (#[trigger] m[i]).0 != (#[trigger] m[j]).0
}

pub proof fn lemma_nm_index_of<X>(m: Seq<(Seq<char>, X)>, k: Seq<char>)
    ensures
        -1 <= nm_index_of(m, k) < m.len(),
        nm_index_of(m, k) >= 0 ==> m[nm_index_of(m, k)].0 == k,
        forall|j: int|
            0 <= j < m.len() && (nm_index_of(m, k) == -1 || j < nm_index_of(m, k)) ==> (
            #[trigger] m[j]).0 != k,
    decreases m.len(),
{
    if m.len() > 0 && m[0].0 != k {
        let tail = m.subrange(1, m.len() as int);
        lemma_nm_index_of(tail, k);
        assert forall|j: int|
            0 <= j < m.len() && (nm_index_of(m, k) == -1 || j < nm_index_of(m, k)) implies (
        #[trigger] m[j]).0 != k by {
            if j > 0 {
                assert(tail[j - 1] == m[j]);
            }
        }
    }
}

/// Scanning a prefix without finding `k` pins `nm_index_of` down: the first
/// match at `i` is the index, and a clean full scan means the key is absent.
pub proof fn lemma_nm_index_of_from_scan<X>(m: Seq<(Seq<char>, X)>, k: Seq<char>, i: int)
    requires
        0 <= i <= m.len(),
        forall|j: int| 0 <= j < i ==> (#[trigger] m[j]).0 != k,
    ensures
        i < m.len() && m[i].0 == k ==> nm_index_of(m, k) == i,
        i == m.len() ==> nm_index_of(m, k) == -1,
    decreases m.len(),
{
    if m.len() > 0 {
        let tail = m.subrange(1, m.len() as int);
        if m[0].0 != k {
            assert forall|j: int| 0 <= j < i - 1 implies (#[trigger] tail[j]).0 != k by {
                assert(tail[j] == m[j + 1]);
            }
            lemma_nm_index_of_from_scan(tail, k, if i > 0 {
                i - 1
            } else {
                0
            });
            if i < m.len() && m[i].0 == k {
                assert(tail[i - 1] == m[i]);
            }
        }
    }
}

pub struct NamedMap<V> {
    pub entries: Vec<(String, V)>,
}

impl<V: View> View for NamedMap<V> {
    type V = Seq<(Seq<char>, V::V)>;

    open spec fn view(&self) -> Self::V {
        Seq::new(self.entries@.len(), |i: int| (self.entries@[i].0@, self.entries@[i].1@))
    }
}

impl<V: View> NamedMap<V> {
    pub fn new() -> (r: Self)
        ensures
            r@ =~= Seq::<(Seq<char>, V::V)>::empty(),
    {
        NamedMap { entries: Vec::new() }
    }

    pub fn len(&self) -> (r: usize)
        ensures
            r == self@.len(),
    {
        self.entries.len()
    }

    pub fn is_empty(&self) -> (r: bool)
        ensures
            r == (self@.len() == 0),
    {
        self.entries.is_empty()
    }

    /// Index of the first entry named `name`, if any.
    pub fn index_of(&self, name: &str) -> (r: Option<usize>)
        ensures
            match r {
                Some(i) => nm_index_of(self@, name@) == i as int && i < self@.len() && self@[
                    i as int
                ].0 == name@,
                None => nm_index_of(self@, name@) == -1,
            },
    {
        let name_s: String = name.to_owned();
        let n = self.entries.len();
        let mut i: usize = 0;
        while i < n
            invariant
                n == self@.len(),
                n == self.entries@.len(),
                0 <= i <= n,
                name_s@ == name@,
                forall|j: int| 0 <= j < i ==> (#[trigger] self@[j]).0 != name@,
            decreases n - i,
        {
            if self.entries[i].0 == name_s {
                proof {
                    lemma_nm_index_of_from_scan(self@, name@, i as int);
                }
                return Some(i);
            }
            assert(self@[i as int].0 != name@);
            i += 1;
        }
        proof {
            lemma_nm_index_of_from_scan(self@, name@, n as int);
        }
        None
    }


    pub fn get(&self, name: &str) -> (r: Option<&V>)
        ensures
            r is Some <==> nm_has_key(self@, name@),
            r is Some ==> r->0@ == nm_get(self@, name@),
    {
        match self.index_of(name) {
            Some(i) => Some(&self.entries[i].1),
            None => None,
        }
    }

    pub fn insert(&mut self, name: String, v: V)
        ensures
            final(self)@ =~= nm_insert(old(self)@, name@, v@),
    {
        let idx = self.index_of(name.as_str());
        match idx {
            Some(i) => {
                let slot = &mut self.entries[i];
                *slot = (name, v);
            },
            None => {
                self.entries.push((name, v));
            },
        }
    }

    pub fn remove(&mut self, name: &str) -> (r: Option<V>)
        ensures
            final(self)@ =~= nm_remove(old(self)@, name@),
            r is Some <==> nm_has_key(old(self)@, name@),
            r is Some ==> r->0@ == nm_get(old(self)@, name@),
    {
        match self.index_of(name) {
            Some(i) => {
                let (_, v) = self.entries.remove(i);
                assert(final(self)@ =~= old(self)@.remove(i as int));
                Some(v)
            },
            None => None,
        }
    }

    /// The name of the entry at position `i`.
    pub fn key_at(&self, i: usize) -> (r: &String)
        requires
            i < self@.len(),
        ensures
            r@ == self@[i as int].0,
    {
        &self.entries[i].0
    }

    /// The value of the entry at position `i`.
    pub fn value_at(&self, i: usize) -> (r: &V)
        requires
            i < self@.len(),
        ensures
            r@ == self@[i as int].1,
    {
        &self.entries[i].1
    }

    /// Removes the whole entry at position `i`.
    pub fn take_at(&mut self, i: usize) -> (r: (String, V))
        requires
            i < old(self)@.len(),
        ensures
            r.0@ == old(self)@[i as int].0,
            r.1@ == old(self)@[i as int].1,
            final(self)@ =~= old(self)@.remove(i as int),
    {
        self.entries.remove(i)
    }


    /// Builds a mapping from a list of pairs, inserting them in order.
    pub fn from_pairs(pairs: Vec<(String, V)>) -> (r: Self)
        ensures
            r@ =~= nm_from_pairs(Seq::new(pairs@.len(), |i: int| (pairs@[i].0@, pairs@[i].1@))),
    {
        let ghost ps = Seq::new(pairs@.len(), |i: int| (pairs@[i].0@, pairs@[i].1@));
        let mut map: NamedMap<V> = NamedMap::new();
        let n = pairs.len();
        let mut pairs = pairs;
        let mut i: usize = 0;
        while i < n
            invariant
                n == ps.len(),
                pairs@.len() == n - i,
                0 <= i <= n,
                forall|j: int|
                    0 <= j < n - i ==> ((#[trigger] pairs@[j]).0@, pairs@[j].1@) == ps[i + j],
                map@ =~= nm_from_pairs(ps.take(i as int)),
            decreases n - i,
        {
            let entry = pairs.remove(0);
            map.insert(entry.0, entry.1);
            proof {
                assert(ps.take(i as int + 1).drop_last() =~= ps.take(i as int));
                assert(ps.take(i as int + 1).last() == ps[i as int]);
            }
            i += 1;
        }
        proof {
            assert(ps.take(n as int) =~= ps);
        }
        map
    }

}


/// Two mappings with the same keys at the same places index keys alike.
pub proof fn lemma_nm_index_of_same_keys<X, Y>(
    m1: Seq<(Seq<char>, X)>,
    m2: Seq<(Seq<char>, Y)>,
    k: Seq<char>,
)
    requires
        m1.len() == m2.len(),
        forall|j: int| 0 <= j < m1.len() ==> (#[trigger] m1[j]).0 == m2[j].0,
    ensures
        nm_index_of(m1, k) == nm_index_of(m2, k),
    decreases m1.len(),
{
    if m1.len() > 0 {
        let t1 = m1.subrange(1, m1.len() as int);
        let t2 = m2.subrange(1, m2.len() as int);
        assert forall|j: int| 0 <= j < t1.len() implies (#[trigger] t1[j]).0 == t2[j].0 by {
            assert(t1[j] == m1[j + 1]);
            assert(t2[j] == m2[j + 1]);
        }
        lemma_nm_index_of_same_keys(t1, t2, k);
    }
}

/// Appending an entry leaves earlier keys' indexes alone and indexes the new
/// key last when it was absent.
pub proof fn lemma_nm_index_of_push<X>(m: Seq<(Seq<char>, X)>, p: (Seq<char>, X), k: Seq<char>)
    ensures
        nm_index_of(m, k) >= 0 ==> nm_index_of(m.push(p), k) == nm_index_of(m, k),
        nm_index_of(m, k) == -1 && p.0 == k ==> nm_index_of(m.push(p), k) == m.len(),
        nm_index_of(m, k) == -1 && p.0 != k ==> nm_index_of(m.push(p), k) == -1,
{
    lemma_nm_index_of(m, k);
    let mp = m.push(p);
    if nm_index_of(m, k) >= 0 {
        let i = nm_index_of(m, k);
        assert forall|j: int| 0 <= j < i implies (#[trigger] mp[j]).0 != k by {
            assert(mp[j] == m[j]);
        }
        assert(mp[i] == m[i]);
        lemma_nm_index_of_from_scan(mp, k, i);
    } else if p.0 == k {
        assert forall|j: int| 0 <= j < m.len() implies (#[trigger] mp[j]).0 != k by {
            assert(mp[j] == m[j]);
        }
        assert(mp[m.len() as int] == p);
        lemma_nm_index_of_from_scan(mp, k, m.len() as int);
    } else {
        assert forall|j: int| 0 <= j < mp.len() implies (#[trigger] mp[j]).0 != k by {
            if j < m.len() {
                assert(mp[j] == m[j]);
            } else {
                assert(mp[j] == p);
            }
        }
        lemma_nm_index_of_from_scan(mp, k, mp.len() as int);
    }
}

/// Removing the entry at `i` (under unique keys) drops exactly that key.
pub proof fn lemma_nm_index_of_remove<X>(m: Seq<(Seq<char>, X)>, i: int, k: Seq<char>)
    requires
        nm_unique_keys(m),
        0 <= i < m.len(),
    ensures
        m[i].0 == k ==> nm_index_of(m.remove(i), k) == -1,
        m[i].0 != k ==> (nm_index_of(m.remove(i), k) >= 0 <==> nm_index_of(m, k) >= 0),
        m[i].0 != k && nm_index_of(m, k) >= 0 ==> nm_get(m.remove(i), k) == nm_get(m, k),
    decreases m.len(),
{
    lemma_nm_index_of(m, k);
    lemma_nm_index_of(m.remove(i), k);
    let mr = m.remove(i);
    if m[i].0 == k {
        if nm_index_of(mr, k) >= 0 {
            let q = nm_index_of(mr, k);
            let q_orig: int = if q < i {
                q
            } else {
                q + 1
            };
            assert(m[q_orig].0 == k);
            assert(q_orig != i ==> m[q_orig].0 != m[i].0);
            assert(false);
        }
    } else {
        if nm_index_of(m, k) >= 0 {
            let q = nm_index_of(m, k);
            let q_new: int = if q < i {
                q
            } else {
                q - 1
            };
            assert(q != i);
            assert(mr[q_new].0 == k);
            lemma_nm_index_of(mr, k);
            assert(nm_index_of(mr, k) >= 0);
            let r = nm_index_of(mr, k);
            assert(mr[r].0 == k);
            let r_orig: int = if r < i {
                r
            } else {
                r + 1
            };
            assert(m[r_orig].0 == k);
            assert(r_orig == q) by {
                if r_orig != q {
                    assert(m[r_orig].0 == m[q].0);
                }
            }
            assert(mr[q_new].1 == m[q].1);
            assert(r == q_new) by {
                if r != q_new {
                    assert(mr[r].0 == mr[q_new].0);
                    assert(nm_unique_keys(mr)) by {
                        lemma_nm_remove_unique(m, i);
                    }
                }
            }
        } else {
            if nm_index_of(mr, k) >= 0 {
                let r = nm_index_of(mr, k);
                let r_orig: int = if r < i {
                    r
                } else {
                    r + 1
                };
                assert(m[r_orig].0 == k);
            }
        }
    }
}

/// Removing an entry keeps the remaining keys unique.
pub proof fn lemma_nm_remove_unique<X>(m: Seq<(Seq<char>, X)>, i: int)
    requires
        nm_unique_keys(m),
        0 <= i < m.len(),
    ensures
        nm_unique_keys(m.remove(i)),
{
    let mr = m.remove(i);
    assert forall|a: int, b: int| 0 <= a < b < mr.len() implies (#[trigger] mr[a]).0 != (
    #[trigger] mr[b]).0 by {
        let a_orig: int = if a < i {
            a
        } else {
            a + 1
        };
        let b_orig: int = if b < i {
            b
        } else {
            b + 1
        };
        assert(m[a_orig].0 == mr[a].0);
        assert(m[b_orig].0 == mr[b].0);
    }
}

/// What inserting does to key membership and lookups.
pub proof fn lemma_nm_insert_keys<X>(m: Seq<(Seq<char>, X)>, k: Seq<char>, v: X, q: Seq<char>)
    ensures
        nm_has_key(nm_insert(m, k, v), q) <==> (nm_has_key(m, q) || q == k),
        nm_unique_keys(m) ==> nm_unique_keys(nm_insert(m, k, v)),
{
    lemma_nm_index_of(m, k);
    lemma_nm_index_of(m, q);
    let i = nm_index_of(m, k);
    if i >= 0 {
        let mi = m.update(i, (m[i].0, v));
        lemma_nm_index_of_same_keys(mi, m, q);
        if nm_unique_keys(m) {
            assert forall|a: int, b: int| 0 <= a < b < mi.len() implies (#[trigger] mi[a]).0 != (
            #[trigger] mi[b]).0 by {
                assert(mi[a].0 == m[a].0);
                assert(mi[b].0 == m[b].0);
            }
        }
    } else {
        lemma_nm_index_of_push(m, (k, v), q);
        if nm_unique_keys(m) {
            let mp = m.push((k, v));
            assert forall|a: int, b: int| 0 <= a < b < mp.len() implies (#[trigger] mp[a]).0 != (
            #[trigger] mp[b]).0 by {
                if b == m.len() {
                    lemma_nm_index_of(m, mp[a].0);
                    if mp[a].0 == k {
                        lemma_nm_index_of_from_scan_key(m, a);
                    }
                }
            }
        }
    }
}

/// An entry's key is found at or before its position.
pub proof fn lemma_nm_index_of_from_scan_key<X>(m: Seq<(Seq<char>, X)>, a: int)
    requires
        0 <= a < m.len(),
    ensures
        nm_has_key(m, m[a].0),
    decreases m.len(),
{
    if m[0].0 != m[a].0 {
        let t = m.subrange(1, m.len() as int);
        assert(t[a - 1] == m[a]);
        lemma_nm_index_of_from_scan_key(t, a - 1);
    }
}


/// A mapping built from pairs has unique keys, and holds a key exactly when
/// some pair carries it.
pub proof fn lemma_nm_from_pairs_unique<X>(pairs: Seq<(Seq<char>, X)>)
    ensures
        nm_unique_keys(nm_from_pairs(pairs)),
        forall|k: Seq<char>|
            #[trigger] nm_has_key(nm_from_pairs(pairs), k) <==> exists|i: int|
                0 <= i < pairs.len() && (#[trigger] pairs[i]).0 == k,
    decreases pairs.len(),
{
    if pairs.len() == 0 {
        assert forall|k: Seq<char>| !#[trigger] nm_has_key(nm_from_pairs(pairs), k) by {
            lemma_nm_index_of(nm_from_pairs(pairs), k);
        }
    } else {
        lemma_nm_from_pairs_unique(pairs.drop_last());
        let prev = nm_from_pairs(pairs.drop_last());
        let last = pairs.last();
        assert forall|k: Seq<char>|
            #[trigger] nm_has_key(nm_from_pairs(pairs), k) <==> exists|i: int|
                0 <= i < pairs.len() && (#[trigger] pairs[i]).0 == k by {
            lemma_nm_insert_keys(prev, last.0, last.1, k);
            if nm_has_key(nm_from_pairs(pairs), k) {
                if k == last.0 {
                    assert(pairs[pairs.len() - 1].0 == k);
                } else {
                    let dl = pairs.drop_last();
                    let i = choose|i: int| 0 <= i < dl.len() && (#[trigger] dl[i]).0 == k;
                    assert(pairs[i].0 == k);
                }
            } else {
                if exists|i: int| 0 <= i < pairs.len() && (#[trigger] pairs[i]).0 == k {
                    let i = choose|i: int|
                        0 <= i < pairs.len() && (#[trigger] pairs[i]).0 == k;
                    if i < pairs.len() - 1 {
                        assert(pairs.drop_last()[i].0 == k);
                    }
                }
            }
        }
        lemma_nm_insert_keys(prev, last.0, last.1, last.0);
    }
}

} // verus!
