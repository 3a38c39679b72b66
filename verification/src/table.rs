//! An association list from byte-string keys to byte-string values, with
//! last-writer-wins updates and stable insertion order. It stands in for the
//! header maps of requests and responses and for the in-memory file storage,
//! where a deterministic serialization order matters.

use vstd::prelude::*;

verus! {

/// The first value bound to `k` in `m`, if any. Under [`assoc_unique`] it is
/// the only one.
pub open spec fn assoc_find(m: Seq<(Seq<u8>, Seq<u8>)>, k: Seq<u8>) -> Option<Seq<u8>>
    decreases m.len(),
{
    if m.len() == 0 {
        None
    } else if m[0].0 == k {
        Some(m[0].1)
    } else {
        assoc_find(m.skip(1), k)
    }
}

/// `m` with `k` bound to `v`: the existing entry for `k` is overwritten in
/// place, a new entry is appended at the end.
pub open spec fn assoc_upsert(m: Seq<(Seq<u8>, Seq<u8>)>, k: Seq<u8>, v: Seq<u8>) -> Seq<
    (Seq<u8>, Seq<u8>),
>
    decreases m.len(),
{
    if m.len() == 0 {
        seq![(k, v)]
    } else if m[0].0 == k {
        seq![(k, v)] + m.skip(1)
    } else {
        seq![m[0]] + assoc_upsert(m.skip(1), k, v)
    }
}

/// `m` without any entry for `k`.
pub open spec fn assoc_remove(m: Seq<(Seq<u8>, Seq<u8>)>, k: Seq<u8>) -> Seq<(Seq<u8>, Seq<u8>)>
    decreases m.len(),
{
    if m.len() == 0 {
        Seq::empty()
    } else if m[0].0 == k {
        assoc_remove(m.skip(1), k)
    } else {
        seq![m[0]] + assoc_remove(m.skip(1), k)
    }
}

/// No key occurs twice.
pub open spec fn assoc_unique(m: Seq<(Seq<u8>, Seq<u8>)>) -> bool {
    forall|i: int, j: int| 0 <= i < j < m.len() ==> m[i].0 != m[j].0
}

pub proof fn lemma_find_at(m: Seq<(Seq<u8>, Seq<u8>)>, k: Seq<u8>, i: int)
    requires
        0 <= i < m.len(),
        m[i].0 == k,
        forall|j: int| 0 <= j < i ==> m[j].0 != k,
    ensures
        assoc_find(m, k) == Some(m[i].1),
    decreases m.len(),
{
    if i == 0 {
    } else {
        assert(m[0].0 != k);
        assert(m.skip(1)[i - 1] == m[i]);
        assert forall|j: int| 0 <= j < i - 1 implies m.skip(1)[j].0 != k by {
            assert(m.skip(1)[j] == m[j + 1]);
        }
        lemma_find_at(m.skip(1), k, i - 1);
    }
}

pub proof fn lemma_find_absent(m: Seq<(Seq<u8>, Seq<u8>)>, k: Seq<u8>)
    requires
        forall|j: int| 0 <= j < m.len() ==> m[j].0 != k,
    ensures
        assoc_find(m, k) is None,
    decreases m.len(),
{
    if m.len() > 0 {
        assert forall|j: int| 0 <= j < m.skip(1).len() implies m.skip(1)[j].0 != k by {
            assert(m.skip(1)[j] == m[j + 1]);
        }
        lemma_find_absent(m.skip(1), k);
    }
}

pub proof fn lemma_upsert_at(m: Seq<(Seq<u8>, Seq<u8>)>, k: Seq<u8>, v: Seq<u8>, i: int)
    requires
        0 <= i < m.len(),
        m[i].0 == k,
        forall|j: int| 0 <= j < i ==> m[j].0 != k,
    ensures
        assoc_upsert(m, k, v) == m.update(i, (k, v)),
    decreases m.len(),
{
    if i == 0 {
        assert(seq![(k, v)] + m.skip(1) =~= m.update(0, (k, v)));
    } else {
        assert(m.skip(1)[i - 1] == m[i]);
        assert forall|j: int| 0 <= j < i - 1 implies m.skip(1)[j].0 != k by {
            assert(m.skip(1)[j] == m[j + 1]);
        }
        lemma_upsert_at(m.skip(1), k, v, i - 1);
        assert(seq![m[0]] + m.skip(1).update(i - 1, (k, v)) =~= m.update(i, (k, v)));
    }
}

pub proof fn lemma_upsert_absent(m: Seq<(Seq<u8>, Seq<u8>)>, k: Seq<u8>, v: Seq<u8>)
    requires
        forall|j: int| 0 <= j < m.len() ==> m[j].0 != k,
    ensures
        assoc_upsert(m, k, v) == m.push((k, v)),
    decreases m.len(),
{
    if m.len() == 0 {
        assert(seq![(k, v)] =~= m.push((k, v)));
    } else {
        assert forall|j: int| 0 <= j < m.skip(1).len() implies m.skip(1)[j].0 != k by {
            assert(m.skip(1)[j] == m[j + 1]);
        }
        lemma_upsert_absent(m.skip(1), k, v);
        assert(seq![m[0]] + m.skip(1).push((k, v)) =~= m.push((k, v)));
    }
}

pub proof fn lemma_find_upsert_same(m: Seq<(Seq<u8>, Seq<u8>)>, k: Seq<u8>, v: Seq<u8>)
    ensures
        assoc_find(assoc_upsert(m, k, v), k) == Some(v),
    decreases m.len(),
{
    if m.len() == 0 {
    } else if m[0].0 == k {
    } else {
        lemma_find_upsert_same(m.skip(1), k, v);
        assert((seq![m[0]] + assoc_upsert(m.skip(1), k, v)).skip(1) =~= assoc_upsert(
            m.skip(1),
            k,
            v,
        ));
    }
}

pub proof fn lemma_find_upsert_other(m: Seq<(Seq<u8>, Seq<u8>)>, k: Seq<u8>, v: Seq<u8>, k2: Seq<u8>)
    requires
        k2 != k,
    ensures
        assoc_find(assoc_upsert(m, k, v), k2) == assoc_find(m, k2),
    decreases m.len(),
{
    if m.len() == 0 {
        let u = assoc_upsert(m, k, v);
        assert(u == seq![(k, v)]);
        assert(u[0].0 == k);
        assert(u.skip(1) =~= Seq::<(Seq<u8>, Seq<u8>)>::empty());
        assert(assoc_find(u.skip(1), k2) is None);
        assert(assoc_find(u, k2) is None);
    } else if m[0].0 == k {
        let u = assoc_upsert(m, k, v);
        assert(u == seq![(k, v)] + m.skip(1));
        assert(u[0] == (k, v));
        assert(u.skip(1) =~= m.skip(1));
        assert(assoc_find(u, k2) == assoc_find(m.skip(1), k2));
        assert(assoc_find(m, k2) == assoc_find(m.skip(1), k2));
    } else {
        lemma_find_upsert_other(m.skip(1), k, v, k2);
        let u = assoc_upsert(m, k, v);
        assert(u == seq![m[0]] + assoc_upsert(m.skip(1), k, v));
        assert(u[0] == m[0]);
        assert(u.skip(1) =~= assoc_upsert(m.skip(1), k, v));
        if m[0].0 == k2 {
            assert(assoc_find(u, k2) == Some(u[0].1));
            assert(assoc_find(m, k2) == Some(m[0].1));
        } else {
            assert(assoc_find(u, k2) == assoc_find(u.skip(1), k2));
            assert(assoc_find(m, k2) == assoc_find(m.skip(1), k2));
        }
    }
}

pub proof fn lemma_find_remove_same(m: Seq<(Seq<u8>, Seq<u8>)>, k: Seq<u8>)
    ensures
        assoc_find(assoc_remove(m, k), k) is None,
    decreases m.len(),
{
    if m.len() == 0 {
    } else if m[0].0 == k {
        lemma_find_remove_same(m.skip(1), k);
    } else {
        lemma_find_remove_same(m.skip(1), k);
        assert((seq![m[0]] + assoc_remove(m.skip(1), k)).skip(1) =~= assoc_remove(m.skip(1), k));
    }
}

pub proof fn lemma_find_remove_other(m: Seq<(Seq<u8>, Seq<u8>)>, k: Seq<u8>, k2: Seq<u8>)
    requires
        k2 != k,
    ensures
        assoc_find(assoc_remove(m, k), k2) == assoc_find(m, k2),
    decreases m.len(),
{
    if m.len() == 0 {
    } else if m[0].0 == k {
        lemma_find_remove_other(m.skip(1), k, k2);
    } else {
        lemma_find_remove_other(m.skip(1), k, k2);
        assert((seq![m[0]] + assoc_remove(m.skip(1), k)).skip(1) =~= assoc_remove(m.skip(1), k));
    }
}

pub proof fn lemma_remove_at(m: Seq<(Seq<u8>, Seq<u8>)>, k: Seq<u8>, i: int)
    requires
        assoc_unique(m),
        0 <= i < m.len(),
        m[i].0 == k,
        forall|j: int| 0 <= j < i ==> m[j].0 != k,
    ensures
        assoc_remove(m, k) == m.subrange(0, i) + m.subrange(i + 1, m.len() as int),
    decreases m.len(),
{
    if i == 0 {
        assert forall|j: int| 0 <= j < m.skip(1).len() implies m.skip(1)[j].0 != k by {
            assert(m.skip(1)[j] == m[j + 1]);
        }
        lemma_remove_absent(m.skip(1), k);
        assert(m.skip(1) =~= m.subrange(0, 0) + m.subrange(1, m.len() as int));
    } else {
        assert(m.skip(1)[i - 1] == m[i]);
        assert forall|j: int| 0 <= j < i - 1 implies m.skip(1)[j].0 != k by {
            assert(m.skip(1)[j] == m[j + 1]);
        }
        assert forall|x: int, y: int| 0 <= x < y < m.skip(1).len() implies m.skip(1)[x].0
            != m.skip(1)[y].0 by {
            assert(m.skip(1)[x] == m[x + 1]);
            assert(m.skip(1)[y] == m[y + 1]);
        }
        lemma_remove_at(m.skip(1), k, i - 1);
        assert(seq![m[0]] + (m.skip(1).subrange(0, i - 1) + m.skip(1).subrange(
            i,
            m.skip(1).len() as int,
        )) =~= m.subrange(0, i) + m.subrange(i + 1, m.len() as int));
    }
}

pub proof fn lemma_remove_absent(m: Seq<(Seq<u8>, Seq<u8>)>, k: Seq<u8>)
    requires
        forall|j: int| 0 <= j < m.len() ==> m[j].0 != k,
    ensures
        assoc_remove(m, k) == m,
    decreases m.len(),
{
    if m.len() > 0 {
        assert forall|j: int| 0 <= j < m.skip(1).len() implies m.skip(1)[j].0 != k by {
            assert(m.skip(1)[j] == m[j + 1]);
        }
        lemma_remove_absent(m.skip(1), k);
        assert(seq![m[0]] + m.skip(1) =~= m);
    }
}

pub proof fn lemma_upsert_unique(m: Seq<(Seq<u8>, Seq<u8>)>, k: Seq<u8>, v: Seq<u8>)
    requires
        assoc_unique(m),
    ensures
        assoc_unique(assoc_upsert(m, k, v)),
{
    if exists|i: int| 0 <= i < m.len() && m[i].0 == k {
        let i = choose|i: int|
            0 <= i < m.len() && m[i].0 == k && forall|j: int| 0 <= j < i ==> m[j].0 != k;
        lemma_first_occurrence(m, k);
        lemma_upsert_at(m, k, v, i);
        let m2 = m.update(i, (k, v));
        assert forall|x: int, y: int| 0 <= x < y < m2.len() implies m2[x].0 != m2[y].0 by {
            assert(m[x].0 != m[y].0);
        }
    } else {
        assert(forall|j: int| 0 <= j < m.len() ==> m[j].0 != k);
        lemma_upsert_absent(m, k, v);
        let m2 = m.push((k, v));
        assert forall|x: int, y: int| 0 <= x < y < m2.len() implies m2[x].0 != m2[y].0 by {
            if y < m.len() {
                assert(m[x].0 != m[y].0);
            } else {
                assert(m2[y] == (k, v));
                assert(m[x].0 != k);
            }
        }
    }
}

/// If `k` occurs in `m` at all, there is a first position where it occurs.
pub proof fn lemma_first_occurrence(m: Seq<(Seq<u8>, Seq<u8>)>, k: Seq<u8>)
    requires
        exists|i: int| 0 <= i < m.len() && m[i].0 == k,
    ensures
        exists|i: int|
            0 <= i < m.len() && m[i].0 == k && forall|j: int| 0 <= j < i ==> m[j].0 != k,
    decreases m.len(),
{
    if m[0].0 == k {
        assert(0 <= 0 < m.len() && m[0].0 == k && forall|j: int| 0 <= j < 0 ==> m[j].0 != k);
    } else {
        let w = choose|i: int| 0 <= i < m.len() && m[i].0 == k;
        assert(m.skip(1)[w - 1] == m[w]);
        lemma_first_occurrence(m.skip(1), k);
        let i1 = choose|i: int|
            0 <= i < m.skip(1).len() && m.skip(1)[i].0 == k && forall|j: int|
                0 <= j < i ==> m.skip(1)[j].0 != k;
        assert(m[i1 + 1].0 == k);
        assert forall|j: int| 0 <= j < i1 + 1 implies m[j].0 != k by {
            if j > 0 {
                assert(m.skip(1)[j - 1] == m[j]);
            }
        }
    }
}

pub proof fn lemma_remove_unique(m: Seq<(Seq<u8>, Seq<u8>)>, k: Seq<u8>)
    requires
        assoc_unique(m),
    ensures
        assoc_unique(assoc_remove(m, k)),
    decreases m.len(),
{
    if m.len() == 0 {
    } else {
        assert forall|x: int, y: int| 0 <= x < y < m.skip(1).len() implies m.skip(1)[x].0
            != m.skip(1)[y].0 by {
            assert(m.skip(1)[x] == m[x + 1]);
            assert(m.skip(1)[y] == m[y + 1]);
        }
        lemma_remove_unique(m.skip(1), k);
        if m[0].0 == k {
        } else {
            let r = seq![m[0]] + assoc_remove(m.skip(1), k);
            lemma_remove_subset(m.skip(1), k);
            assert forall|x: int, y: int| 0 <= x < y < r.len() implies r[x].0 != r[y].0 by {
                if x == 0 {
                    let p = r[y];
                    assert(assoc_remove(m.skip(1), k).contains(p));
                    let w = choose|w: int|
                        0 <= w < m.skip(1).len() && m.skip(1)[w] == p;
                    assert(m[w + 1] == p);
                    assert(m[0].0 != m[w + 1].0);
                } else {
                    assert(r[x] == assoc_remove(m.skip(1), k)[x - 1]);
                }
            }
        }
    }
}

/// Every entry of `assoc_remove(m, k)` is an entry of `m`.
pub proof fn lemma_remove_subset(m: Seq<(Seq<u8>, Seq<u8>)>, k: Seq<u8>)
    ensures
        forall|i: int|
            0 <= i < assoc_remove(m, k).len() ==> m.contains(#[trigger] assoc_remove(m, k)[i]),
    decreases m.len(),
{
    if m.len() == 0 {
    } else {
        lemma_remove_subset(m.skip(1), k);
        assert forall|i: int| 0 <= i < assoc_remove(m, k).len() implies m.contains(
            #[trigger] assoc_remove(m, k)[i],
        ) by {
            if m[0].0 == k {
                let p = assoc_remove(m.skip(1), k)[i];
                assert(m.skip(1).contains(p));
                let w = choose|w: int| 0 <= w < m.skip(1).len() && m.skip(1)[w] == p;
                assert(m[w + 1] == p);
            } else {
                if i == 0 {
                    assert(m[0] == assoc_remove(m, k)[0]);
                } else {
                    let p = assoc_remove(m.skip(1), k)[i - 1];
                    assert(assoc_remove(m, k)[i] == p);
                    assert(m.skip(1).contains(p));
                    let w = choose|w: int| 0 <= w < m.skip(1).len() && m.skip(1)[w] == p;
                    assert(m[w + 1] == p);
                }
            }
        }
    }
}

/// An association list from byte strings to byte strings, the executable
/// counterpart of the `assoc_*` spec functions.
pub struct ByteTable {
    entries: Vec<(Vec<u8>, Vec<u8>)>,
}

impl View for ByteTable {
    type V = Seq<(Seq<u8>, Seq<u8>)>;

    closed spec fn view(&self) -> Seq<(Seq<u8>, Seq<u8>)> {
        self.entries@.map_values(|p: (Vec<u8>, Vec<u8>)| (p.0@, p.1@))
    }
}

impl ByteTable {
    /// Well-formed: no key occurs twice.
    pub open spec fn wf(&self) -> bool {
        assoc_unique(self@)
    }

    pub fn new() -> (r: ByteTable)
        ensures
            r@ == Seq::<(Seq<u8>, Seq<u8>)>::empty(),
            r.wf(),
    {
        let r = ByteTable { entries: Vec::new() };
        proof {
            assert(r@ =~= Seq::<(Seq<u8>, Seq<u8>)>::empty());
        }
        r
    }

    pub fn len(&self) -> (n: usize)
        ensures
            n == self@.len(),
    {
        self.entries.len()
    }

    pub fn key_at(&self, i: usize) -> (k: &Vec<u8>)
        requires
            i < self@.len(),
        ensures
            k@ == self@[i as int].0,
    {
        &self.entries[i].0
    }

    pub fn value_at(&self, i: usize) -> (v: &Vec<u8>)
        requires
            i < self@.len(),
        ensures
            v@ == self@[i as int].1,
    {
        &self.entries[i].1
    }

    /// The value bound to `key`, copied out, or `None`.
    pub fn get(&self, key: &Vec<u8>) -> (r: Option<Vec<u8>>)
        ensures
            match r {
                Some(v) => assoc_find(self@, key@) == Some(v@),
                None => assoc_find(self@, key@) is None,
            },
    {
        let mut i: usize = 0;
        while i < self.entries.len()
            invariant
                i <= self@.len(),
                self@.len() == self.entries.len(),
                forall|j: int| 0 <= j < i ==> self@[j].0 != key@,
            decreases self.entries.len() - i,
        {
            if crate::bytes::vec_u8_eq(&self.entries[i].0, key) {
                proof {
                    lemma_find_at(self@, key@, i as int);
                }
                return Some(crate::bytes::clone_bytes(&self.entries[i].1));
            }
            i = i + 1;
        }
        proof {
            lemma_find_absent(self@, key@);
        }
        None
    }

    /// Binds `key` to `value`; an existing binding is overwritten in place.
    pub fn set(&mut self, key: Vec<u8>, value: Vec<u8>)
        requires
            old(self).wf(),
        ensures
            final(self)@ == assoc_upsert(old(self)@, key@, value@),
            final(self).wf(),
    {
        let mut i: usize = 0;
        while i < self.entries.len()
            invariant
                i <= self@.len(),
                self@.len() == self.entries.len(),
                forall|j: int| 0 <= j < i ==> self@[j].0 != key@,
                self@ == old(self)@,
                self.entries == old(self).entries,
                old(self).wf(),
            decreases self.entries.len() - i,
        {
            if crate::bytes::vec_u8_eq(&self.entries[i].0, &key) {
                proof {
                    lemma_upsert_at(self@, key@, value@, i as int);
                }
                self.entries[i] = (key, value);
                proof {
                    assert(self@ =~= assoc_upsert(old(self)@, key@, value@));
                    lemma_upsert_unique(old(self)@, key@, value@);
                    assert(assoc_unique(self@));
                }
                return ;
            }
            i = i + 1;
        }
        proof {
            lemma_upsert_absent(self@, key@, value@);
        }
        self.entries.push((key, value));
        proof {
            assert(self@ =~= assoc_upsert(old(self)@, key@, value@));
            lemma_upsert_unique(old(self)@, key@, value@);
            assert(assoc_unique(self@));
        }
    }

    /// Drops the binding for `key`, if there is one.
    pub fn remove(&mut self, key: &Vec<u8>)
        requires
            old(self).wf(),
        ensures
            final(self)@ == assoc_remove(old(self)@, key@),
            final(self).wf(),
    {
        proof {
            lemma_remove_unique(self@, key@);
        }
        let mut i: usize = 0;
        while i < self.entries.len()
            invariant
                i <= self@.len(),
                self@.len() == self.entries.len(),
                forall|j: int| 0 <= j < i ==> self@[j].0 != key@,
                self@ == old(self)@,
                self.entries == old(self).entries,
                old(self).wf(),
            decreases self.entries.len() - i,
        {
            if crate::bytes::vec_u8_eq(&self.entries[i].0, key) {
                proof {
                    lemma_remove_at(self@, key@, i as int);
                }
                self.entries.remove(i);
                proof {
                    assert(self@ =~= assoc_remove(old(self)@, key@));
                    lemma_remove_unique(old(self)@, key@);
                    assert(assoc_unique(self@));
                }
                return ;
            }
            i = i + 1;
        }
        proof {
            lemma_remove_absent(self@, key@);
        }
    }
}

} // verus!
