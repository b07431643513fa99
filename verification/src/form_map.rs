//! The result mapping: string keys to string values, keys unique,
//! last write wins.
//!
//! The entries live in a vector of character-vector pairs, in insertion
//! order.  The mathematical view is the [`Map`] obtained by inserting the
//! entries front to back ([`map_of`]), so a later entry for the same key
//! overrides an earlier one; with the unique-keys invariant the order does
//! not matter.

use vstd::prelude::*;

verus! {

/// The views of a sequence of entry pairs.
pub open spec fn pair_views(es: Seq<(Vec<char>, Vec<char>)>) -> Seq<(Seq<char>, Seq<char>)> {
    es.map_values(|e: (Vec<char>, Vec<char>)| (e.0@, e.1@))
}

/// The mapping denoted by a sequence of pairs: insert each pair in order,
/// so the last occurrence of a key wins.
pub open spec fn map_of(ps: Seq<(Seq<char>, Seq<char>)>) -> Map<Seq<char>, Seq<char>>
    decreases ps.len(),
{
    if ps.len() == 0 {
        Map::empty()
    } else {
        map_of(ps.drop_last()).insert(ps.last().0, ps.last().1)
    }
}

/// No two pairs share a key.
pub open spec fn unique_keys(ps: Seq<(Seq<char>, Seq<char>)>) -> bool {
    forall|i: int, j: int| 0 <= i < j < ps.len() ==> ps[i].0 != ps[j].0
}

/// A key absent from every pair is absent from the mapping.
pub proof fn lemma_map_of_absent(ps: Seq<(Seq<char>, Seq<char>)>, k: Seq<char>)
    requires
        forall|i: int| 0 <= i < ps.len() ==> ps[i].0 != k,
    ensures
        !map_of(ps).dom().contains(k),
    decreases ps.len(),
{
    if ps.len() > 0 {
        lemma_map_of_absent(ps.drop_last(), k);
    }
}

/// The mapping of a sequence of pairs is a finite map.
pub proof fn lemma_map_of_finite(ps: Seq<(Seq<char>, Seq<char>)>)
    ensures
        map_of(ps).dom().finite(),
    decreases ps.len(),
{
    if ps.len() > 0 {
        lemma_map_of_finite(ps.drop_last());
    }
}

/// With unique keys, each pair is found in the mapping with its own value.
pub proof fn lemma_map_of_get(ps: Seq<(Seq<char>, Seq<char>)>, i: int)
    requires
        unique_keys(ps),
        0 <= i < ps.len(),
    ensures
        map_of(ps).dom().contains(ps[i].0),
        map_of(ps)[ps[i].0] == ps[i].1,
    decreases ps.len(),
{
    if i < ps.len() - 1 {
        lemma_map_of_get(ps.drop_last(), i);
    }
}

/// With unique keys, the mapping has exactly as many entries as the sequence.
pub proof fn lemma_map_of_len(ps: Seq<(Seq<char>, Seq<char>)>)
    requires
        unique_keys(ps),
    ensures
        map_of(ps).dom().finite(),
        map_of(ps).dom().len() == ps.len(),
    decreases ps.len(),
{
    lemma_map_of_finite(ps);
    if ps.len() > 0 {
        lemma_map_of_len(ps.drop_last());
        assert(forall|i: int| 0 <= i < ps.drop_last().len() ==> ps.drop_last()[i].0 != ps.last().0);
        lemma_map_of_absent(ps.drop_last(), ps.last().0);
    }
}

/// With unique keys, removing the one pair that holds a key removes exactly
/// that key from the mapping.
pub proof fn lemma_map_of_remove(ps: Seq<(Seq<char>, Seq<char>)>, idx: int)
    requires
        unique_keys(ps),
        0 <= idx < ps.len(),
    ensures
        map_of(ps.remove(idx)) =~= map_of(ps).remove(ps[idx].0),
    decreases ps.len(),
{
    if idx == ps.len() - 1 {
        assert(ps.remove(idx) =~= ps.drop_last());
        assert(forall|i: int| 0 <= i < ps.drop_last().len() ==> ps.drop_last()[i].0 != ps.last().0);
        lemma_map_of_absent(ps.drop_last(), ps.last().0);
    } else {
        let q = ps.drop_last();
        assert(ps.remove(idx).drop_last() =~= q.remove(idx));
        assert(ps.remove(idx).last() == ps.last());
        lemma_map_of_remove(q, idx);
    }
}

/// The mapping from string keys to string values that the parser produces.
///
/// `entries` is public so that unverified callers can walk the entries
/// directly; all verified operations require and preserve [`FormMap::wf`].
#[derive(Debug)]
pub struct FormMap {
    pub entries: Vec<(Vec<char>, Vec<char>)>,
}

impl View for FormMap {
    type V = Map<Seq<char>, Seq<char>>;

    open spec fn view(&self) -> Map<Seq<char>, Seq<char>> {
        map_of(pair_views(self.entries@))
    }
}

impl FormMap {
    /// Well-formedness: no two entries share a key.
    pub open spec fn wf(&self) -> bool {
        unique_keys(pair_views(self.entries@))
    }

    /// The empty mapping.
    pub fn new() -> (r: FormMap)
        ensures
            r.wf(),
            r@ == Map::<Seq<char>, Seq<char>>::empty(),
            r.entries@.len() == 0,
    {
        FormMap { entries: Vec::new() }
    }

    /// The index of the entry holding `k`, if any.
    fn find_key(&self, k: &Vec<char>) -> (r: Option<usize>)
        ensures
            match r {
                Some(i) => i < self.entries@.len() && self.entries@[i as int].0@ == k@,
                None => forall|i: int|
                    0 <= i < self.entries@.len() ==> self.entries@[i].0@ != k@,
            },
    {
        let n = self.entries.len();
        for i in 0..n
            invariant
                n == self.entries@.len(),
                forall|j: int| 0 <= j < i ==> self.entries@[j].0@ != k@,
        {
            if chars_eq(&self.entries[i].0, k) {
                return Some(i);
            }
        }
        None
    }

    /// Insert a pair; an existing entry with the same key is replaced
    /// (last write wins).
    pub fn insert(&mut self, k: Vec<char>, v: Vec<char>)
        requires
            old(self).wf(),
        ensures
            final(self).wf(),
            final(self)@ == old(self)@.insert(k@, v@),
    {
        let ghost ps = pair_views(self.entries@);
        match self.find_key(&k) {
            Some(i) => {
                self.entries.remove(i);
                proof {
                    assert(pair_views(self.entries@) =~= ps.remove(i as int));
                    lemma_map_of_remove(ps, i as int);
                }
                let ghost qs = pair_views(self.entries@);
                self.entries.push((k, v));
                proof {
                    assert(pair_views(self.entries@) =~= qs.push((k@, v@)));
                    assert(pair_views(self.entries@).drop_last() =~= qs);
                    assert(map_of(ps).remove(ps[i as int].0).insert(k@, v@) =~= map_of(ps).insert(
                        k@,
                        v@,
                    ));
                }
            },
            None => {
                self.entries.push((k, v));
                proof {
                    assert(pair_views(self.entries@) =~= ps.push((k@, v@)));
                    assert(pair_views(self.entries@).drop_last() =~= ps);
                }
            },
        }
    }

    /// Look a key up.
    pub fn get(&self, k: &Vec<char>) -> (r: Option<&Vec<char>>)
        requires
            self.wf(),
        ensures
            match r {
                Some(v) => self@.dom().contains(k@) && self@[k@] == v@,
                None => !self@.dom().contains(k@),
            },
    {
        match self.find_key(k) {
            Some(i) => {
                proof {
                    lemma_map_of_get(pair_views(self.entries@), i as int);
                }
                Some(&self.entries[i].1)
            },
            None => {
                proof {
                    lemma_map_of_absent(pair_views(self.entries@), k@);
                }
                None
            },
        }
    }

    /// Whether a key is present.
    pub fn contains_key(&self, k: &Vec<char>) -> (r: bool)
        requires
            self.wf(),
        ensures
            r == self@.dom().contains(k@),
    {
        match self.get(k) {
            Some(_) => true,
            None => false,
        }
    }

    /// The number of entries, which equals the size of the mapping.
    pub fn len(&self) -> (n: usize)
        requires
            self.wf(),
        ensures
            n == self@.dom().len(),
            n == self.entries@.len(),
    {
        proof {
            lemma_map_of_len(pair_views(self.entries@));
        }
        self.entries.len()
    }
}

/// Character-vector equality, decided element by element.
pub fn chars_eq(a: &Vec<char>, b: &Vec<char>) -> (r: bool)
    ensures
        r == (a@ == b@),
{
    if a.len() != b.len() {
        assert(a@ != b@);
        return false;
    }
    let n = a.len();
    for i in 0..n
        invariant
            n == a@.len(),
            n == b@.len(),
            forall|j: int| 0 <= j < i ==> a@[j] == b@[j],
    {
        if a[i] != b[i] {
            assert(a@ != b@);
            return false;
        }
    }
    proof {
        assert(a@ =~= b@);
    }
    true
}

} // verus!
