//! The review record store: the learning state of every item answered so far,
//! keyed by the item's kanji, one record per key.

use vstd::prelude::*;

verus! {

/// Per-item learning state. Times are whole seconds since the Unix epoch;
/// the review interval is a number of seconds.
#[derive(Clone, Copy, Debug, PartialEq, Eq, Structural)]
pub struct StatValue {
    pub learning_index: i32,
    pub last_review_time: u64,
    pub review_interval: u64,
}

/// No key occurs twice.
pub open spec fn keys_unique(e: Seq<(char, StatValue)>) -> bool {
    forall|i: int, j: int| 0 <= i < e.len() && 0 <= j < e.len() && i != j ==> e[i].0 != e[j].0
}

/// The position of key `k` in `e`, if it is there.
pub open spec fn key_index(e: Seq<(char, StatValue)>, k: char) -> Option<int> {
    if exists|i: int| 0 <= i < e.len() && e[i].0 == k {
        Some(choose|i: int| 0 <= i < e.len() && e[i].0 == k)
    } else {
        None
    }
}

/// Whether `e` holds a record for `k`.
pub open spec fn has_key(e: Seq<(char, StatValue)>, k: char) -> bool {
    exists|i: int| 0 <= i < e.len() && e[i].0 == k
}

/// The records as a map from kanji to learning state.
pub open spec fn map_of(e: Seq<(char, StatValue)>) -> Map<char, StatValue> {
    Map::new(|k: char| has_key(e, k), |k: char| e[key_index(e, k)->Some_0].1)
}

/// The records of answered items, in the order in which they were first added.
pub struct ReviewStore {
    entries: Vec<(char, StatValue)>,
}

impl View for ReviewStore {
    type V = Map<char, StatValue>;

    open spec fn view(&self) -> Map<char, StatValue> {
        map_of(self.entries())
    }
}

impl ReviewStore {
    #[verifier::type_invariant]
    spec fn inv(self) -> bool {
        keys_unique(self.entries@)
    }

    /// The records in order.
    pub closed spec fn entries(self) -> Seq<(char, StatValue)> {
        self.entries@
    }

    /// An empty store.
    pub fn new() -> (r: Self)
        ensures
            r.entries() == Seq::<(char, StatValue)>::empty(),
    {
        ReviewStore { entries: Vec::new() }
    }

    /// The number of records.
    pub fn len(&self) -> (n: usize)
        ensures
            n == self.entries().len(),
            keys_unique(self.entries()),
    {
        proof {
            use_type_invariant(self);
        }
        self.entries.len()
    }

    /// Whether no record exists.
    pub fn is_empty(&self) -> (r: bool)
        ensures
            r == (self.entries().len() == 0),
    {
        self.entries.len() == 0
    }

    /// The key of the `i`-th record.
    pub fn key_at(&self, i: usize) -> (k: char)
        requires
            i < self.entries().len(),
        ensures
            k == self.entries()[i as int].0,
    {
        self.entries[i].0
    }

    /// The learning state of the `i`-th record.
    pub fn value_at(&self, i: usize) -> (v: StatValue)
        requires
            i < self.entries().len(),
        ensures
            v == self.entries()[i as int].1,
    {
        self.entries[i].1
    }

    /// The position of the record for `k`, if there is one.
    pub fn find(&self, k: char) -> (r: Option<usize>)
        ensures
            r matches Some(i) ==> i < self.entries().len() && self.entries()[i as int].0 == k,
            r is None ==> !has_key(self.entries(), k),
    {
        let mut i: usize = 0;
        while i < self.entries.len()
            invariant
                i <= self.entries@.len(),
                forall|j: int| 0 <= j < i ==> self.entries@[j].0 != k,
            decreases self.entries@.len() - i,
        {
            if self.entries[i].0 == k {
                return Some(i);
            }
            i = i + 1;
        }
        None
    }

    /// Whether a record for `k` exists.
    pub fn contains_key(&self, k: char) -> (r: bool)
        ensures
            r == has_key(self.entries(), k),
            r == self@.contains_key(k),
    {
        self.find(k).is_some()
    }

    /// The learning state recorded for `k`, if any.
    pub fn get(&self, k: char) -> (r: Option<StatValue>)
        ensures
            r == (if self@.contains_key(k) { Some(self@[k]) } else { None }),
    {
        proof {
            use_type_invariant(self);
        }
        match self.find(k) {
            Some(i) => {
                proof {
                    let e = self.entries@;
                    assert(key_index(e, k) == Some(i as int));
                }
                Some(self.entries[i].1)
            },
            None => None,
        }
    }

    /// Replaces the learning state of the `i`-th record, keeping its key.
    pub fn set_value_at(&mut self, i: usize, v: StatValue)
        requires
            i < old(self).entries().len(),
        ensures
            final(self).entries() == old(self).entries().update(i as int, (old(self).entries()[i as int].0, v)),
    {
        proof {
            use_type_invariant(&*self);
        }
        let k = self.entries[i].0;
        let mut e: Vec<(char, StatValue)> = Vec::new();
        std::mem::swap(&mut self.entries, &mut e);
        e.set(i, (k, v));
        self.entries = e;
    }

    /// Records `v` for `k`, in place of the record for `k` if there is one,
    /// else as a new last record.
    pub fn insert(&mut self, k: char, v: StatValue)
        ensures
            final(self)@ == old(self)@.insert(k, v),
            has_key(old(self).entries(), k) ==> final(self).entries().len() == old(self).entries().len(),
            !has_key(old(self).entries(), k) ==> final(self).entries() == old(self).entries().push((k, v)),
    {
        proof {
            use_type_invariant(&*self);
        }
        let ghost e0 = self.entries@;
        let found = self.find(k);
        let mut e: Vec<(char, StatValue)> = Vec::new();
        std::mem::swap(&mut self.entries, &mut e);
        match found {
            Some(i) => {
                e.set(i, (k, v));
                proof {
                    let e1 = e@;
                    assert(e1[i as int].0 == k);
                    assert(keys_unique(e1));
                    assert(key_index(e1, k) == Some(i as int));
                    assert forall|c: char| has_key(e1, c) <==> has_key(e0, c) || c == k by {
                        if has_key(e0, c) {
                            let j = choose|j: int| 0 <= j < e0.len() && e0[j].0 == c;
                            assert(e1[j].0 == c);
                        }
                        if has_key(e1, c) {
                            let j = choose|j: int| 0 <= j < e1.len() && e1[j].0 == c;
                            assert(e0[j].0 == c);
                        }
                    }
                    assert forall|c: char| has_key(e1, c) && c != k implies key_index(e1, c) == key_index(e0, c) by {
                        let j = choose|j: int| 0 <= j < e0.len() && e0[j].0 == c;
                        assert(e1[j].0 == c);
                    }
                    assert(map_of(e1) =~= map_of(e0).insert(k, v));
                }
            },
            None => {
                e.push((k, v));
                proof {
                    let e1 = e@;
                    assert(e1[e0.len() as int].0 == k);
                    assert(keys_unique(e1));
                    assert(key_index(e1, k) == Some(e0.len() as int));
                    assert forall|c: char| has_key(e1, c) <==> has_key(e0, c) || c == k by {
                        if has_key(e0, c) {
                            let j = choose|j: int| 0 <= j < e0.len() && e0[j].0 == c;
                            assert(e1[j].0 == c);
                        }
                        if has_key(e1, c) && c != k {
                            let j = choose|j: int| 0 <= j < e1.len() && e1[j].0 == c;
                            assert(e0[j].0 == c);
                        }
                    }
                    assert forall|c: char| has_key(e1, c) && c != k implies key_index(e1, c) == key_index(e0, c) by {
                        let j = choose|j: int| 0 <= j < e0.len() && e0[j].0 == c;
                        assert(e1[j].0 == c);
                    }
                    assert(map_of(e1) =~= map_of(e0).insert(k, v));
                }
            },
        }
        self.entries = e;
    }
}

} // verus!

verus! {

/// In records with unique keys, the map holds each record under its key.
pub proof fn lemma_map_of_entry(e: Seq<(char, StatValue)>, i: int)
    requires
        keys_unique(e),
        0 <= i < e.len(),
    ensures
        has_key(e, e[i].0),
        map_of(e).contains_key(e[i].0),
        map_of(e)[e[i].0] == e[i].1,
{
    assert(e[i].0 == e[i].0);
    let k = e[i].0;
    assert(has_key(e, k));
    let j = choose|j: int| 0 <= j < e.len() && e[j].0 == k;
    assert(j == i);
}

/// Records with the same keys at the same positions know the same keys.
pub proof fn lemma_same_keys(e0: Seq<(char, StatValue)>, e1: Seq<(char, StatValue)>)
    requires
        e1.len() == e0.len(),
        forall|i: int| 0 <= i < e0.len() ==> e1[i].0 == e0[i].0,
    ensures
        forall|k: char| has_key(e1, k) == has_key(e0, k),
{
    assert forall|k: char| has_key(e1, k) == has_key(e0, k) by {
        if has_key(e0, k) {
            let j = choose|j: int| 0 <= j < e0.len() && e0[j].0 == k;
            assert(e1[j].0 == k);
        }
        if has_key(e1, k) {
            let j = choose|j: int| 0 <= j < e1.len() && e1[j].0 == k;
            assert(e0[j].0 == k);
        }
    }
}

} // verus!
