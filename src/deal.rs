//! Candidate sets: one question's four answers, the tested kanji's entry in
//! a random slot and three wrong answers of other identities.

use vstd::prelude::*;
use crate::clock::now_secs;
use crate::config::Config;
use crate::dealer::{catalog_has, lemma_distinct_cover, KanjiDealer};
use crate::kanji::{reviewed_at, KanjiRecord};
use crate::random::{gen_below, sample_indices};
use crate::store::StatValue;

verus! {

/// Why no candidate set could be dealt.
#[derive(Clone, Copy, Debug, PartialEq, Eq, Structural)]
pub enum DealError {
    /// The pool holds no kanji to test.
    EmptyPool,
    /// The kanji picked for the test has no catalog entry.
    UnknownKanji,
    /// The catalog has too few distinct items to offer three wrong answers
    /// besides the one to keep out.
    CatalogInsufficient,
}

/// Entry `i` is the first catalog entry that shows `k`.
pub open spec fn first_with(kanjis: Seq<KanjiRecord>, k: char, i: int) -> bool {
    0 <= i < kanjis.len() && kanjis[i].kanji == k && forall|j: int| 0 <= j < i ==> kanjis[j].kanji != k
}

/// Entry `j` may stand as a wrong answer beside entry `correct`: it differs
/// from it in identity and in kanji.
pub open spec fn is_distractor(kanjis: Seq<KanjiRecord>, correct: int, j: int) -> bool {
    kanjis[j].id != kanjis[correct].id && kanjis[j].kanji != kanjis[correct].kanji
}

/// Some entry listed in `q` has identity `id`.
pub open spec fn holds_id(kanjis: Seq<KanjiRecord>, q: Seq<usize>, id: u32) -> bool {
    exists|a: int| 0 <= a < q.len() && kanjis[q[a] as int].id == id
}

/// Every listed entry is in the catalog, and their identities rise strictly.
pub open spec fn sorted_ids(kanjis: Seq<KanjiRecord>, q: Seq<usize>) -> bool {
    &&& forall|a: int| 0 <= a < q.len() ==> q[a] < kanjis.len()
    &&& forall|a: int, b: int| 0 <= a < b < q.len() ==> kanjis[q[a] as int].id < kanjis[q[b] as int].id
}

/// The wrong answers possible beside entry `correct` have fewer than three
/// identities among them.
pub open spec fn few_distractors(kanjis: Seq<KanjiRecord>, correct: int) -> bool {
    exists|q: Seq<usize>|
        q.len() < 3 && (forall|a: int| 0 <= a < q.len() ==> q[a] < kanjis.len()) && (forall|j: int|
            0 <= j < kanjis.len() && is_distractor(kanjis, correct, j) ==> holds_id(kanjis, q, kanjis[j].id))
}

/// Entry `j` is the first catalog entry of a pool kanji and may stand as a
/// wrong answer beside entry `correct`.
pub open spec fn pool_distractor(kanjis: Seq<KanjiRecord>, pool: Seq<char>, correct: int, j: int) -> bool {
    0 <= j < kanjis.len() && is_distractor(kanjis, correct, j) && pool.contains(kanjis[j].kanji) && first_with(
        kanjis,
        kanjis[j].kanji,
        j,
    )
}

/// The pool offers three wrong answers of distinct identities beside entry
/// `correct`.
pub open spec fn pool_offers_three(kanjis: Seq<KanjiRecord>, pool: Seq<char>, correct: int) -> bool {
    exists|q: Seq<int>|
        q.len() == 3 && (forall|a: int| 0 <= a < 3 ==> pool_distractor(kanjis, pool, correct, #[trigger] q[a])) && (forall|
            a: int,
            b: int,
        | 0 <= a < b < 3 ==> kanjis[q[a]].id != kanjis[q[b]].id)
}

/// An identity listed in `q0` stays listed in a `q1` that holds all of `q0`.
proof fn lemma_holds_grow(kanjis: Seq<KanjiRecord>, q0: Seq<usize>, q1: Seq<usize>, id: u32)
    requires
        forall|x: usize| #[trigger] q0.contains(x) ==> q1.contains(x),
        holds_id(kanjis, q0, id),
    ensures
        holds_id(kanjis, q1, id),
{
    let a = choose|a: int| 0 <= a < q0.len() && kanjis[q0[a] as int].id == id;
    assert(q0.contains(q0[a]));
    assert(q1.contains(q0[a]));
    let b = choose|b: int| 0 <= b < q1.len() && q1[b] == q0[a];
    assert(kanjis[q1[b] as int].id == id);
}

/// A candidate set for testing kanji `tested`: four catalog entries with four
/// distinct identities; the one at `correct_index` is the first entry that
/// shows `tested`, and no other shows it.
pub open spec fn valid_deal(kanjis: Seq<KanjiRecord>, correct_index: int, cands: Seq<usize>, tested: char) -> bool {
    &&& cands.len() == 4
    &&& 0 <= correct_index < 4
    &&& forall|a: int| 0 <= a < 4 ==> cands[a] < kanjis.len()
    &&& first_with(kanjis, tested, cands[correct_index] as int)
    &&& forall|a: int, b: int| 0 <= a < 4 && 0 <= b < 4 && a != b ==> kanjis[cands[a] as int].id != kanjis[cands[b] as int].id
    &&& forall|a: int| 0 <= a < 4 && a != correct_index ==> kanjis[cands[a] as int].kanji != tested
}

/// Whether an entry listed in `q` has identity `id`.
fn has_id(kanjis: &Vec<KanjiRecord>, q: &Vec<usize>, id: u32) -> (r: bool)
    requires
        forall|a: int| 0 <= a < q@.len() ==> q@[a] < kanjis@.len(),
    ensures
        r == holds_id(kanjis@, q@, id),
{
    let mut a: usize = 0;
    while a < q.len()
        invariant
            a <= q@.len(),
            forall|b: int| 0 <= b < q@.len() ==> q@[b] < kanjis@.len(),
            forall|b: int| 0 <= b < a ==> kanjis@[q@[b] as int].id != id,
        decreases q@.len() - a,
    {
        if kanjis[q[a]].id == id {
            return true;
        }
        a = a + 1;
    }
    false
}

/// Inserts entry `j` into `q` at the place that keeps identities rising.
fn insert_sorted(kanjis: &Vec<KanjiRecord>, q: &mut Vec<usize>, j: usize)
    requires
        j < kanjis@.len(),
        sorted_ids(kanjis@, old(q)@),
        !holds_id(kanjis@, old(q)@, kanjis@[j as int].id),
    ensures
        sorted_ids(kanjis@, final(q)@),
        final(q)@.len() == old(q)@.len() + 1,
        forall|x: usize| final(q)@.contains(x) <==> old(q)@.contains(x) || x == j,
{
    let id = kanjis[j].id;
    let mut p: usize = 0;
    while p < q.len() && kanjis[q[p]].id < id
        invariant
            p <= q@.len(),
            sorted_ids(kanjis@, q@),
            forall|a: int| 0 <= a < p ==> kanjis@[q@[a] as int].id < id,
        decreases q@.len() - p,
    {
        p = p + 1;
    }
    proof {
        if p < q@.len() {
            assert(kanjis@[q@[p as int] as int].id != id);
        }
    }
    let ghost q0 = q@;
    q.insert(p, j);
    proof {
        let q1 = q@;
        assert(q1 == q0.insert(p as int, j));
        assert forall|a: int| 0 <= a < q1.len() implies q1[a] == if a < p {
            q0[a]
        } else if a == p {
            j
        } else {
            q0[a - 1]
        } by {}
        assert forall|x: usize| q1.contains(x) <==> q0.contains(x) || x == j by {
            if q1.contains(x) {
                let a = choose|a: int| 0 <= a < q1.len() && q1[a] == x;
                if a < p {
                    assert(q0[a] == x);
                } else if a > p {
                    assert(q0[a - 1] == x);
                }
            }
            if q0.contains(x) {
                let a = choose|a: int| 0 <= a < q0.len() && q0[a] == x;
                if a < p {
                    assert(q1[a] == x);
                } else {
                    assert(q1[a + 1] == x);
                }
            }
            if x == j {
                assert(q1[p as int] == x);
            }
        }
        assert forall|a: int, b: int| 0 <= a < b < q1.len() implies kanjis@[q1[a] as int].id < kanjis@[q1[b] as int].id by {
            if a > p {
                assert(kanjis@[q0[a - 1] as int].id < kanjis@[q0[b - 1] as int].id);
            } else if a == p {
                if b - 1 > p {
                    assert(kanjis@[q0[p as int] as int].id < kanjis@[q0[b - 1] as int].id);
                }
            } else if b > p {
                if b - 1 > a {
                    assert(kanjis@[q0[a] as int].id < kanjis@[q0[b - 1] as int].id);
                }
            }
        }
    }
}

} // verus!

verus! {

impl KanjiDealer {
    /// Picks the kanji to test from the pool, never the one dealt last while
    /// the pool offers another.
    fn deal_kanji(&mut self) -> (r: Option<char>)
        ensures
            final(self).kanjis@ == old(self).kanjis@,
            final(self).kanji_pool@ == old(self).kanji_pool@,
            final(self).last_dealt_kanji == old(self).last_dealt_kanji,
            r is None <==> old(self).kanji_pool@.len() == 0,
            r matches Some(c) ==> old(self).kanji_pool@.contains(c),
            r matches Some(c) ==> (exists|k: int| 0 <= k < old(self).kanji_pool@.len() && old(self).kanji_pool@[k] != old(self).last_dealt_kanji)
                ==> c != old(self).last_dealt_kanji,
    {
        if self.kanji_pool.len() == 0 {
            return None;
        }
        let last = self.last_dealt_kanji;
        let mut others: Vec<usize> = Vec::new();
        let mut i: usize = 0;
        while i < self.kanji_pool.len()
            invariant
                i <= self.kanji_pool@.len(),
                self.kanjis@ == old(self).kanjis@,
                self.kanji_pool@ == old(self).kanji_pool@,
                self.last_dealt_kanji == old(self).last_dealt_kanji,
                last == self.last_dealt_kanji,
                forall|a: int| 0 <= a < others@.len() ==> #[trigger] others@[a] < self.kanji_pool@.len()
                    && self.kanji_pool@[others@[a] as int] != last,
                others@.len() == 0 ==> forall|k: int| 0 <= k < i ==> self.kanji_pool@[k] == last,
            decreases self.kanji_pool@.len() - i,
        {
            if self.kanji_pool[i] != last {
                others.push(i);
            }
            i = i + 1;
        }
        if others.len() == 0 {
            Some(self.kanji_pool[0])
        } else {
            let pick = gen_below(&mut self.rng, others.len());
            assert(others@[pick as int] < self.kanji_pool@.len());
            Some(self.kanji_pool[others[pick]])
        }
    }

    /// Deals one question at `now`: picks the kanji to test from the pool,
    /// and returns the slot of the correct answer together with four catalog
    /// positions, the tested kanji's entry at that slot and three wrong
    /// answers in order of identity, each of another identity, taken from the
    /// pool first and from the whole catalog for the rest. On success
    /// the tested kanji, if it has a record, is marked as reviewed at `now`.
    pub fn deal_kanji_candidates_at(&mut self, config: &mut Config, now: u64) -> (r: Result<(u8, Vec<usize>), DealError>)
        ensures
            final(self).kanjis@ == old(self).kanjis@,
            final(self).kanji_pool@ == old(self).kanji_pool@,
            final(config).learning_index_threshold == old(config).learning_index_threshold,
            final(config).kanji_pool_max_size == old(config).kanji_pool_max_size,
            final(config).review_interval_step == old(config).review_interval_step,
            final(config).profile == old(config).profile,
            final(config).was_used_last == old(config).was_used_last,
            final(config).button_text_option == old(config).button_text_option,
            r == Err::<(u8, Vec<usize>), DealError>(DealError::EmptyPool) <==> old(self).kanji_pool@.len() == 0,
            r == Err::<(u8, Vec<usize>), DealError>(DealError::UnknownKanji) ==> exists|k: int|
                0 <= k < old(self).kanji_pool@.len() && !catalog_has(old(self).kanjis@, old(self).kanji_pool@[k]),
            r == Err::<(u8, Vec<usize>), DealError>(DealError::CatalogInsufficient) ==> exists|c: int|
                first_with(old(self).kanjis@, old(self).kanjis@[c].kanji, c) && old(self).kanji_pool@.contains(old(self).kanjis@[c].kanji)
                    && few_distractors(old(self).kanjis@, c),
            r is Err ==> final(self).last_dealt_kanji == old(self).last_dealt_kanji
                && final(config).answer_statistics@ == old(config).answer_statistics@,
            r matches Ok((ci, cands)) ==> {
                &&& valid_deal(old(self).kanjis@, ci as int, cands@, final(self).last_dealt_kanji)
                &&& old(self).kanji_pool@.contains(final(self).last_dealt_kanji)
                &&& (exists|k: int| 0 <= k < old(self).kanji_pool@.len() && old(self).kanji_pool@[k] != old(self).last_dealt_kanji)
                    ==> final(self).last_dealt_kanji != old(self).last_dealt_kanji
                &&& final(config).answer_statistics@ == reviewed_at(old(config).answer_statistics@, final(self).last_dealt_kanji, now)
                &&& pool_offers_three(old(self).kanjis@, old(self).kanji_pool@, cands@[ci as int] as int) ==> forall|a: int|
                    0 <= a < 4 && a != ci ==> old(self).kanji_pool@.contains(old(self).kanjis@[#[trigger] cands@[a] as int].kanji)
            },
    {
        let correct_index = gen_below(&mut self.rng, 4);
        let tested = match self.deal_kanji() {
            None => return Err(DealError::EmptyPool),
            Some(c) => c,
        };
        let ci = match self.find_record_by_char(tested) {
            None => {
                proof {
                    let k = choose|k: int| 0 <= k < self.kanji_pool@.len() && self.kanji_pool@[k] == tested;
                }
                return Err(DealError::UnknownKanji);
            },
            Some(i) => i,
        };
        let ghost kan = self.kanjis@;
        let cid = self.kanjis[ci].id;
        let mut picked: Vec<usize> = Vec::new();
        // wrong answers from the pool first: every pool kanji, in random order
        let ghost pool = self.kanji_pool@;
        let np = self.kanji_pool.len();
        let order = sample_indices(&mut self.rng, np, np);
        let mut t: usize = 0;
        while t < np
            invariant
                t <= np,
                np == pool.len(),
                pool == old(self).kanji_pool@,
                order@.len() == np,
                order@.no_duplicates(),
                forall|a: int| 0 <= a < order@.len() ==> #[trigger] order@[a] < np,
                self.kanjis@ == kan,
                self.kanji_pool@ == pool,
                self.last_dealt_kanji == old(self).last_dealt_kanji,
                ci < kan.len(),
                first_with(kan, tested, ci as int),
                cid == kan[ci as int].id,
                tested == kan[ci as int].kanji,
                sorted_ids(kan, picked@),
                picked@.len() <= 3,
                forall|a: int| 0 <= a < picked@.len() ==> is_distractor(kan, ci as int, #[trigger] picked@[a] as int),
                forall|a: int| 0 <= a < picked@.len() ==> pool.contains(kan[#[trigger] picked@[a] as int].kanji),
                picked@.len() < 3 ==> forall|t2: int, x: int|
                    #![trigger order@[t2], pool_distractor(kan, pool, ci as int, x)]
                    0 <= t2 < t && pool_distractor(kan, pool, ci as int, x) && kan[x].kanji == pool[order@[t2] as int]
                        ==> holds_id(kan, picked@, kan[x].id),
            decreases np - t,
        {
            if picked.len() < 3 {
                let c = self.kanji_pool[order[t]];
                assert(order@[t as int] < np);
                match self.find_record_by_char(c) {
                    Some(j) => {
                        if self.kanjis[j].id != cid && self.kanjis[j].kanji != tested && !has_id(&self.kanjis, &picked, self.kanjis[j].id) {
                            let ghost q0 = picked@;
                            insert_sorted(&self.kanjis, &mut picked, j);
                            proof {
                                assert(pool.contains(c)) by {
                                    assert(pool[order@[t as int] as int] == c);
                                }
                                assert forall|a: int| 0 <= a < picked@.len() implies is_distractor(kan, ci as int, #[trigger] picked@[a] as int)
                                    && pool.contains(kan[picked@[a] as int].kanji) by {
                                    assert(picked@.contains(picked@[a]));
                                    if picked@[a] != j {
                                        let b = choose|b: int| 0 <= b < q0.len() && q0[b] == picked@[a];
                                    }
                                }
                                assert(picked@.contains(j));
                                let pj = choose|pj: int| 0 <= pj < picked@.len() && picked@[pj] == j;
                                assert(holds_id(kan, picked@, kan[j as int].id));
                                if picked@.len() < 3 {
                                    assert forall|t2: int, x: int|
                                        #![trigger order@[t2], pool_distractor(kan, pool, ci as int, x)]
                                        0 <= t2 < t + 1 && pool_distractor(kan, pool, ci as int, x) && kan[x].kanji == pool[order@[t2] as int]
                                            implies holds_id(kan, picked@, kan[x].id) by {
                                        if t2 < t {
                                            lemma_holds_grow(kan, q0, picked@, kan[x].id);
                                        } else {
                                            assert(x == j as int) by {
                                                if x < j { assert(kan[x].kanji != c); }
                                                if x > j { assert(kan[j as int].kanji != c); }
                                            }
                                        }
                                    }
                                }
                            }
                        } else {
                            proof {
                                assert forall|t2: int, x: int|
                                    #![trigger order@[t2], pool_distractor(kan, pool, ci as int, x)]
                                    0 <= t2 < t + 1 && pool_distractor(kan, pool, ci as int, x) && kan[x].kanji == pool[order@[t2] as int]
                                        implies holds_id(kan, picked@, kan[x].id) by {
                                    if t2 == t {
                                        assert(x == j as int) by {
                                            if x < j { assert(kan[x].kanji != c); }
                                            if x > j { assert(kan[j as int].kanji != c); }
                                        }
                                    }
                                }
                            }
                        }
                    },
                    None => {
                        proof {
                            assert forall|t2: int, x: int|
                                #![trigger order@[t2], pool_distractor(kan, pool, ci as int, x)]
                                0 <= t2 < t + 1 && pool_distractor(kan, pool, ci as int, x) && kan[x].kanji == pool[order@[t2] as int]
                                    implies holds_id(kan, picked@, kan[x].id) by {
                                if t2 == t {
                                    assert(!catalog_has(kan, c));
                                    assert(kan[x].kanji == c);
                                }
                            }
                        }
                    },
                }
            }
            t = t + 1;
        }
        proof {
            if picked@.len() < 3 && pool_offers_three(kan, pool, ci as int) {
                lemma_distinct_cover(order@, np as nat);
                let q = choose|q: Seq<int>| q.len() == 3 && (forall|a: int| 0 <= a < 3 ==> pool_distractor(kan, pool, ci as int, #[trigger] q[a]))
                    && (forall|a: int, b: int| 0 <= a < b < 3 ==> kan[q[a]].id != kan[q[b]].id);
                assert forall|a: int| 0 <= a < 3 implies holds_id(kan, picked@, kan[#[trigger] q[a]].id) by {
                    assert(pool_distractor(kan, pool, ci as int, q[a]));
                    let p = choose|p: int| 0 <= p < pool.len() && pool[p] == kan[q[a]].kanji;
                    assert(order@.contains(p as usize));
                    let t2 = choose|t2: int| 0 <= t2 < order@.len() && order@[t2] == p as usize;
                    assert(kan[q[a]].kanji == pool[order@[t2] as int]);
                }
                let p0 = choose|p: int| 0 <= p < picked@.len() && kan[picked@[p] as int].id == kan[q[0]].id;
                let p1 = choose|p: int| 0 <= p < picked@.len() && kan[picked@[p] as int].id == kan[q[1]].id;
                let p2 = choose|p: int| 0 <= p < picked@.len() && kan[picked@[p] as int].id == kan[q[2]].id;
                assert(false);
            }
        }
        let ghost walked = picked@;
        if picked.len() < 3 {
            let mut extra: Vec<usize> = Vec::new();
            let mut j: usize = 0;
            while j < self.kanjis.len()
                invariant
                    j <= kan.len(),
                    self.kanjis@ == kan,
                    self.kanji_pool@ == old(self).kanji_pool@,
                    self.last_dealt_kanji == old(self).last_dealt_kanji,
                    ci < kan.len(),
                    cid == kan[ci as int].id,
                    tested == kan[ci as int].kanji,
                    sorted_ids(kan, picked@),
                    picked@.len() < 3,
                    forall|a: int| 0 <= a < picked@.len() ==> is_distractor(kan, ci as int, #[trigger] picked@[a] as int),
                    forall|a: int| 0 <= a < extra@.len() ==> #[trigger] extra@[a] < kan.len()
                        && is_distractor(kan, ci as int, extra@[a] as int)
                        && !holds_id(kan, picked@, kan[extra@[a] as int].id),
                    forall|a: int, b: int| 0 <= a < b < extra@.len() ==> kan[extra@[a] as int].id != kan[extra@[b] as int].id,
                    forall|x: int| 0 <= x < j && is_distractor(kan, ci as int, x) ==>
                        holds_id(kan, picked@, #[trigger] kan[x].id) || holds_id(kan, extra@, kan[x].id),
                decreases kan.len() - j,
            {
                let id = self.kanjis[j].id;
                if id != cid && self.kanjis[j].kanji != tested && !has_id(&self.kanjis, &picked, id) && !has_id(&self.kanjis, &extra, id) {
                    let ghost e_before = extra@;
                    extra.push(j);
                    proof {
                        assert(extra@[e_before.len() as int] == j);
                        assert(holds_id(kan, extra@, id));
                        assert forall|x: int| 0 <= x < j + 1 && is_distractor(kan, ci as int, x) implies
                            holds_id(kan, picked@, #[trigger] kan[x].id) || holds_id(kan, extra@, kan[x].id) by {
                            if x < j && holds_id(kan, e_before, kan[x].id) {
                                let a = choose|a: int| 0 <= a < e_before.len() && kan[e_before[a] as int].id == kan[x].id;
                                assert(extra@[a] == e_before[a]);
                            }
                        }
                    }
                }
                j = j + 1;
            }
            let need = 3 - picked.len();
            if extra.len() < need {
                proof {
                    let q = picked@ + extra@;
                    assert forall|a: int| 0 <= a < q.len() implies q[a] < kan.len() by {
                        if a >= picked@.len() {
                            assert(q[a] == extra@[a - picked@.len()]);
                        }
                    }
                    assert forall|x: int| 0 <= x < kan.len() && is_distractor(kan, ci as int, x) implies holds_id(kan, q, kan[x].id) by {
                        if holds_id(kan, picked@, kan[x].id) {
                            let a = choose|a: int| 0 <= a < picked@.len() && kan[picked@[a] as int].id == kan[x].id;
                            assert(q[a] == picked@[a]);
                        } else {
                            assert(holds_id(kan, extra@, kan[x].id));
                            let a = choose|a: int| 0 <= a < extra@.len() && kan[extra@[a] as int].id == kan[x].id;
                            assert(q[picked@.len() + a] == extra@[a]);
                        }
                    }
                    assert(few_distractors(kan, ci as int));
                    assert(self.kanji_pool@.contains(kan[ci as int].kanji));
                }
                return Err(DealError::CatalogInsufficient);
            }
            let draws = sample_indices(&mut self.rng, extra.len(), need);
            let ghost picked_before = picked@;
            let mut t: usize = 0;
            while t < need
                invariant
                    t <= need,
                    need == 3 - picked_before.len(),
                    draws@.len() == need,
                    draws@.no_duplicates(),
                    forall|a: int| 0 <= a < draws@.len() ==> #[trigger] draws@[a] < extra@.len(),
                    forall|a: int| 0 <= a < extra@.len() ==> #[trigger] extra@[a] < kan.len()
                        && is_distractor(kan, ci as int, extra@[a] as int)
                        && !holds_id(kan, picked_before, kan[extra@[a] as int].id),
                    forall|a: int, b: int| 0 <= a < b < extra@.len() ==> kan[extra@[a] as int].id != kan[extra@[b] as int].id,
                    self.kanjis@ == kan,
                    self.kanji_pool@ == old(self).kanji_pool@,
                    self.last_dealt_kanji == old(self).last_dealt_kanji,
                    ci < kan.len(),
                    sorted_ids(kan, picked@),
                    picked@.len() == picked_before.len() + t,
                    forall|a: int| 0 <= a < picked@.len() ==> is_distractor(kan, ci as int, #[trigger] picked@[a] as int),
                    forall|x: usize| #[trigger] picked@.contains(x) ==> picked_before.contains(x)
                        || exists|b: int| 0 <= b < t && x == extra@[draws@[b] as int],
                decreases need - t,
            {
                let x = extra[draws[t]];
                proof {
                    if holds_id(kan, picked@, kan[x as int].id) {
                        let a = choose|a: int| 0 <= a < picked@.len() && kan[picked@[a] as int].id == kan[x as int].id;
                        assert(picked@.contains(picked@[a]));
                        if picked_before.contains(picked@[a]) {
                            let b = choose|b: int| 0 <= b < picked_before.len() && picked_before[b] == picked@[a];
                            assert(holds_id(kan, picked_before, kan[x as int].id));
                        } else {
                            let b = choose|b: int| 0 <= b < t && picked@[a] == extra@[draws@[b] as int];
                            assert(draws@[b] != draws@[t as int]);
                        }
                    }
                }
                let ghost q0 = picked@;
                insert_sorted(&self.kanjis, &mut picked, x);
                proof {
                    assert forall|a: int| 0 <= a < picked@.len() implies is_distractor(kan, ci as int, #[trigger] picked@[a] as int) by {
                        assert(picked@.contains(picked@[a]));
                        if picked@[a] != x {
                            let b = choose|b: int| 0 <= b < q0.len() && q0[b] == picked@[a];
                        }
                    }
                    assert forall|y: usize| #[trigger] picked@.contains(y) implies picked_before.contains(y)
                        || exists|b: int| 0 <= b < t + 1 && y == extra@[draws@[b] as int] by {
                        if y != x {
                            assert(q0.contains(y));
                        }
                    }
                }
                t = t + 1;
            }
        }
        let ghost q3 = picked@;
        picked.insert(correct_index, ci);
        proof {
            let q = picked@;
            assert(q == q3.insert(correct_index as int, ci));
            assert forall|a: int| 0 <= a < 4 implies q[a] == if a < correct_index {
                q3[a]
            } else if a == correct_index {
                ci
            } else {
                q3[a - 1]
            } by {}
            assert forall|a: int, b: int| 0 <= a < 4 && 0 <= b < 4 && a != b implies kan[q[a] as int].id != kan[q[b] as int].id by {
                if a != correct_index && b != correct_index {
                    let a3 = if a < correct_index { a } else { a - 1 };
                    let b3 = if b < correct_index { b } else { b - 1 };
                    if a3 < b3 {
                        assert(kan[q3[a3] as int].id < kan[q3[b3] as int].id);
                    } else {
                        assert(kan[q3[b3] as int].id < kan[q3[a3] as int].id);
                    }
                } else if a == correct_index {
                    let b3 = if b < correct_index { b } else { b - 1 };
                    assert(is_distractor(kan, ci as int, q3[b3] as int));
                } else {
                    let a3 = if a < correct_index { a } else { a - 1 };
                    assert(is_distractor(kan, ci as int, q3[a3] as int));
                }
            }
            assert forall|a: int| 0 <= a < 4 && a != correct_index implies kan[q[a] as int].kanji != tested by {
                let a3 = if a < correct_index { a } else { a - 1 };
                assert(is_distractor(kan, ci as int, q3[a3] as int));
            }
            if pool_offers_three(kan, pool, ci as int) {
                assert(q3 == walked);
                assert forall|a: int| 0 <= a < 4 && a != correct_index implies pool.contains(kan[q[a] as int].kanji) by {
                    let a3 = if a < correct_index { a } else { a - 1 };
                    assert(pool.contains(kan[q3[a3] as int].kanji));
                }
            }
        }
        self.last_dealt_kanji = tested;
        self.kanjis[ci].update_review_date_at(config, now);
        Ok((correct_index as u8, picked))
    }

    /// Deals one question now; see `deal_kanji_candidates_at`.
    pub fn deal_kanji_candidates(&mut self, config: &mut Config) -> (r: Result<(u8, Vec<usize>), DealError>)
        ensures
            final(self).kanjis@ == old(self).kanjis@,
            final(self).kanji_pool@ == old(self).kanji_pool@,
            r == Err::<(u8, Vec<usize>), DealError>(DealError::EmptyPool) <==> old(self).kanji_pool@.len() == 0,
            r == Err::<(u8, Vec<usize>), DealError>(DealError::UnknownKanji) ==> exists|k: int|
                0 <= k < old(self).kanji_pool@.len() && !catalog_has(old(self).kanjis@, old(self).kanji_pool@[k]),
            r == Err::<(u8, Vec<usize>), DealError>(DealError::CatalogInsufficient) ==> exists|c: int|
                first_with(old(self).kanjis@, old(self).kanjis@[c].kanji, c) && old(self).kanji_pool@.contains(old(self).kanjis@[c].kanji)
                    && few_distractors(old(self).kanjis@, c),
            r matches Ok((ci, cands)) ==> {
                &&& valid_deal(old(self).kanjis@, ci as int, cands@, final(self).last_dealt_kanji)
                &&& old(self).kanji_pool@.contains(final(self).last_dealt_kanji)
                &&& (exists|k: int| 0 <= k < old(self).kanji_pool@.len() && old(self).kanji_pool@[k] != old(self).last_dealt_kanji)
                    ==> final(self).last_dealt_kanji != old(self).last_dealt_kanji
                &&& pool_offers_three(old(self).kanjis@, old(self).kanji_pool@, cands@[ci as int] as int) ==> forall|a: int|
                    0 <= a < 4 && a != ci ==> old(self).kanji_pool@.contains(old(self).kanjis@[#[trigger] cands@[a] as int].kanji)
            },
            final(config).learning_index_threshold == old(config).learning_index_threshold,
            final(config).kanji_pool_max_size == old(config).kanji_pool_max_size,
            final(config).review_interval_step == old(config).review_interval_step,
            final(config).profile == old(config).profile,
            final(config).was_used_last == old(config).was_used_last,
            final(config).button_text_option == old(config).button_text_option,
            r is Err ==> final(self).last_dealt_kanji == old(self).last_dealt_kanji
                && final(config).answer_statistics@ == old(config).answer_statistics@,
            r is Ok ==> exists|now: u64| final(config).answer_statistics@ == #[trigger] reviewed_at(
                old(config).answer_statistics@,
                final(self).last_dealt_kanji,
                now,
            ),
    {
        let now = now_secs();
        let ghost before = config.answer_statistics@;
        let r = self.deal_kanji_candidates_at(config, now);
        if r.is_ok() {
            assert(config.answer_statistics@ == reviewed_at(before, self.last_dealt_kanji, now));
        }
        r
    }
}

} // verus!
