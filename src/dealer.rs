//! The dealer's pool: the bounded set of kanji under drill, seeded from the
//! records, stripped of learned kanji, and refilled from records due for
//! review and from unseen catalog kanji.

use vstd::prelude::*;
use rand::rngs::StdRng;
use crate::clock::{elapsed, elapsed_spec, now_secs};
use crate::config::Config;
use crate::kanji::KanjiRecord;
use crate::random::{entropy_rng, sample_indices, seeded_rng};
use crate::store::{has_key, keys_unique, lemma_map_of_entry, lemma_same_keys, map_of, StatValue};

verus! {

/// Whether some catalog entry shows kanji `k`.
pub open spec fn catalog_has(kanjis: Seq<KanjiRecord>, k: char) -> bool {
    exists|j: int| 0 <= j < kanjis.len() && kanjis[j].kanji == k
}

/// Whether a record counts as learned.
pub open spec fn is_mastered(v: StatValue, threshold: i32) -> bool {
    v.learning_index >= threshold
}

/// Whether kanji `k` has a record in `e` that counts as learned.
pub open spec fn mastered_in(e: Seq<(char, StatValue)>, k: char, threshold: i32) -> bool {
    has_key(e, k) && is_mastered(map_of(e)[k], threshold)
}

/// Whether the review interval of a record has elapsed at `now`.
pub open spec fn is_due(v: StatValue, now: u64) -> bool {
    elapsed_spec(v.last_review_time, now) > v.review_interval
}

/// A record after demotion: its learning index halved, rounded down.
pub open spec fn demoted(v: StatValue) -> StatValue {
    StatValue { learning_index: (v.learning_index / 2) as i32, ..v }
}

/// The members of pool `p` that Minimize keeps, in order: kanji that do not
/// count as learned, each once, at most `max` of them.
pub open spec fn kept(p: Seq<char>, e0: Seq<(char, StatValue)>, threshold: i32, max: nat) -> Seq<char>
    decreases p.len(),
{
    if p.len() == 0 {
        Seq::empty()
    } else {
        let prev = kept(p.drop_last(), e0, threshold, max);
        let c = p.last();
        if !mastered_in(e0, c, threshold) && !prev.contains(c) && prev.len() < max {
            prev.push(c)
        } else {
            prev
        }
    }
}

/// The pool restored from the records: the keys of the first `max` records.
pub open spec fn restored(e0: Seq<(char, StatValue)>, max: nat) -> Seq<char> {
    Seq::new(if e0.len() < max { e0.len() } else { max }, |i: int| e0[i].0)
}

/// The pool that Minimize starts from: the pool itself, or the restored one
/// when the pool is empty.
pub open spec fn seeded(old_pool: Seq<char>, e0: Seq<(char, StatValue)>, max: nat) -> Seq<char> {
    if old_pool.len() == 0 { restored(e0, max) } else { old_pool }
}

/// Kanji `c` has a record that was due at `now` and is demoted in `e1`.
pub open spec fn readmitted(e0: Seq<(char, StatValue)>, e1: Seq<(char, StatValue)>, c: char, now: u64) -> bool {
    exists|i: int| 0 <= i < e0.len() && e0[i].0 == c && is_due(e0[i].1, now) && e1[i].1 == demoted(e0[i].1)
}

/// Kanji `c` has a record that does not count as learned and stays as it was.
pub open spec fn unlearned_record(e0: Seq<(char, StatValue)>, e1: Seq<(char, StatValue)>, c: char, threshold: i32) -> bool {
    exists|i: int| 0 <= i < e0.len() && e0[i].0 == c && !is_mastered(e0[i].1, threshold) && e1[i].1 == e0[i].1
}

/// No record is due at `now`.
pub open spec fn nothing_due(e0: Seq<(char, StatValue)>, now: u64) -> bool {
    forall|i: int| 0 <= i < e0.len() ==> !is_due(e0[i].1, now)
}

/// Every catalog kanji has a record.
pub open spec fn all_seen(kanjis: Seq<KanjiRecord>, e0: Seq<(char, StatValue)>) -> bool {
    forall|j: int| 0 <= j < kanjis.len() ==> has_key(e0, kanjis[j].kanji)
}

/// After a refill: the pool is full, or it holds every kanji of a record due
/// at `now` and every catalog kanji without a record.
pub open spec fn refilled(kanjis: Seq<KanjiRecord>, max: u32, now: u64, e0: Seq<(char, StatValue)>, pool: Seq<char>) -> bool {
    pool.len() == max || ((forall|i: int| 0 <= i < e0.len() && is_due(e0[i].1, now) ==> pool.contains(e0[i].0))
        && (forall|j: int| 0 <= j < kanjis.len() ==> has_key(e0, kanjis[j].kanji) || pool.contains(kanjis[j].kanji)))
}

/// Replenish from an empty pool: due records first, demoted; then unseen
/// catalog kanji; and only when there is neither, unlearned records. The
/// pool ends empty only when nothing could fill it.
pub open spec fn replenished(
    kanjis: Seq<KanjiRecord>,
    max: u32,
    threshold: i32,
    now: u64,
    e0: Seq<(char, StatValue)>,
    pool: Seq<char>,
    e1: Seq<(char, StatValue)>,
) -> bool {
    &&& forall|c: char| #[trigger] pool.contains(c) ==> readmitted(e0, e1, c, now)
        || (!has_key(e0, c) && catalog_has(kanjis, c))
        || (nothing_due(e0, now) && all_seen(kanjis, e0) && unlearned_record(e0, e1, c, threshold))
    &&& (exists|c: char| #[trigger] pool.contains(c) && !has_key(e0, c)) ==> forall|i: int|
        0 <= i < e0.len() && is_due(e0[i].1, now) ==> pool.contains(e0[i].0)
    &&& refilled(kanjis, max, now, e0, pool)
    &&& pool.len() == 0 ==> max == 0 || (nothing_due(e0, now) && all_seen(kanjis, e0) && forall|i: int|
        0 <= i < e0.len() ==> is_mastered(e0[i].1, threshold))
}

/// What Minimize guarantees from the pool `p0` and records `e0` before it to
/// the pool `p1` and records `e1` after it: the kept members when there are
/// any, else a replenished pool.
pub open spec fn minimized(
    kanjis: Seq<KanjiRecord>,
    max: u32,
    threshold: i32,
    now: u64,
    p0: Seq<char>,
    e0: Seq<(char, StatValue)>,
    p1: Seq<char>,
    e1: Seq<(char, StatValue)>,
) -> bool {
    &&& keys_unique(e0)
    // the pool is bounded and holds each kanji once
    &&& p1.len() <= max
    &&& p1.no_duplicates()
    // records keep their keys; a changed one was due, is demoted and is in the pool
    &&& e1.len() == e0.len()
    &&& forall|i: int| 0 <= i < e0.len() ==> e1[i].0 == e0[i].0
    &&& forall|i: int|
        0 <= i < e0.len() && e1[i].1 != e0[i].1 ==> e1[i].1 == demoted(e0[i].1) && is_due(e0[i].1, now)
            && p1.contains(e0[i].0)
    // a learned item comes back only through demotion
    &&& forall|i: int|
        0 <= i < e0.len() && p1.contains(e0[i].0) && is_mastered(e0[i].1, threshold) ==> e1[i].1 == demoted(e0[i].1)
            && is_due(e0[i].1, now)
    &&& kept(p0, e0, threshold, max as nat).len() > 0 ==> p1 == kept(p0, e0, threshold, max as nat) && e1 == e0
    &&& kept(p0, e0, threshold, max as nat).len() == 0 ==> replenished(kanjis, max, threshold, now, e0, p1, e1)
}

/// A pool of unlearned kanji, each once and within the bound.
pub open spec fn settled(max: u32, threshold: i32, p0: Seq<char>, e0: Seq<(char, StatValue)>) -> bool {
    0 < p0.len() <= max && p0.no_duplicates() && forall|k: int| 0 <= k < p0.len() ==> !mastered_in(e0, p0[k], threshold)
}

/// What `update_kanji_pool` guarantees, from the pool `old_pool` and records
/// `e0` before the call to the pool `new_pool` and records `e1` after it:
/// Minimize applied to the pool, or to the restored one when the pool is
/// empty; a settled pool is left alone.
pub open spec fn pool_update(
    kanjis: Seq<KanjiRecord>,
    max: u32,
    threshold: i32,
    now: u64,
    old_pool: Seq<char>,
    e0: Seq<(char, StatValue)>,
    new_pool: Seq<char>,
    e1: Seq<(char, StatValue)>,
) -> bool {
    &&& minimized(kanjis, max, threshold, now, seeded(old_pool, e0, max as nat), e0, new_pool, e1)
    &&& settled(max, threshold, old_pool, e0) ==> new_pool == old_pool && e1 == e0
}

/// Some entry listed in `q` shows kanji `c`.
pub open spec fn lists_kanji(kanjis: Seq<KanjiRecord>, q: Seq<usize>, c: char) -> bool {
    exists|a: int| 0 <= a < q.len() && kanjis[q[a] as int].kanji == c
}

/// Whether an entry listed in `q` shows kanji `c`.
fn has_kanji(kanjis: &Vec<KanjiRecord>, q: &Vec<usize>, c: char) -> (r: bool)
    requires
        forall|a: int| 0 <= a < q@.len() ==> q@[a] < kanjis@.len(),
    ensures
        r == lists_kanji(kanjis@, q@, c),
{
    let mut a: usize = 0;
    while a < q.len()
        invariant
            a <= q@.len(),
            forall|b: int| 0 <= b < q@.len() ==> q@[b] < kanjis@.len(),
            forall|b: int| 0 <= b < a ==> kanjis@[q@[b] as int].kanji != c,
        decreases q@.len() - a,
    {
        if kanjis[q[a]].kanji == c {
            return true;
        }
        a = a + 1;
    }
    false
}

/// Whether `v` holds `c`.
fn contains_char(v: &Vec<char>, c: char) -> (r: bool)
    ensures
        r == v@.contains(c),
{
    let mut i: usize = 0;
    while i < v.len()
        invariant
            i <= v@.len(),
            forall|j: int| 0 <= j < i ==> v@[j] != c,
        decreases v@.len() - i,
    {
        if v[i] == c {
            return true;
        }
        i = i + 1;
    }
    false
}

/// `x / 2` rounded down.
fn floor_half(x: i32) -> (r: i32)
    ensures
        r == x / 2,
{
    if x >= 0 {
        x / 2
    } else {
        let y: i32 = -(x + 1);
        let h: i32 = y / 2;
        assert(-h - 1 == x / 2) by (nonlinear_arith)
            requires
                x < 0,
                y == -(x + 1),
                h == y / 2,
        ;
        -h - 1
    }
}

/// Deals kanji from a catalog: keeps the pool of kanji under drill and draws
/// candidate sets for one question at a time.
pub struct KanjiDealer {
    pub kanjis: Vec<KanjiRecord>,
    pub kanji_pool: Vec<char>,
    /// The kanji dealt last; `'-'` before the first deal.
    pub last_dealt_kanji: char,
    /// The source of every random draw.
    pub rng: StdRng,
}

impl KanjiDealer {
    /// A dealer over `kanjis` with an empty pool, drawing from a generator
    /// seeded by the operating system.
    pub fn new(kanjis: Vec<KanjiRecord>) -> (r: Self)
        ensures
            r.kanjis@ == kanjis@,
            r.kanji_pool@.len() == 0,
            r.last_dealt_kanji == '-',
    {
        KanjiDealer { kanjis, kanji_pool: Vec::new(), last_dealt_kanji: '-', rng: entropy_rng() }
    }

    /// A dealer over `kanjis` with an empty pool, whose draws are fixed by `seed`.
    pub fn with_seed(kanjis: Vec<KanjiRecord>, seed: u64) -> (r: Self)
        ensures
            r.kanjis@ == kanjis@,
            r.kanji_pool@.len() == 0,
            r.last_dealt_kanji == '-',
    {
        KanjiDealer { kanjis, kanji_pool: Vec::new(), last_dealt_kanji: '-', rng: seeded_rng(seed) }
    }

    /// The position of the first catalog entry that shows `c`.
    pub fn find_record_by_char(&self, c: char) -> (r: Option<usize>)
        ensures
            r matches Some(i) ==> i < self.kanjis@.len() && self.kanjis@[i as int].kanji == c
                && forall|j: int| 0 <= j < i ==> self.kanjis@[j].kanji != c,
            r is None ==> !catalog_has(self.kanjis@, c),
    {
        let mut i: usize = 0;
        while i < self.kanjis.len()
            invariant
                i <= self.kanjis@.len(),
                forall|j: int| 0 <= j < i ==> self.kanjis@[j].kanji != c,
            decreases self.kanjis@.len() - i,
        {
            if self.kanjis[i].kanji == c {
                return Some(i);
            }
            i = i + 1;
        }
        None
    }
}

} // verus!

verus! {

impl KanjiDealer {
    /// Into an empty pool, re-admits each record whose review interval has
    /// elapsed at `now`, halving its learning index, while the pool has room.
    /// Returns whether the pool is full.
    fn add_kanji_to_pool_based_on_review_intervals(&mut self, config: &mut Config, now: u64) -> (full: bool)
        requires
            old(self).kanji_pool@.len() == 0,
        ensures
            final(self).last_dealt_kanji == old(self).last_dealt_kanji,
            final(self).kanjis@ == old(self).kanjis@,
            final(config).learning_index_threshold == old(config).learning_index_threshold,
            final(config).kanji_pool_max_size == old(config).kanji_pool_max_size,
            final(config).review_interval_step == old(config).review_interval_step,
            final(config).profile == old(config).profile,
            final(config).was_used_last == old(config).was_used_last,
            final(config).button_text_option == old(config).button_text_option,
            keys_unique(old(config).answer_statistics.entries()),
            final(config).answer_statistics.entries().len() == old(config).answer_statistics.entries().len(),
            forall|i: int| 0 <= i < old(config).answer_statistics.entries().len() ==>
                final(config).answer_statistics.entries()[i].0 == old(config).answer_statistics.entries()[i].0,
            forall|i: int| 0 <= i < old(config).answer_statistics.entries().len()
                && final(self).kanji_pool@.contains(old(config).answer_statistics.entries()[i].0) ==> {
                    &&& is_due(old(config).answer_statistics.entries()[i].1, now)
                    &&& final(config).answer_statistics.entries()[i].1 == demoted(old(config).answer_statistics.entries()[i].1)
                },
            forall|i: int| 0 <= i < old(config).answer_statistics.entries().len()
                && !final(self).kanji_pool@.contains(old(config).answer_statistics.entries()[i].0) ==>
                final(config).answer_statistics.entries()[i].1 == old(config).answer_statistics.entries()[i].1,
            forall|c: char| final(self).kanji_pool@.contains(c) ==> has_key(old(config).answer_statistics.entries(), c),
            final(self).kanji_pool@.no_duplicates(),
            final(self).kanji_pool@.len() <= old(config).kanji_pool_max_size,
            full == (final(self).kanji_pool@.len() >= old(config).kanji_pool_max_size),
            !full ==> forall|i: int| 0 <= i < old(config).answer_statistics.entries().len()
                && is_due(old(config).answer_statistics.entries()[i].1, now) ==>
                final(self).kanji_pool@.contains(old(config).answer_statistics.entries()[i].0),
    {
        let max = config.kanji_pool_max_size as usize;
        let n = config.answer_statistics.len();
        let ghost e0 = config.answer_statistics.entries();
        let ghost mut src: Seq<int> = Seq::empty();
        let mut i: usize = 0;
        while i < n
            invariant
                i <= n,
                n == e0.len(),
                keys_unique(e0),
                max == old(config).kanji_pool_max_size,
                e0 == old(config).answer_statistics.entries(),
                self.kanjis@ == old(self).kanjis@,
                self.last_dealt_kanji == old(self).last_dealt_kanji,
                config.learning_index_threshold == old(config).learning_index_threshold,
                config.kanji_pool_max_size == old(config).kanji_pool_max_size,
                config.review_interval_step == old(config).review_interval_step,
                config.profile == old(config).profile,
                config.was_used_last == old(config).was_used_last,
                config.button_text_option == old(config).button_text_option,
                config.answer_statistics.entries().len() == n,
                forall|j: int| 0 <= j < n ==> config.answer_statistics.entries()[j].0 == e0[j].0,
                forall|j: int| i <= j < n ==> config.answer_statistics.entries()[j].1 == e0[j].1,
                forall|j: int| 0 <= j < i ==> (self.kanji_pool@.contains(e0[j].0) <==> is_due(e0[j].1, now)),
                forall|j: int| 0 <= j < i && is_due(e0[j].1, now) ==> config.answer_statistics.entries()[j].1 == demoted(e0[j].1),
                forall|j: int| 0 <= j < i && !is_due(e0[j].1, now) ==> config.answer_statistics.entries()[j].1 == e0[j].1,
                src.len() == self.kanji_pool@.len(),
                forall|k: int| 0 <= k < src.len() ==> 0 <= #[trigger] src[k] < i && e0[src[k]].0 == self.kanji_pool@[k],
                forall|a: int, b: int| 0 <= a < b < src.len() ==> src[a] < src[b],
                self.kanji_pool@.len() <= max,
            decreases n - i,
        {
            if self.kanji_pool.len() >= max {
                proof {
                    assert forall|j: int| i <= j < n implies !self.kanji_pool@.contains(e0[j].0) by {
                        if self.kanji_pool@.contains(e0[j].0) {
                            let k = choose|k: int| 0 <= k < self.kanji_pool@.len() && self.kanji_pool@[k] == e0[j].0;
                            assert(e0[src[k]].0 == e0[j].0);
                        }
                    }
                    assert forall|c: char| self.kanji_pool@.contains(c) implies has_key(e0, c) by {
                        let k = choose|k: int| 0 <= k < self.kanji_pool@.len() && self.kanji_pool@[k] == c;
                        assert(e0[src[k]].0 == c);
                    }
                    assert forall|a: int, b: int| 0 <= a < b < self.kanji_pool@.len() implies self.kanji_pool@[a] != self.kanji_pool@[b] by {
                        assert(src[a] < src[b]);
                    }
                }
                return true;
            }
            proof {
                if self.kanji_pool@.contains(e0[i as int].0) {
                    let k = choose|k: int| 0 <= k < self.kanji_pool@.len() && self.kanji_pool@[k] == e0[i as int].0;
                    assert(e0[src[k]].0 == e0[i as int].0);
                }
            }
            let v = config.answer_statistics.value_at(i);
            if elapsed(v.last_review_time, now) > v.review_interval {
                let c = config.answer_statistics.key_at(i);
                assert(c == e0[i as int].0);
                let half = floor_half(v.learning_index);
                config.answer_statistics.set_value_at(i, StatValue { learning_index: half, ..v });
                let ghost p_before = self.kanji_pool@;
                self.kanji_pool.push(c);
                proof {
                    src = src.push(i as int);
                    assert(self.kanji_pool@[p_before.len() as int] == c);
                    assert forall|j: int| 0 <= j < i + 1 implies (self.kanji_pool@.contains(e0[j].0) <==> is_due(e0[j].1, now)) by {
                        if j < i {
                            if p_before.contains(e0[j].0) {
                                let k = choose|k: int| 0 <= k < p_before.len() && p_before[k] == e0[j].0;
                                assert(self.kanji_pool@[k] == e0[j].0);
                            }
                            if self.kanji_pool@.contains(e0[j].0) {
                                let k = choose|k: int| 0 <= k < self.kanji_pool@.len() && self.kanji_pool@[k] == e0[j].0;
                                assert(e0[j].0 != e0[i as int].0);
                                assert(p_before[k] == e0[j].0);
                            }
                        }
                    }
                }
            }
            i = i + 1;
        }
        proof {
            assert forall|c: char| self.kanji_pool@.contains(c) implies has_key(e0, c) by {
                let k = choose|k: int| 0 <= k < self.kanji_pool@.len() && self.kanji_pool@[k] == c;
                assert(e0[src[k]].0 == c);
            }
            assert forall|a: int, b: int| 0 <= a < b < self.kanji_pool@.len() implies self.kanji_pool@[a] != self.kanji_pool@[b] by {
                assert(src[a] < src[b]);
            }
        }
        self.kanji_pool.len() >= max
    }

    /// Drops learned kanji and repeats from the pool and cuts it to its
    /// bound, keeping the order; a pool left empty is replenished.
    fn minimize_kanji_pool(&mut self, config: &mut Config, now: u64)
        ensures
            final(self).last_dealt_kanji == old(self).last_dealt_kanji,
            final(self).kanjis@ == old(self).kanjis@,
            final(config).learning_index_threshold == old(config).learning_index_threshold,
            final(config).kanji_pool_max_size == old(config).kanji_pool_max_size,
            final(config).review_interval_step == old(config).review_interval_step,
            final(config).profile == old(config).profile,
            final(config).was_used_last == old(config).was_used_last,
            final(config).button_text_option == old(config).button_text_option,
            minimized(
                old(self).kanjis@,
                old(config).kanji_pool_max_size,
                old(config).learning_index_threshold,
                now,
                old(self).kanji_pool@,
                old(config).answer_statistics.entries(),
                final(self).kanji_pool@,
                final(config).answer_statistics.entries(),
            ),
            settled(old(config).kanji_pool_max_size, old(config).learning_index_threshold, old(self).kanji_pool@,
                old(config).answer_statistics.entries()) ==> final(self).kanji_pool@ == old(self).kanji_pool@
                && final(config).answer_statistics.entries() == old(config).answer_statistics.entries(),
    {
        let max = config.kanji_pool_max_size as usize;
        let threshold = config.learning_index_threshold;
        let n = config.answer_statistics.len();
        let ghost e0 = config.answer_statistics.entries();
        let ghost old_pool = self.kanji_pool@;
        let mut src: Vec<char> = Vec::new();
        std::mem::swap(&mut self.kanji_pool, &mut src);
        let ghost mut all_kept = true;
        let mut k: usize = 0;
        while k < src.len()
            invariant
                k <= src@.len(),
                src@ == old_pool,
                self.kanjis@ == old(self).kanjis@,
                self.last_dealt_kanji == old(self).last_dealt_kanji,
                config.review_interval_step == old(config).review_interval_step,
                config.profile == old(config).profile,
                config.was_used_last == old(config).was_used_last,
                config.button_text_option == old(config).button_text_option,
                keys_unique(e0),
                e0 == config.answer_statistics.entries(),
                threshold == config.learning_index_threshold,
                max == config.kanji_pool_max_size,
                self.kanji_pool@.len() <= max,
                self.kanji_pool@.no_duplicates(),
                forall|c: char| #[trigger] self.kanji_pool@.contains(c) ==> old_pool.contains(c) && !mastered_in(e0, c, threshold),
                all_kept ==> self.kanji_pool@ == old_pool.subrange(0, k as int),
                (old_pool.len() <= max && old_pool.no_duplicates() && (forall|q: int| 0 <= q < old_pool.len() ==> !mastered_in(e0, old_pool[q], threshold)))
                    ==> all_kept,
                self.kanji_pool@ == kept(old_pool.subrange(0, k as int), e0, threshold, max as nat),
            decreases src@.len() - k,
        {
            let c = src[k];
            let mastered = match config.answer_statistics.get(c) {
                Some(v) => v.learning_index >= threshold,
                None => false,
            };
            assert(mastered == mastered_in(e0, c, threshold));
            proof {
                let sub = old_pool.subrange(0, k as int + 1);
                assert(sub.drop_last() =~= old_pool.subrange(0, k as int));
                assert(sub.last() == c);
            }
            if !mastered && self.kanji_pool.len() < max && !contains_char(&self.kanji_pool, c) {
                let ghost p_before = self.kanji_pool@;
                self.kanji_pool.push(c);
                proof {
                    assert(self.kanji_pool@[p_before.len() as int] == c);
                    assert(old_pool[k as int] == c);
                    assert forall|d: char| #[trigger] self.kanji_pool@.contains(d) implies old_pool.contains(d) && !mastered_in(e0, d, threshold) by {
                        let q = choose|q: int| 0 <= q < self.kanji_pool@.len() && self.kanji_pool@[q] == d;
                        if q < p_before.len() {
                            assert(p_before[q] == d);
                            assert(p_before.contains(d));
                        }
                    }
                    if all_kept {
                        assert(self.kanji_pool@ =~= old_pool.subrange(0, k + 1));
                    }
                }
            } else {
                proof {
                    if all_kept && old_pool.len() <= max && old_pool.no_duplicates() {
                        assert(self.kanji_pool@ == old_pool.subrange(0, k as int));
                        if self.kanji_pool@.contains(c) {
                            let q = choose|q: int| 0 <= q < self.kanji_pool@.len() && self.kanji_pool@[q] == c;
                            assert(old_pool[q] == old_pool[k as int]);
                        }
                    }
                    all_kept = false;
                }
            }
            k = k + 1;
        }
        proof {
            let new_pool = self.kanji_pool@;
            assert(old_pool.subrange(0, old_pool.len() as int) =~= old_pool);
            if all_kept {
                assert(new_pool =~= old_pool);
            }
            assert forall|i: int| 0 <= i < e0.len() && new_pool.contains(e0[i].0) implies !is_mastered(e0[i].1, threshold) by {
                lemma_map_of_entry(e0, i);
            }
        }
        if self.kanji_pool.len() == 0 {
            self.add_new_kanji_to_pool(config, now);
        }
    }

    /// Brings the pool up to date at `now`. An empty pool is first seeded with
    /// the keys of the first records, as many as fit; learned kanji and
    /// repeats are then dropped and the pool is cut to its bound; if that
    /// leaves it empty, it is refilled with kanji whose review interval has
    /// elapsed (demoted: learning index halved), then with unseen catalog
    /// kanji in random order, and, when neither gives anything, with records
    /// that do not count as learned.
    pub fn update_kanji_pool_at(&mut self, config: &mut Config, now: u64)
        ensures
            final(self).kanjis@ == old(self).kanjis@,
            final(self).last_dealt_kanji == old(self).last_dealt_kanji,
            final(config).learning_index_threshold == old(config).learning_index_threshold,
            final(config).kanji_pool_max_size == old(config).kanji_pool_max_size,
            final(config).review_interval_step == old(config).review_interval_step,
            final(config).profile == old(config).profile,
            final(config).was_used_last == old(config).was_used_last,
            final(config).button_text_option == old(config).button_text_option,
            pool_update(
                old(self).kanjis@,
                old(config).kanji_pool_max_size,
                old(config).learning_index_threshold,
                now,
                old(self).kanji_pool@,
                old(config).answer_statistics.entries(),
                final(self).kanji_pool@,
                final(config).answer_statistics.entries(),
            ),
    {
        let ghost old_pool = self.kanji_pool@;
        let ghost e0 = config.answer_statistics.entries();
        if self.kanji_pool.len() == 0 {
            let max = config.kanji_pool_max_size as usize;
            let n = config.answer_statistics.len();
            let mut i: usize = 0;
            while i < n && self.kanji_pool.len() < max
                invariant
                    i <= n,
                    n == e0.len(),
                    e0 == config.answer_statistics.entries(),
                    self.kanjis@ == old(self).kanjis@,
                    self.last_dealt_kanji == old(self).last_dealt_kanji,
                    config.learning_index_threshold == old(config).learning_index_threshold,
                    config.kanji_pool_max_size == old(config).kanji_pool_max_size,
                    config.review_interval_step == old(config).review_interval_step,
                    config.profile == old(config).profile,
                    config.was_used_last == old(config).was_used_last,
                    config.button_text_option == old(config).button_text_option,
                    max == config.kanji_pool_max_size,
                    i <= max,
                    keys_unique(e0),
                    self.kanji_pool@.len() == i,
                    forall|q: int| 0 <= q < i ==> self.kanji_pool@[q] == e0[q].0,
                decreases n - i,
            {
                let c = config.answer_statistics.key_at(i);
                self.kanji_pool.push(c);
                i = i + 1;
            }
            proof {
                assert forall|c: char| self.kanji_pool@.contains(c) implies has_key(e0, c) by {
                    let q = choose|q: int| 0 <= q < self.kanji_pool@.len() && self.kanji_pool@[q] == c;
                    assert(e0[q].0 == c);
                }
                assert(self.kanji_pool@ =~= restored(e0, max as nat));
            }
        }
        self.minimize_kanji_pool(config, now);
    }

    /// Brings the pool up to date now; see `update_kanji_pool_at`.
    pub fn update_kanji_pool(&mut self, config: &mut Config)
        ensures
            final(self).kanjis@ == old(self).kanjis@,
            final(config).learning_index_threshold == old(config).learning_index_threshold,
            final(config).kanji_pool_max_size == old(config).kanji_pool_max_size,
            final(config).review_interval_step == old(config).review_interval_step,
            final(config).profile == old(config).profile,
            final(config).was_used_last == old(config).was_used_last,
            final(config).button_text_option == old(config).button_text_option,
            final(config).profile == old(config).profile,
            final(config).was_used_last == old(config).was_used_last,
            final(config).button_text_option == old(config).button_text_option,
            final(self).last_dealt_kanji == old(self).last_dealt_kanji,
            exists|now: u64| pool_update(
                old(self).kanjis@,
                old(config).kanji_pool_max_size,
                old(config).learning_index_threshold,
                now,
                old(self).kanji_pool@,
                old(config).answer_statistics.entries(),
                final(self).kanji_pool@,
                final(config).answer_statistics.entries(),
            ),
    {
        let now = now_secs();
        self.update_kanji_pool_at(config, now);
    }

    /// Fills an empty pool: first with records whose review interval has
    /// elapsed, then, while there is room, with unseen catalog kanji taken in
    /// random order; when neither gives anything, with records that do not
    /// count as learned.
    fn add_new_kanji_to_pool(&mut self, config: &mut Config, now: u64)
        requires
            old(self).kanji_pool@.len() == 0,
        ensures
            final(self).last_dealt_kanji == old(self).last_dealt_kanji,
            final(self).kanjis@ == old(self).kanjis@,
            final(config).learning_index_threshold == old(config).learning_index_threshold,
            final(config).kanji_pool_max_size == old(config).kanji_pool_max_size,
            final(config).review_interval_step == old(config).review_interval_step,
            final(config).profile == old(config).profile,
            final(config).was_used_last == old(config).was_used_last,
            final(config).button_text_option == old(config).button_text_option,
            minimized(
                old(self).kanjis@,
                old(config).kanji_pool_max_size,
                old(config).learning_index_threshold,
                now,
                Seq::<char>::empty(),
                old(config).answer_statistics.entries(),
                final(self).kanji_pool@,
                final(config).answer_statistics.entries(),
            ),
    {
        let ghost e0 = config.answer_statistics.entries();
        let full = self.add_kanji_to_pool_based_on_review_intervals(config, now);
        let ghost e1 = config.answer_statistics.entries();
        let ghost p_rev = self.kanji_pool@;
        let ghost threshold = config.learning_index_threshold;
        proof {
            lemma_same_keys(e0, e1);
        }
        if full {
            proof {
                assert forall|c: char| #[trigger] self.kanji_pool@.contains(c) implies readmitted(e0, e1, c, now) by {
                    assert(has_key(e0, c));
                    let i = choose|i: int| 0 <= i < e0.len() && e0[i].0 == c;
                }
            }
            return;
        }
        let max = config.kanji_pool_max_size as usize;
        // catalog positions of unseen kanji, one per kanji
        let mut unseen: Vec<usize> = Vec::new();
        let mut j: usize = 0;
        while j < self.kanjis.len()
            invariant
                j <= self.kanjis@.len(),
                self.kanjis@ == old(self).kanjis@,
                self.last_dealt_kanji == old(self).last_dealt_kanji,
                e1 == config.answer_statistics.entries(),
                forall|t: int| 0 <= t < unseen@.len() ==> #[trigger] unseen@[t] < self.kanjis@.len()
                    && !has_key(e1, self.kanjis@[unseen@[t] as int].kanji),
                forall|a: int, b: int| 0 <= a < b < unseen@.len() ==>
                    self.kanjis@[unseen@[a] as int].kanji != self.kanjis@[unseen@[b] as int].kanji,
                forall|x: int| 0 <= x < j && !has_key(e1, #[trigger] self.kanjis@[x].kanji) ==>
                    lists_kanji(self.kanjis@, unseen@, self.kanjis@[x].kanji),
            decreases self.kanjis@.len() - j,
        {
            let c = self.kanjis[j].kanji;
            if !config.answer_statistics.contains_key(c) && !has_kanji(&self.kanjis, &unseen, c) {
                let ghost u_before = unseen@;
                unseen.push(j);
                proof {
                    assert(unseen@[u_before.len() as int] == j);
                    assert forall|x: int| 0 <= x < j + 1 && !has_key(e1, #[trigger] self.kanjis@[x].kanji) implies
                        lists_kanji(self.kanjis@, unseen@, self.kanjis@[x].kanji) by {
                        if x < j {
                            let a = choose|a: int| 0 <= a < u_before.len() && self.kanjis@[u_before[a] as int].kanji == self.kanjis@[x].kanji;
                            assert(unseen@[a] == u_before[a]);
                        } else {
                            assert(self.kanjis@[unseen@[u_before.len() as int] as int].kanji == c);
                        }
                    }
                }
            }
            j = j + 1;
        }
        let room = max - self.kanji_pool.len();
        let take = if room < unseen.len() { room } else { unseen.len() };
        let picks = sample_indices(&mut self.rng, unseen.len(), take);
        let mut t: usize = 0;
        while t < take
            invariant
                t <= take,
                take <= unseen@.len(),
                take <= room,
                room == max - p_rev.len(),
                p_rev.len() <= max,
                picks@.len() == take,
                picks@.no_duplicates(),
                forall|q: int| 0 <= q < picks@.len() ==> #[trigger] picks@[q] < unseen@.len(),
                forall|q: int| 0 <= q < unseen@.len() ==> #[trigger] unseen@[q] < self.kanjis@.len()
                    && !has_key(e1, self.kanjis@[unseen@[q] as int].kanji),
                forall|a: int, b: int| 0 <= a < b < unseen@.len() ==>
                    self.kanjis@[unseen@[a] as int].kanji != self.kanjis@[unseen@[b] as int].kanji,
                forall|c: char| p_rev.contains(c) ==> has_key(e0, c),
                p_rev.no_duplicates(),
                self.kanjis@ == old(self).kanjis@,
                self.last_dealt_kanji == old(self).last_dealt_kanji,
                max == old(config).kanji_pool_max_size,
                forall|k: char| has_key(e1, k) == has_key(e0, k),
                self.kanji_pool@.len() == p_rev.len() + t,
                self.kanji_pool@.subrange(0, p_rev.len() as int) == p_rev,
                forall|q: int| 0 <= q < t ==> self.kanji_pool@[p_rev.len() + q]
                    == self.kanjis@[unseen@[#[trigger] picks@[q] as int] as int].kanji,
            decreases take - t,
        {
            let u = unseen[picks[t]];
            assert(picks@[t as int] < unseen@.len());
            assert(u < self.kanjis@.len() && !has_key(e1, self.kanjis@[u as int].kanji));
            let c = self.kanjis[u].kanji;
            self.kanji_pool.push(c);
            t = t + 1;
        }
        proof {
            let pool = self.kanji_pool@;
            let base = p_rev.len() as int;
            assert forall|k: int| 0 <= k < base implies pool[k] == p_rev[k] by {
                assert(pool.subrange(0, base)[k] == p_rev[k]);
            }
            // the added kanji have no record, differ from the tracked ones and from each other
            assert forall|a: int, b: int| 0 <= a < b < pool.len() implies pool[a] != pool[b] by {
                if b >= base {
                    let qb = b - base;
                    assert(pool[b] == self.kanjis@[unseen@[picks@[qb] as int] as int].kanji);
                    assert(!has_key(e0, pool[b]));
                    if a < base {
                        assert(p_rev.contains(pool[a]));
                    } else {
                        let qa = a - base;
                        assert(pool[a] == self.kanjis@[unseen@[picks@[qa] as int] as int].kanji);
                        assert(picks@[qa] != picks@[qb]);
                        if picks@[qa] < picks@[qb] {
                            assert(self.kanjis@[unseen@[picks@[qa] as int] as int].kanji != self.kanjis@[unseen@[picks@[qb] as int] as int].kanji);
                        } else {
                            assert(self.kanjis@[unseen@[picks@[qb] as int] as int].kanji != self.kanjis@[unseen@[picks@[qa] as int] as int].kanji);
                        }
                    }
                }
            }
            assert forall|c: char| p_rev.contains(c) implies pool.contains(c) by {
                let k = choose|k: int| 0 <= k < p_rev.len() && p_rev[k] == c;
                assert(pool[k] == c);
            }
            assert forall|c: char| #[trigger] pool.contains(c) implies p_rev.contains(c)
                || (!has_key(e0, c) && catalog_has(self.kanjis@, c)) by {
                let k = choose|k: int| 0 <= k < pool.len() && pool[k] == c;
                if k < base {
                    assert(p_rev[k] == c);
                } else {
                    let q = k - base;
                    let u = unseen@[picks@[q] as int];
                    assert(self.kanjis@[u as int].kanji == c);
                }
            }
            if pool.len() < max {
                assert(take == unseen@.len());
                lemma_distinct_cover(picks@, unseen@.len());
                assert forall|x: int| 0 <= x < self.kanjis@.len() implies has_key(e0, #[trigger] self.kanjis@[x].kanji)
                    || pool.contains(self.kanjis@[x].kanji) by {
                    if !has_key(e0, self.kanjis@[x].kanji) {
                        let a = choose|a: int| 0 <= a < unseen@.len() && self.kanjis@[unseen@[a] as int].kanji == self.kanjis@[x].kanji;
                        assert(picks@.contains(a as usize));
                        let q = choose|q: int| 0 <= q < picks@.len() && picks@[q] == a as usize;
                        assert(pool[base + q] == self.kanjis@[x].kanji);
                    }
                }
            }
        }
        proof {
            let pool = self.kanji_pool@;
            assert forall|i: int| 0 <= i < e0.len() && pool.contains(e0[i].0) implies p_rev.contains(e0[i].0) by {
                assert(has_key(e0, e0[i].0));
            }
            assert forall|c: char| #[trigger] pool.contains(c) && has_key(e0, c) implies readmitted(e0, e1, c, now) by {
                let i = choose|i: int| 0 <= i < e0.len() && e0[i].0 == c;
            }
            if pool.len() == 0 && max > 0 {
                assert(take == 0);
                assert forall|x: int| 0 <= x < self.kanjis@.len() implies has_key(e0, #[trigger] self.kanjis@[x].kanji) by {
                    if !has_key(e0, self.kanjis@[x].kanji) {
                        assert(!has_key(e1, self.kanjis@[x].kanji));
                        assert(lists_kanji(self.kanjis@, unseen@, self.kanjis@[x].kanji));
                    }
                }
                assert forall|i: int| 0 <= i < e0.len() implies e1[i] == e0[i] by {
                    if is_due(e0[i].1, now) {
                        assert(pool.contains(e0[i].0));
                    }
                }
                assert(e1 =~= e0);
            }
        }
        if self.kanji_pool.len() == 0 && max > 0 {
            // nothing is due and every catalog kanji has a record: fall back
            // on the records that do not count as learned
            let threshold = config.learning_index_threshold;
            let n = config.answer_statistics.len();
            let ghost mut src: Seq<int> = Seq::empty();
            let mut i: usize = 0;
            while i < n
                invariant
                    i <= n,
                    n == e0.len(),
                    keys_unique(e0),
                    e0 == e1,
                    e1 == config.answer_statistics.entries(),
                    threshold == config.learning_index_threshold,
                    max == config.kanji_pool_max_size,
                    max > 0,
                    self.kanjis@ == old(self).kanjis@,
                    self.last_dealt_kanji == old(self).last_dealt_kanji,
                    self.kanji_pool@.len() <= max,
                    src.len() == self.kanji_pool@.len(),
                    forall|k: int| 0 <= k < src.len() ==> 0 <= #[trigger] src[k] < i && e0[src[k]].0 == self.kanji_pool@[k]
                        && !is_mastered(e0[src[k]].1, threshold),
                    forall|a: int, b: int| 0 <= a < b < src.len() ==> src[a] < src[b],
                    self.kanji_pool@.len() == 0 ==> forall|k: int| 0 <= k < i ==> is_mastered(e0[k].1, threshold),
                decreases n - i,
            {
                if self.kanji_pool.len() < max {
                    let v = config.answer_statistics.value_at(i);
                    if v.learning_index < threshold {
                        let c = config.answer_statistics.key_at(i);
                        self.kanji_pool.push(c);
                        proof {
                            src = src.push(i as int);
                        }
                    }
                }
                i = i + 1;
            }
            proof {
                let pool = self.kanji_pool@;
                assert forall|a: int, b: int| 0 <= a < b < pool.len() implies pool[a] != pool[b] by {
                    assert(src[a] < src[b]);
                }
                assert forall|c: char| #[trigger] pool.contains(c) implies unlearned_record(e0, e1, c, threshold) by {
                    let k = choose|k: int| 0 <= k < pool.len() && pool[k] == c;
                    assert(e0[src[k]].0 == c);
                }
                assert forall|c: char| #[trigger] pool.contains(c) implies has_key(e0, c) by {
                    let k = choose|k: int| 0 <= k < pool.len() && pool[k] == c;
                    assert(e0[src[k]].0 == c);
                }
                assert forall|x: int| 0 <= x < e0.len() && pool.contains(e0[x].0) implies !is_mastered(e0[x].1, threshold) by {
                    let k = choose|k: int| 0 <= k < pool.len() && pool[k] == e0[x].0;
                    assert(e0[src[k]].0 == e0[x].0);
                }
                assert(!exists|c: char| #[trigger] pool.contains(c) && !has_key(e0, c));
            }
        }
    }
}

} // verus!


verus! {

/// Distinct indices below `n` are at most `n` in number.
proof fn lemma_distinct_below(s: Seq<usize>, n: nat)
    requires
        s.no_duplicates(),
        forall|i: int| 0 <= i < s.len() ==> s[i] < n,
    ensures
        s.len() <= n,
    decreases n,
{
    if n == 0 {
        if s.len() > 0 {
            assert(s[0] < 0);
        }
    } else {
        let top = (n - 1) as int;
        if exists|k: int| 0 <= k < s.len() && s[k] == top {
            let k = choose|k: int| 0 <= k < s.len() && s[k] == top;
            let t = Seq::new((s.len() - 1) as nat, |j: int| if j < k { s[j] } else { s[j + 1] });
            assert forall|a: int, b: int| 0 <= a < t.len() && 0 <= b < t.len() && a != b implies t[a] != t[b] by {
                let sa = if a < k { a } else { a + 1 };
                let sb = if b < k { b } else { b + 1 };
                assert(t[a] == s[sa] && t[b] == s[sb]);
            }
            assert forall|i: int| 0 <= i < t.len() implies t[i] < top by {
                let si = if i < k { i } else { i + 1 };
                assert(t[i] == s[si]);
                assert(si != k);
            }
            lemma_distinct_below(t, (n - 1) as nat);
        } else {
            lemma_distinct_below(s, (n - 1) as nat);
        }
    }
}

/// `n` distinct indices below `n` take every index below `n`.
pub(crate) proof fn lemma_distinct_cover(s: Seq<usize>, n: nat)
    requires
        s.no_duplicates(),
        s.len() == n,
        forall|i: int| 0 <= i < s.len() ==> s[i] < n,
    ensures
        forall|v: usize| v < n ==> #[trigger] s.contains(v),
{
    assert forall|v: usize| v < n implies #[trigger] s.contains(v) by {
        if !s.contains(v) {
            let t = s.map_values(|x: usize| if x > v { (x - 1) as usize } else { x });
            assert forall|a: int, b: int| 0 <= a < t.len() && 0 <= b < t.len() && a != b implies t[a] != t[b] by {
                assert(s[a] != s[b]);
                assert(s[a] != v && s[b] != v);
            }
            assert forall|i: int| 0 <= i < t.len() implies t[i] < (n - 1) as nat by {
                assert(s[i] != v);
            }
            lemma_distinct_below(t, (n - 1) as nat);
        }
    }
}

} // verus!
