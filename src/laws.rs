//! Properties of the scheduler that relate its results to its inputs, stated
//! over the same spec functions that the operations' contracts use.

use vstd::prelude::*;
use crate::config::answer_outcome;
use crate::dealer::{is_due, is_mastered, mastered_in, pool_update};
use crate::kanji::KanjiRecord;
use crate::store::{has_key, lemma_map_of_entry, StatValue};

verus! {

/// The learning state after `n` correct answers in a row.
pub open spec fn after_correct_answers(v: StatValue, n: nat, threshold: i32, step: u64) -> StatValue
    decreases n,
{
    if n == 0 {
        v
    } else {
        answer_outcome(after_correct_answers(v, (n - 1) as nat, threshold, step), true, threshold, step)
    }
}

/// After a pool update the pool never holds more than its bound.
pub proof fn lemma_pool_bound(
    kanjis: Seq<KanjiRecord>,
    max: u32,
    threshold: i32,
    now: u64,
    old_pool: Seq<char>,
    e0: Seq<(char, StatValue)>,
    new_pool: Seq<char>,
    e1: Seq<(char, StatValue)>,
)
    requires
        pool_update(kanjis, max, threshold, now, old_pool, e0, new_pool, e1),
    ensures
        new_pool.len() <= max,
        new_pool.no_duplicates(),
{
}

/// After a pool update with a bound of at least one, the pool is not empty
/// while the catalog has a kanji that does not count as learned: one without
/// a record, or with a learning index below the threshold.
pub proof fn lemma_pool_nonempty(
    kanjis: Seq<KanjiRecord>,
    max: u32,
    threshold: i32,
    now: u64,
    old_pool: Seq<char>,
    e0: Seq<(char, StatValue)>,
    new_pool: Seq<char>,
    e1: Seq<(char, StatValue)>,
)
    requires
        pool_update(kanjis, max, threshold, now, old_pool, e0, new_pool, e1),
        max >= 1,
        exists|j: int| 0 <= j < kanjis.len() && !mastered_in(e0, kanjis[j].kanji, threshold),
    ensures
        new_pool.len() > 0,
{
    if new_pool.len() == 0 {
        let j = choose|j: int| 0 <= j < kanjis.len() && !mastered_in(e0, kanjis[j].kanji, threshold);
        let k = kanjis[j].kanji;
        assert(has_key(e0, k));
        let i = choose|i: int| 0 <= i < e0.len() && e0[i].0 == k;
        lemma_map_of_entry(e0, i);
        assert(is_mastered(e0[i].1, threshold));
    }
}

/// A record that a pool update changes, or a learned one that it brings into
/// the pool, was due for review and comes back with its learning index
/// halved, rounded down; its interval and review time stay.
pub proof fn lemma_demotion_halves(
    kanjis: Seq<KanjiRecord>,
    max: u32,
    threshold: i32,
    now: u64,
    old_pool: Seq<char>,
    e0: Seq<(char, StatValue)>,
    new_pool: Seq<char>,
    e1: Seq<(char, StatValue)>,
    i: int,
)
    requires
        pool_update(kanjis, max, threshold, now, old_pool, e0, new_pool, e1),
        0 <= i < e0.len(),
        e1[i].1 != e0[i].1 || (new_pool.contains(e0[i].0) && is_mastered(e0[i].1, threshold)),
    ensures
        e1[i].1.learning_index == e0[i].1.learning_index / 2,
        e1[i].1.review_interval == e0[i].1.review_interval,
        e1[i].1.last_review_time == e0[i].1.last_review_time,
        is_due(e0[i].1, now),
        new_pool.contains(e0[i].0),
{
    let v = e0[i].1;
    assert(i32::MIN <= v.learning_index / 2 <= i32::MAX) by (nonlinear_arith)
        requires
            i32::MIN <= v.learning_index <= i32::MAX,
    ;
}

/// A pool update leaves a pool alone, records included, when the pool is
/// non-empty, within its bound, holds each kanji once and no learned one.
pub proof fn lemma_pool_update_idempotent(
    kanjis: Seq<KanjiRecord>,
    max: u32,
    threshold: i32,
    now: u64,
    old_pool: Seq<char>,
    e0: Seq<(char, StatValue)>,
    new_pool: Seq<char>,
    e1: Seq<(char, StatValue)>,
)
    requires
        pool_update(kanjis, max, threshold, now, old_pool, e0, new_pool, e1),
        0 < old_pool.len() <= max,
        old_pool.no_duplicates(),
        forall|k: int| 0 <= k < old_pool.len() ==> !mastered_in(e0, old_pool[k], threshold),
    ensures
        new_pool == old_pool,
        e1 == e0,
{
}

/// After `n` correct answers in a row the learning index has risen by exactly
/// `n`, and the review interval has grown by one step if and only if the
/// index crossed the threshold on the way.
pub proof fn lemma_correct_answers_grow(v: StatValue, n: nat, threshold: i32, step: u64)
    requires
        v.learning_index + n <= i32::MAX,
        v.review_interval + step <= u64::MAX,
    ensures
        after_correct_answers(v, n, threshold, step).learning_index == v.learning_index + n,
        after_correct_answers(v, n, threshold, step).review_interval == if v.learning_index < threshold
            <= v.learning_index + n {
            v.review_interval + step
        } else {
            v.review_interval as int
        },
        after_correct_answers(v, n, threshold, step).last_review_time == v.last_review_time,
    decreases n,
{
    if n > 0 {
        lemma_correct_answers_grow(v, (n - 1) as nat, threshold, step);
    }
}

} // verus!
