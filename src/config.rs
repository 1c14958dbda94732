//! The user's profile configuration: thresholds of the scheduler, the review
//! record store, and the answer outcome rule that updates it.

use vstd::prelude::*;
use vstd::string::StringExecFns;
use crate::clock::{now_secs};
use crate::game::AnswerData;
use crate::store::{ReviewStore, StatValue};

verus! {

/// Seconds in one minute.
pub const SECONDS_PER_MINUTE: u64 = 60;

/// The default growth of a review interval on mastery: five minutes.
pub const REVIEW_INTERVAL_STEP: u64 = 5 * SECONDS_PER_MINUTE;

/// How answer buttons are labelled.
#[derive(Clone, Copy, Debug, PartialEq, Eq, Structural)]
pub enum ButtonTextOption {
    Kana,
    Romaji,
    Meaning,
}

/// One of the three profile slots.
#[derive(Clone, Copy, Debug, PartialEq, Eq, Structural)]
pub enum ProfileEnum {
    Profile1,
    Profile2,
    Profile3,
}

/// A named profile.
#[derive(Clone, Debug)]
pub struct Profile {
    pub name: String,
    pub id: ProfileEnum,
}

/// Everything a profile stores.
pub struct Config {
    pub profile: Profile,
    pub was_used_last: bool,
    pub button_text_option: ButtonTextOption,
    /// Learning index at which an item counts as learned.
    pub learning_index_threshold: i32,
    /// Largest size of the pool of items under drill.
    pub kanji_pool_max_size: u32,
    /// Seconds added to an item's review interval when it is learned.
    pub review_interval_step: u64,
    pub answer_statistics: ReviewStore,
}

/// The file that holds a profile, by slot.
pub open spec fn profile_file_name(profile: ProfileEnum) -> Seq<char> {
    match profile {
        ProfileEnum::Profile1 => "./config1.json"@,
        ProfileEnum::Profile2 => "./config2.json"@,
        ProfileEnum::Profile3 => "./config3.json"@,
    }
}

/// The label shown for a profile slot.
pub open spec fn profile_label(profile: ProfileEnum) -> Seq<char> {
    match profile {
        ProfileEnum::Profile1 => "Profile 1"@,
        ProfileEnum::Profile2 => "Profile 2"@,
        ProfileEnum::Profile3 => "Profile 3"@,
    }
}

/// `x + 1`, staying at the largest value.
pub open spec fn inc_index(x: i32) -> i32 {
    if x < i32::MAX { (x + 1) as i32 } else { x }
}

/// `x - 1`, staying at the smallest value.
pub open spec fn dec_index(x: i32) -> i32 {
    if x > i32::MIN { (x - 1) as i32 } else { x }
}

/// `a + b`, staying at the largest value.
pub open spec fn sat_add(a: u64, b: u64) -> u64 {
    if a + b <= u64::MAX { (a + b) as u64 } else { u64::MAX }
}

/// The record of an item answered for the first time at `now`.
pub open spec fn fresh_record(now: u64, step: u64) -> StatValue {
    StatValue { learning_index: 0, last_review_time: now, review_interval: step }
}

/// The learning state after one answer: a correct one raises the learning
/// index by one and, when that makes it reach `threshold`, grows the review
/// interval by `step`; a wrong one lowers the index by one.
pub open spec fn answer_outcome(v: StatValue, correct: bool, threshold: i32, step: u64) -> StatValue {
    if correct {
        let idx = inc_index(v.learning_index);
        StatValue {
            learning_index: idx,
            review_interval: if v.learning_index < threshold <= idx {
                sat_add(v.review_interval, step)
            } else {
                v.review_interval
            },
            ..v
        }
    } else {
        StatValue { learning_index: dec_index(v.learning_index), ..v }
    }
}

/// Among the profiles found, in slot order, flagged by whether each was used
/// last: the first one used last, else the last one found.
pub fn pick_profile(used_last: &Vec<bool>) -> (r: Option<usize>)
    ensures
        r is None <==> used_last@.len() == 0,
        r matches Some(i) ==> i < used_last@.len() && forall|j: int| 0 <= j < i ==> !used_last@[j],
        r matches Some(i) ==> used_last@[i as int] || (i == used_last@.len() - 1 && forall|j: int|
            0 <= j < used_last@.len() ==> !used_last@[j]),
{
    let mut i: usize = 0;
    while i < used_last.len()
        invariant
            i <= used_last@.len(),
            forall|j: int| 0 <= j < i ==> !used_last@[j],
        decreases used_last@.len() - i,
    {
        if used_last[i] {
            return Some(i);
        }
        i = i + 1;
    }
    if used_last.len() == 0 {
        None
    } else {
        Some(used_last.len() - 1)
    }
}

/// The learning state after one answer; see `answer_outcome`.
pub fn answer_outcome_of(v: StatValue, correct: bool, threshold: i32, step: u64) -> (r: StatValue)
    ensures
        r == answer_outcome(v, correct, threshold, step),
{
    if correct {
        let idx = if v.learning_index < i32::MAX { v.learning_index + 1 } else { v.learning_index };
        let interval = if v.learning_index < threshold && threshold <= idx {
            v.review_interval.saturating_add(step)
        } else {
            v.review_interval
        };
        StatValue { learning_index: idx, review_interval: interval, ..v }
    } else {
        let idx = if v.learning_index > i32::MIN { v.learning_index - 1 } else { v.learning_index };
        StatValue { learning_index: idx, ..v }
    }
}

/// The records `m` after an answer on kanji `k` at `now`: its record, or a
/// fresh one, takes the outcome of the answer.
pub open spec fn after_answer(
    m: Map<char, StatValue>,
    k: char,
    correct: bool,
    now: u64,
    threshold: i32,
    step: u64,
) -> Map<char, StatValue> {
    m.insert(
        k,
        answer_outcome(if m.contains_key(k) { m[k] } else { fresh_record(now, step) }, correct, threshold, step),
    )
}

impl ProfileEnum {
    /// The label shown for this profile slot.
    pub fn label(&self) -> (r: String)
        ensures
            r@ == profile_label(*self),
    {
        match self {
            ProfileEnum::Profile1 => String::from_str("Profile 1"),
            ProfileEnum::Profile2 => String::from_str("Profile 2"),
            ProfileEnum::Profile3 => String::from_str("Profile 3"),
        }
    }
}

impl Default for Profile {
    fn default() -> (r: Self)
        ensures
            r.name@ == "Default profile"@,
            r.id == ProfileEnum::Profile1,
    {
        Profile { name: String::from_str("Default profile"), id: ProfileEnum::Profile1 }
    }
}

impl StatValue {
    /// The record of an item answered for the first time at `now`.
    pub fn new_at(now: u64, step: u64) -> (r: Self)
        ensures
            r == fresh_record(now, step),
    {
        StatValue { learning_index: 0, last_review_time: now, review_interval: step }
    }
}

impl Default for StatValue {
    fn default() -> (r: Self)
        ensures
            r.learning_index == 0,
            r.review_interval == REVIEW_INTERVAL_STEP,
    {
        StatValue::new_at(now_secs(), REVIEW_INTERVAL_STEP)
    }
}

impl Default for Config {
    fn default() -> (r: Self)
        ensures
            r.profile.id == ProfileEnum::Profile1,
            !r.was_used_last,
            r.button_text_option == ButtonTextOption::Kana,
            r.learning_index_threshold == 5,
            r.kanji_pool_max_size == 10,
            r.review_interval_step == REVIEW_INTERVAL_STEP,
            r.answer_statistics.entries().len() == 0,
    {
        Config {
            profile: Profile::default(),
            was_used_last: false,
            button_text_option: ButtonTextOption::Kana,
            learning_index_threshold: 5,
            kanji_pool_max_size: 10,
            review_interval_step: REVIEW_INTERVAL_STEP,
            answer_statistics: ReviewStore::new(),
        }
    }
}

impl Config {
    /// `minutes` expressed in seconds.
    pub fn minutes_to_seconds(minutes: u64) -> (r: u64)
        requires
            minutes * SECONDS_PER_MINUTE <= u64::MAX,
        ensures
            r == minutes * SECONDS_PER_MINUTE,
    {
        minutes * SECONDS_PER_MINUTE
    }

    /// The file that holds the profile in slot `profile`.
    pub fn get_filename(profile: ProfileEnum) -> (r: String)
        ensures
            r@ == profile_file_name(profile),
    {
        match profile {
            ProfileEnum::Profile1 => String::from_str("./config1.json"),
            ProfileEnum::Profile2 => String::from_str("./config2.json"),
            ProfileEnum::Profile3 => String::from_str("./config3.json"),
        }
    }

    /// The file that holds this profile.
    pub fn filename(&self) -> (r: String)
        ensures
            r@ == profile_file_name(self.profile.id),
    {
        Self::get_filename(self.profile.id)
    }

    /// Marks every item as reviewed at `now`; nothing else changes.
    pub fn reset_review_times_at(&mut self, now: u64)
        ensures
            final(self).answer_statistics.entries().len() == old(self).answer_statistics.entries().len(),
            forall|i: int| 0 <= i < old(self).answer_statistics.entries().len() ==> {
                let (k0, v0) = #[trigger] old(self).answer_statistics.entries()[i];
                final(self).answer_statistics.entries()[i] == (k0, StatValue { last_review_time: now, ..v0 })
            },
            final(self).learning_index_threshold == old(self).learning_index_threshold,
            final(self).kanji_pool_max_size == old(self).kanji_pool_max_size,
            final(self).review_interval_step == old(self).review_interval_step,
            final(self).profile == old(self).profile,
            final(self).was_used_last == old(self).was_used_last,
            final(self).button_text_option == old(self).button_text_option,
    {
        let n = self.answer_statistics.len();
        let mut i: usize = 0;
        while i < n
            invariant
                i <= n,
                n == old(self).answer_statistics.entries().len(),
                self.answer_statistics.entries().len() == n,
                forall|j: int| 0 <= j < n ==> {
                    let (k0, v0) = #[trigger] old(self).answer_statistics.entries()[j];
                    self.answer_statistics.entries()[j] == if j < i {
                        (k0, StatValue { last_review_time: now, ..v0 })
                    } else {
                        (k0, v0)
                    }
                },
                self.learning_index_threshold == old(self).learning_index_threshold,
                self.kanji_pool_max_size == old(self).kanji_pool_max_size,
                self.review_interval_step == old(self).review_interval_step,
                self.profile == old(self).profile,
                self.was_used_last == old(self).was_used_last,
                self.button_text_option == old(self).button_text_option,
            decreases n - i,
        {
            let v = self.answer_statistics.value_at(i);
            self.answer_statistics.set_value_at(i, StatValue { last_review_time: now, ..v });
            i = i + 1;
        }
    }

    /// Marks every item as reviewed now.
    pub fn reset_review_times(&mut self)
        ensures
            final(self).answer_statistics.entries().len() == old(self).answer_statistics.entries().len(),
            forall|i: int| 0 <= i < old(self).answer_statistics.entries().len() ==> {
                let (k0, v0) = #[trigger] old(self).answer_statistics.entries()[i];
                let (k1, v1) = final(self).answer_statistics.entries()[i];
                k1 == k0 && v1.learning_index == v0.learning_index && v1.review_interval == v0.review_interval
            },
            final(self).learning_index_threshold == old(self).learning_index_threshold,
            final(self).kanji_pool_max_size == old(self).kanji_pool_max_size,
            final(self).review_interval_step == old(self).review_interval_step,
            final(self).profile == old(self).profile,
            final(self).was_used_last == old(self).was_used_last,
            final(self).button_text_option == old(self).button_text_option,
    {
        let now = now_secs();
        self.reset_review_times_at(now);
    }

    /// Applies the answer reported by a button pressed at `now` to the
    /// record of the tested kanji, creating the record if it has none.
    /// Returns whether the answer was correct.
    pub fn check_answer_at(&mut self, ans_data: &AnswerData, now: u64) -> (correct: bool)
        ensures
            correct == (ans_data.index_to_test == ans_data.correct_index),
            final(self).answer_statistics@ == after_answer(
                old(self).answer_statistics@,
                ans_data.kanji,
                correct,
                now,
                old(self).learning_index_threshold,
                old(self).review_interval_step,
            ),
            final(self).learning_index_threshold == old(self).learning_index_threshold,
            final(self).kanji_pool_max_size == old(self).kanji_pool_max_size,
            final(self).review_interval_step == old(self).review_interval_step,
            final(self).profile == old(self).profile,
            final(self).was_used_last == old(self).was_used_last,
            final(self).button_text_option == old(self).button_text_option,
    {
        let correct = ans_data.is_correct();
        let v = match self.answer_statistics.get(ans_data.kanji) {
            Some(v) => v,
            None => StatValue::new_at(now, self.review_interval_step),
        };
        let new_v = answer_outcome_of(v, correct, self.learning_index_threshold, self.review_interval_step);
        self.answer_statistics.insert(ans_data.kanji, new_v);
        correct
    }

    /// Applies the answer reported by a button pressed now; see
    /// `check_answer_at`. Returns whether the answer was correct.
    pub fn check_answer(&mut self, ans_data: &AnswerData) -> (correct: bool)
        ensures
            correct == (ans_data.index_to_test == ans_data.correct_index),
            exists|now: u64| final(self).answer_statistics@ == #[trigger] after_answer(
                old(self).answer_statistics@,
                ans_data.kanji,
                correct,
                now,
                old(self).learning_index_threshold,
                old(self).review_interval_step,
            ),
            final(self).learning_index_threshold == old(self).learning_index_threshold,
            final(self).kanji_pool_max_size == old(self).kanji_pool_max_size,
            final(self).review_interval_step == old(self).review_interval_step,
            final(self).profile == old(self).profile,
            final(self).was_used_last == old(self).was_used_last,
            final(self).button_text_option == old(self).button_text_option,
    {
        let now = now_secs();
        let ghost before = self.answer_statistics@;
        let correct = self.check_answer_at(ans_data, now);
        assert(self.answer_statistics@ == after_answer(
            before,
            ans_data.kanji,
            correct,
            now,
            self.learning_index_threshold,
            self.review_interval_step,
        ));
        correct
    }
}

} // verus!
