//! The falling-kanji backdrop of the menu: which screen column may start a
//! new trail of kanji, and when a column becomes free again.

use vstd::prelude::*;
use rand::rngs::StdRng;
use crate::clock::{elapsed_spec, now_millis, Timer};
use crate::random::{entropy_rng, gen_below};

verus! {

/// Width of one column in pixels.
pub const COLUMN_WIDTH: u32 = 50;

/// Number of columns across the initial window width of 1600 pixels.
pub const COLUMNS_NUM: u32 = 1600 / COLUMN_WIDTH;

/// Milliseconds between two attempts to start a trail.
pub const DROP_INTERVAL_MS: u64 = 100;

/// Milliseconds for which a column stays taken after a trail started in it.
pub const COLUMN_INTERVAL_MS: u64 = 10_000;

/// One screen column.
#[derive(Clone, Copy, Debug)]
pub struct Column {
    pub is_in_use: bool,
    pub timer: Timer,
}

impl Default for Column {
    fn default() -> (r: Column)
        ensures
            !r.is_in_use,
            r.timer.length() == COLUMN_INTERVAL_MS,
    {
        Column { is_in_use: false, timer: Timer::new(COLUMN_INTERVAL_MS) }
    }
}

/// Spawning state of the backdrop.
pub struct KanjiFall {
    pub spawn_timer: Timer,
    pub columns: Vec<Column>,
    pub rng: StdRng,
}

impl KanjiFall {
    /// All columns free, timers started now.
    pub fn new() -> (r: KanjiFall)
        ensures
            r.columns@.len() == COLUMNS_NUM,
            forall|i: int| 0 <= i < r.columns@.len() ==> !r.columns@[i].is_in_use,
            r.spawn_timer.length() == DROP_INTERVAL_MS,
    {
        let now = now_millis();
        let mut columns: Vec<Column> = Vec::new();
        let mut i: u32 = 0;
        while i < COLUMNS_NUM
            invariant
                i <= COLUMNS_NUM,
                columns@.len() == i,
                forall|j: int| 0 <= j < columns@.len() ==> !columns@[j].is_in_use,
            decreases COLUMNS_NUM - i,
        {
            columns.push(Column { is_in_use: false, timer: Timer::started_at(now, COLUMN_INTERVAL_MS) });
            i = i + 1;
        }
        KanjiFall { spawn_timer: Timer::started_at(now, DROP_INTERVAL_MS), columns, rng: entropy_rng() }
    }

    /// At `now`, once the spawn timer has run out, draws a column; a free one
    /// is taken and returned, a taken one gives nothing.
    pub fn spawn_column_at(&mut self, now: u64) -> (r: Option<u32>)
        ensures
            final(self).columns@.len() == old(self).columns@.len(),
            r matches Some(c) ==> c < old(self).columns@.len() && !old(self).columns@[c as int].is_in_use
                && final(self).columns@ == old(self).columns@.update(c as int, Column { is_in_use: true, ..old(self).columns@[c as int] }),
            r is None ==> final(self).columns@ == old(self).columns@,
    {
        if !self.spawn_timer.check_at(now) || self.columns.len() == 0 {
            return None;
        }
        let c = gen_below(&mut self.rng, self.columns.len());
        let col = self.columns[c];
        if col.is_in_use || c > u32::MAX as usize {
            return None;
        }
        self.columns.set(c, Column { is_in_use: true, ..col });
        Some(c as u32)
    }

    /// `spawn_column_at` now.
    pub fn spawn_column(&mut self) -> (r: Option<u32>)
        ensures
            final(self).columns@.len() == old(self).columns@.len(),
            r matches Some(c) ==> c < old(self).columns@.len() && !old(self).columns@[c as int].is_in_use
                && final(self).columns@[c as int].is_in_use,
            r is None ==> final(self).columns@ == old(self).columns@,
    {
        self.spawn_column_at(now_millis())
    }

    /// At `now`, frees every column whose timer has run out, and starts its
    /// timer again.
    pub fn release_columns_at(&mut self, now: u64)
        ensures
            final(self).columns@.len() == old(self).columns@.len(),
            forall|i: int| 0 <= i < old(self).columns@.len() ==> {
                let c0 = #[trigger] old(self).columns@[i];
                let c1 = final(self).columns@[i];
                &&& c1.timer.length() == c0.timer.length()
                &&& c1.is_in_use == (c0.is_in_use && elapsed_spec(c0.timer.started(), now) <= c0.timer.length())
            },
    {
        let mut i: usize = 0;
        while i < self.columns.len()
            invariant
                i <= self.columns@.len(),
                self.columns@.len() == old(self).columns@.len(),
                forall|j: int| i <= j < self.columns@.len() ==> self.columns@[j] == old(self).columns@[j],
                forall|j: int| 0 <= j < i ==> {
                    let c0 = #[trigger] old(self).columns@[j];
                    let c1 = self.columns@[j];
                    &&& c1.timer.length() == c0.timer.length()
                    &&& c1.is_in_use == (c0.is_in_use && elapsed_spec(c0.timer.started(), now) <= c0.timer.length())
                },
            decreases self.columns@.len() - i,
        {
            let col = self.columns[i];
            let mut timer = col.timer;
            let fired = timer.check_at(now);
            let in_use = col.is_in_use && !fired;
            self.columns.set(i, Column { is_in_use: in_use, timer });
            i = i + 1;
        }
    }

    /// `release_columns_at` now.
    pub fn release_columns(&mut self)
        ensures
            final(self).columns@.len() == old(self).columns@.len(),
    {
        self.release_columns_at(now_millis())
    }
}

} // verus!
