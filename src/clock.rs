//! Time as plain numbers: wall-clock readings in milliseconds since the Unix
//! epoch, and a resettable countdown timer built on them.

use vstd::prelude::*;

verus! {

/// Milliseconds in one second.
pub const MILLIS_PER_SECOND: u64 = 1000;

/// Time elapsed from `since` to `now`; a reading that went backwards counts
/// as no time at all.
pub open spec fn elapsed_spec(since: u64, now: u64) -> nat {
    if now >= since {
        (now - since) as nat
    } else {
        0
    }
}

/// Relies on `std::time::SystemTime::now`: the current wall-clock time in
/// milliseconds since the Unix epoch. A clock set before the epoch reads as 0.
/// Nothing is promised of the value: it depends on the machine's clock.
#[verifier::external_body]
pub(crate) fn now_millis() -> (r: u64) {
    match std::time::SystemTime::now().duration_since(std::time::UNIX_EPOCH) {
        Ok(d) => d.as_millis() as u64,
        Err(_) => 0,
    }
}

/// The current wall-clock time in whole seconds since the Unix epoch.
pub fn now_secs() -> (r: u64) {
    now_millis() / MILLIS_PER_SECOND
}

/// Time elapsed from `since` to `now`, clamped to zero when the clock went
/// backwards.
pub fn elapsed(since: u64, now: u64) -> (r: u64)
    ensures
        r == elapsed_spec(since, now),
{
    now.saturating_sub(since)
}

/// A countdown that fires once its duration has passed since it was last
/// started; times in milliseconds.
#[derive(Clone, Copy, Debug)]
pub struct Timer {
    time: u64,
    duration: u64,
}

impl Timer {
    /// When the timer was last started.
    pub closed spec fn started(self) -> u64 {
        self.time
    }

    /// How long the timer runs.
    pub closed spec fn length(self) -> u64 {
        self.duration
    }

    /// A timer of `duration_ms` started at `now`.
    pub fn started_at(now: u64, duration_ms: u64) -> (r: Timer)
        ensures
            r.started() == now,
            r.length() == duration_ms,
    {
        Timer { time: now, duration: duration_ms }
    }

    /// A timer of `duration_ms` started now.
    pub fn new(duration_ms: u64) -> (r: Timer)
        ensures
            r.length() == duration_ms,
    {
        Timer::started_at(now_millis(), duration_ms)
    }

    /// Starts the timer again at `now`.
    pub fn reset_at(&mut self, now: u64)
        ensures
            final(self).started() == now,
            final(self).length() == old(self).length(),
    {
        self.time = now;
    }

    /// Starts the timer again now.
    pub fn reset(&mut self)
        ensures
            final(self).length() == old(self).length(),
    {
        self.reset_at(now_millis());
    }

    /// Whether the timer has run out at `now`; if so it starts again at `now`.
    pub fn check_at(&mut self, now: u64) -> (fired: bool)
        ensures
            fired == (elapsed_spec(old(self).started(), now) > old(self).length()),
            fired ==> final(self).started() == now,
            !fired ==> final(self).started() == old(self).started(),
            final(self).length() == old(self).length(),
    {
        if elapsed(self.time, now) > self.duration {
            self.reset_at(now);
            true
        } else {
            false
        }
    }

    /// Whether the timer has run out; if so it starts again.
    pub fn check(&mut self) -> (fired: bool)
        ensures
            !fired ==> final(self).started() == old(self).started(),
            final(self).length() == old(self).length(),
    {
        self.check_at(now_millis())
    }

    /// Sets how long the timer runs.
    pub fn set_duration(&mut self, duration_ms: u64)
        ensures
            final(self).length() == duration_ms,
            final(self).started() == old(self).started(),
    {
        self.duration = duration_ms;
    }
}

impl Default for Timer {
    fn default() -> (r: Timer)
        ensures
            r.length() == 0,
    {
        Timer::new(0)
    }
}

} // verus!
