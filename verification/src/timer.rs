//! A countdown that runs once.

use vstd::prelude::*;
use crate::fixed::{difference, difference_spec, elapse, elapse_spec, sum, sum_spec};

verus! {

/// A countdown: it has run out once `elapsed` has reached `duration`, and then
/// stands still. Both count millionths of a second.
#[derive(Clone, Copy, Debug, PartialEq, Eq)]
pub struct Timer {
    pub duration: i64,
    pub elapsed: i64,
}

impl Timer {
    /// Whether the countdown has run out.
    pub open spec fn finished_spec(&self) -> bool {
        self.elapsed >= self.duration
    }

    /// The timer after `dt` has passed: one that has run out stays as it is,
    /// another one advances by `dt`, or not at all where `dt` is negative.
    pub open spec fn tick_spec(&self, dt: int) -> Timer {
        if self.finished_spec() {
            *self
        } else {
            Timer {
                duration: self.duration,
                elapsed: sum_spec(self.elapsed as int, elapse_spec(dt)) as i64,
            }
        }
    }

    /// The time that is left until the countdown runs out.
    pub open spec fn remaining_spec(&self) -> int {
        if self.finished_spec() {
            0
        } else {
            difference_spec(self.duration as int, self.elapsed as int)
        }
    }

    /// A countdown of `duration` with nothing elapsed; a negative `duration`
    /// counts as none.
    pub open spec fn new_spec(duration: int) -> Timer {
        Timer { duration: elapse_spec(duration) as i64, elapsed: 0 }
    }

    /// A countdown of `duration` with nothing elapsed; a negative `duration`
    /// counts as none. One of no duration has run out from the start.
    pub fn new(duration: i64) -> (timer: Timer)
        ensures
            timer == Timer::new_spec(duration as int),
            timer.finished_spec() <==> duration <= 0,
    {
        Timer { duration: elapse(duration), elapsed: 0 }
    }

    /// Whether the countdown has run out.
    #[verifier::when_used_as_spec(finished_spec)]
    pub fn finished(&self) -> (done: bool)
        ensures
            done == self.finished_spec(),
    {
        self.elapsed >= self.duration
    }

    /// Lets `dt` pass.
    pub fn tick(&mut self, dt: i64)
        ensures
            *final(self) == old(self).tick_spec(dt as int),
    {
        if !self.finished() {
            self.elapsed = sum(self.elapsed, elapse(dt));
        }
    }

    /// Winds the countdown back to its start.
    pub fn reset(&mut self)
        ensures
            final(self).duration == old(self).duration,
            final(self).elapsed == 0,
    {
        self.elapsed = 0;
    }

    /// The time that is left until the countdown runs out.
    pub fn remaining(&self) -> (left: i64)
        ensures
            left == self.remaining_spec(),
    {
        if self.finished() {
            0
        } else {
            difference(self.duration, self.elapsed)
        }
    }
}

/// A timer only moves forward: no tick lowers `elapsed`, and none changes
/// `duration`.
pub proof fn lemma_tick_monotone(timer: Timer, dt: int)
    ensures
        timer.tick_spec(dt).elapsed >= timer.elapsed,
        timer.tick_spec(dt).duration == timer.duration,
{
}

/// A timer that has run out stays run out, whatever passes.
pub proof fn lemma_finished_is_final(timer: Timer, dt: int)
    requires
        timer.finished_spec(),
    ensures
        timer.tick_spec(dt) == timer,
        timer.tick_spec(dt).finished_spec(),
{
}

/// A timer that has not run out runs out in the tick in which its elapsed
/// time first reaches its duration.
pub proof fn lemma_tick_finishes(timer: Timer, dt: int)
    requires
        !timer.finished_spec(),
    ensures
        timer.tick_spec(dt).finished_spec() <==> timer.elapsed + elapse_spec(dt) >= timer.duration,
{
}

} // verus!
