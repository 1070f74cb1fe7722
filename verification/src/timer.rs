//! Timers that count elapsed microseconds against a duration.

use vstd::prelude::*;

verus! {

/// What a timer does when it reaches its duration.
#[derive(Clone, Copy, Debug, PartialEq, Eq, Structural)]
pub enum TimerMode {
    /// It stops there.
    Once,
    /// It starts over, keeping what elapsed beyond the duration.
    Repeating,
}

/// Elapsed time held against a duration, both in microseconds.
#[derive(Clone, Copy, Debug, PartialEq, Eq, Structural)]
pub struct Timer {
    pub duration: u64,
    pub elapsed: u64,
    pub mode: TimerMode,
    pub finished: bool,
    pub times_finished_this_tick: u32,
}

/// `v`, or the largest `u64` where `v` is beyond it.
pub open spec fn cap64(v: int) -> u64 {
    if v > u64::MAX {
        u64::MAX
    } else {
        v as u64
    }
}

/// `v`, or the largest `u32` where `v` is beyond it.
pub open spec fn cap32(v: int) -> u32 {
    if v > u32::MAX {
        u32::MAX
    } else {
        v as u32
    }
}

impl Timer {
    /// The timer after `delta` microseconds more. A timer that ran once and
    /// has finished stays as it is, and no longer counts as just finished. A
    /// repeating timer counts how often it finished during the tick and
    /// keeps the remainder.
    pub open spec fn ticked(self, delta: u64) -> Timer {
        let total = cap64(self.elapsed + delta);
        if self.mode == TimerMode::Once && self.finished {
            Timer { times_finished_this_tick: 0, ..self }
        } else if total < self.duration {
            Timer { elapsed: total, finished: false, times_finished_this_tick: 0, ..self }
        } else if self.mode == TimerMode::Once {
            Timer { elapsed: self.duration, finished: true, times_finished_this_tick: 1, ..self }
        } else if self.duration == 0 {
            Timer { elapsed: 0, finished: true, times_finished_this_tick: u32::MAX, ..self }
        } else {
            Timer {
                elapsed: (total % self.duration) as u64,
                finished: true,
                times_finished_this_tick: cap32(total as int / self.duration as int),
                ..self
            }
        }
    }

    /// Time left until the duration is reached.
    pub open spec fn remaining_spec(self) -> u64 {
        if self.elapsed < self.duration {
            (self.duration - self.elapsed) as u64
        } else {
            0
        }
    }

    /// A timer of the given duration that has not started.
    pub open spec fn fresh(duration: u64, mode: TimerMode) -> Timer {
        Timer { duration, elapsed: 0, mode, finished: false, times_finished_this_tick: 0 }
    }

    /// A timer of the given duration that has not started.
    pub fn new(duration: u64, mode: TimerMode) -> (t: Timer)
        ensures
            t == Timer::fresh(duration, mode),
    {
        Timer { duration, elapsed: 0, mode, finished: false, times_finished_this_tick: 0 }
    }

    /// Advances the timer by `delta` microseconds.
    pub fn tick(&mut self, delta: u64)
        ensures
            *final(self) == old(self).ticked(delta),
    {
        if self.mode == TimerMode::Once && self.finished {
            self.times_finished_this_tick = 0;
            return ;
        }
        let total: u64 = if delta > u64::MAX - self.elapsed {
            u64::MAX
        } else {
            self.elapsed + delta
        };
        if total < self.duration {
            self.elapsed = total;
            self.finished = false;
            self.times_finished_this_tick = 0;
        } else if self.mode == TimerMode::Once {
            self.elapsed = self.duration;
            self.finished = true;
            self.times_finished_this_tick = 1;
        } else if self.duration == 0 {
            self.elapsed = 0;
            self.finished = true;
            self.times_finished_this_tick = u32::MAX;
        } else {
            let times: u64 = total / self.duration;
            self.elapsed = total % self.duration;
            self.finished = true;
            self.times_finished_this_tick = if times > u32::MAX as u64 {
                u32::MAX
            } else {
                times as u32
            };
        }
    }

    /// Whether the duration has been reached.
    pub fn finished(&self) -> (b: bool)
        ensures
            b == self.finished,
    {
        self.finished
    }

    /// Whether the duration was reached during the last tick.
    pub fn just_finished(&self) -> (b: bool)
        ensures
            b == (self.times_finished_this_tick > 0),
    {
        self.times_finished_this_tick > 0
    }

    /// Time left until the duration is reached.
    pub fn remaining(&self) -> (r: u64)
        ensures
            r == self.remaining_spec(),
    {
        if self.elapsed < self.duration {
            self.duration - self.elapsed
        } else {
            0
        }
    }

    /// The timer started over.
    pub open spec fn restarted(self) -> Timer {
        Timer { elapsed: 0, finished: false, times_finished_this_tick: 0, ..self }
    }

    /// Starts the timer over.
    pub fn reset(&mut self)
        ensures
            *final(self) == old(self).restarted(),
    {
        self.elapsed = 0;
        self.finished = false;
        self.times_finished_this_tick = 0;
    }

    /// Changes the duration and leaves the elapsed time as it is.
    pub fn set_duration(&mut self, duration: u64)
        ensures
            *final(self) == (Timer { duration, ..*old(self) }),
    {
        self.duration = duration;
    }
}

/// A timer that ran once and finished stays finished, whatever time passes.
pub proof fn lemma_once_stays_finished(t: Timer, delta: u64)
    requires
        t.mode == TimerMode::Once,
        t.finished,
    ensures
        t.ticked(delta).finished,
        t.ticked(delta).times_finished_this_tick == 0,
{
}

/// A timer that runs once reports that it just finished on the tick that
/// brings the elapsed time to the duration, and on no other.
pub proof fn lemma_once_finishes_once(t: Timer, delta: u64)
    requires
        t.mode == TimerMode::Once,
        !t.finished,
    ensures
        t.ticked(delta).times_finished_this_tick > 0 <==> t.elapsed + delta >= t.duration,
        t.ticked(delta).finished <==> t.elapsed + delta >= t.duration,
{
}

} // verus!
