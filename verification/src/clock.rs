//! When the next tick is due.
//!
//! The clock is fed the time that has passed and hands out ticks at a fixed
//! rate, however often it is asked: time is saved up, and each tick granted
//! takes one period out of the savings. Time is counted in whole nanoseconds.
//! The clock also remembers whether the simulation is paused.

use vstd::prelude::*;
use crate::error::ConfigError;

verus! {

/// Nanoseconds in a second.
pub const NANOS_PER_SECOND: u64 = 1_000_000_000;

/// What a clock knows.
pub struct ClockState {
    /// The time from one tick to the next, in nanoseconds.
    pub period: u64,
    /// The time saved up towards the next tick, in nanoseconds.
    pub residual: u64,
    /// Whether the simulation is paused.
    pub paused: bool,
}

impl ClockState {
    /// The clock after so much time has passed. The savings stop growing at
    /// the largest number that fits.
    pub open spec fn advance(self, elapsed: u64) -> ClockState {
        ClockState {
            residual: if self.residual + elapsed > u64::MAX {
                u64::MAX
            } else {
                (self.residual + elapsed) as u64
            },
            ..self
        }
    }

    /// A tick is due when more than one period has been saved up.
    pub open spec fn due(self) -> bool {
        self.residual > self.period
    }

    /// The clock after it was asked for a tick: a tick that is due costs one
    /// period.
    pub open spec fn asked(self) -> ClockState {
        if self.due() {
            ClockState { residual: (self.residual - self.period) as u64, ..self }
        } else {
            self
        }
    }

    /// The clock after the pause was switched over.
    pub open spec fn toggled(self) -> ClockState {
        ClockState { paused: !self.paused, ..self }
    }
}

/// The clock of a simulation.
#[derive(Clone, Copy, Debug)]
pub struct SimulationClock {
    period: u64,
    residual: u64,
    paused: bool,
}

impl View for SimulationClock {
    type V = ClockState;

    closed spec fn view(&self) -> ClockState {
        ClockState { period: self.period, residual: self.residual, paused: self.paused }
    }
}

impl SimulationClock {
    /// A clock that grants `rate` ticks per second, with nothing saved up
    /// and not paused. A rate of zero is turned down.
    pub fn new(rate: u32) -> (made: Result<SimulationClock, ConfigError>)
        ensures
            match made {
                Ok(clock) => rate > 0 && clock@ == (ClockState {
                    period: NANOS_PER_SECOND / (rate as u64),
                    residual: 0,
                    paused: false,
                }),
                Err(e) => rate == 0 && e == ConfigError::TickRate,
            },
    {
        if rate == 0 {
            Err(ConfigError::TickRate)
        } else {
            Ok(SimulationClock { period: NANOS_PER_SECOND / (rate as u64), residual: 0, paused: false })
        }
    }

    /// Tells the clock that `elapsed` nanoseconds have passed.
    pub fn advance(&mut self, elapsed: u64)
        ensures
            final(self)@ == old(self)@.advance(elapsed),
    {
        if elapsed > u64::MAX - self.residual {
            self.residual = u64::MAX;
        } else {
            self.residual = self.residual + elapsed;
        }
    }

    /// Asks for a tick. The answer is yes when more than one period has been
    /// saved up, and that period is then spent; so asking again and again
    /// grants no more ticks than time has passed.
    pub fn check_update_time(&mut self) -> (due: bool)
        ensures
            due == old(self)@.due(),
            final(self)@ == old(self)@.asked(),
    {
        if self.residual > self.period {
            self.residual = self.residual - self.period;
            true
        } else {
            false
        }
    }

    /// Switches the pause over: on if it was off, off if it was on.
    pub fn toggle_pause(&mut self)
        ensures
            final(self)@ == old(self)@.toggled(),
    {
        self.paused = !self.paused;
    }

    /// Whether the simulation is paused.
    pub fn is_paused(&self) -> (paused: bool)
        ensures
            paused == self@.paused,
    {
        self.paused
    }

    /// The time from one tick to the next, in nanoseconds.
    pub fn period(&self) -> (nanos: u64)
        ensures
            nanos == self@.period,
    {
        self.period
    }

    /// The time saved up towards the next tick, in nanoseconds.
    pub fn residual(&self) -> (nanos: u64)
        ensures
            nanos == self@.residual,
    {
        self.residual
    }
}

/// Switching the pause over twice leaves the clock as it was.
pub proof fn lemma_toggle_twice(c: ClockState)
    ensures
        c.toggled().toggled() == c,
{
}

/// Asking changes nothing but the savings, and never adds to them; a clock
/// that has just granted a tick after less than two periods were saved up
/// grants none when asked again at once.
pub proof fn lemma_no_tick_twice(c: ClockState)
    requires
        c.due(),
        c.residual <= 2 * c.period,
    ensures
        !c.asked().due(),
        c.asked().period == c.period,
        c.asked().paused == c.paused,
        c.asked().residual + c.period == c.residual,
{
}

} // verus!
