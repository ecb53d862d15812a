//! The two-phase clock and the D-flip-flop, the only state-holding primitive.
//!
//! A full cycle is one `Tick` followed by one `Tock`. Writes land only during
//! `Tick`; a `Tick`-phase read still shows the value from before the write,
//! and only the `Tock`-phase read shows the freshly latched value.

use vstd::prelude::*;

use crate::logic::bit;

verus! {

#[derive(Debug, PartialEq, Eq, Structural, Copy, Clone)]
pub enum ClockState {
    Tick,
    Tock,
}

/// The single time base: a two-state phase oscillator.
#[derive(Debug, PartialEq, Eq, Structural)]
pub struct Clock {
    pub state: ClockState,
}

/// The phase that follows `s`: the clock alternates.
pub open spec fn spec_next_phase(s: ClockState) -> ClockState {
    match s {
        ClockState::Tick => ClockState::Tock,
        ClockState::Tock => ClockState::Tick,
    }
}

impl Clock {
    /// A fresh clock starts in the `Tick` phase.
    pub fn new() -> (c: Clock)
        ensures
            c.state == (ClockState::Tick),
    {
        Clock { state: ClockState::Tick }
    }

    /// Advance to the other phase.
    pub fn next(&mut self)
        ensures
            final(self).state == spec_next_phase(old(self).state),
    {
        self.state = match self.state {
            ClockState::Tick => ClockState::Tock,
            ClockState::Tock => ClockState::Tick,
        };
    }
}

/// The D-flip-flop: holds the bit latched a phase ago (`prev`) and the bit
/// latched now (`current`).
#[derive(Debug, Copy, Clone)]
pub struct Dff {
    pub prev: bit,
    pub current: bit,
}

/// What `Dff::input` does: during `Tick` the stored value moves to `prev`
/// and the new value is latched; during `Tock` nothing happens.
pub open spec fn spec_dff_input(d: Dff, phase: ClockState, a: bit) -> Dff {
    if phase == (ClockState::Tick) {
        Dff { prev: d.current, current: a }
    } else {
        d
    }
}

impl Dff {
    /// The bit a read returns at the given phase: the pre-update value during
    /// `Tick`, the latched value during `Tock`.
    pub open spec fn out_at(self, phase: ClockState) -> bit {
        match phase {
            ClockState::Tick => self.prev,
            ClockState::Tock => self.current,
        }
    }

    /// A fresh flip-flop holds all-low.
    pub fn new() -> (d: Dff)
        ensures
            d.prev == (bit::O),
            d.current == (bit::O),
    {
        Dff { prev: bit::O, current: bit::O }
    }

    /// Latch `a`, effective only while the clock is in the `Tick` phase.
    pub fn input(&mut self, clock: &Clock, a: bit)
        ensures
            *final(self) == spec_dff_input(*old(self), clock.state, a),
    {
        if clock.state == (ClockState::Tick) {
            self.prev = self.current;
            self.current = a;
        }
    }

    /// Read the stored bit at the clock's current phase.
    pub fn output(&self, clock: &Clock) -> (r: bit)
        ensures
            r == self.out_at(clock.state),
    {
        match clock.state {
            ClockState::Tick => self.prev,
            ClockState::Tock => self.current,
        }
    }
}

/// Flip-flop timing: after a value is fed in during `Tick`, a `Tick`-phase
/// read still reports the value that was stored before, and only the
/// `Tock`-phase read reports the newly latched value.
pub proof fn lemma_dff_timing(d: Dff, v: bit)
    ensures
        spec_dff_input(d, ClockState::Tick, v).out_at(ClockState::Tick) == d.current,
        spec_dff_input(d, ClockState::Tick, v).out_at(ClockState::Tock) == v,
        spec_dff_input(d, ClockState::Tock, v) == d,
{
}

} // verus!
