//! Storage cells: a one-bit cell with a load enable, and the 16-bit register
//! built from sixteen of them.
//!
//! A cell decides what to keep by looking at its own output at the phase that
//! precedes the supplied clock phase — the value latched one phase ago — and
//! muxing it with the new input under the load bit.

use vstd::prelude::*;

use crate::dff::{Clock, ClockState, Dff};
use crate::logic::{bit, mux, Word};

verus! {

/// A one-bit storage cell: a flip-flop behind a load-enable mux.
#[derive(Debug, Copy, Clone)]
pub struct Bit {
    pub dff: Dff,
}

/// What `Bit::input` does: during `Tick` the cell keeps its stored value
/// unless `load` is high, in which case it latches `input`; during `Tock`
/// nothing happens.
pub open spec fn spec_bit_input(b: Bit, phase: ClockState, input: bit, load: bit) -> Bit {
    if phase == (ClockState::Tick) {
        Bit {
            dff: Dff {
                prev: b.dff.current,
                current: if load == (bit::I) {
                    input
                } else {
                    b.dff.current
                },
            },
        }
    } else {
        b
    }
}

impl Bit {
    pub fn new() -> (b: Bit)
        ensures
            b.dff.prev == (bit::O),
            b.dff.current == (bit::O),
    {
        Bit { dff: Dff::new() }
    }

    /// Feed `input` under `load`, effective only during `Tick`.
    pub fn input(&mut self, clock_t: &Clock, input: bit, load: bit)
        ensures
            *final(self) == spec_bit_input(*old(self), clock_t.state, input, load),
    {
        let clock_t_1 = match clock_t.state {
            ClockState::Tick => {
                let mut c = Clock::new();
                c.next();
                c
            },
            ClockState::Tock => Clock::new(),
        };
        let out_t_1 = self.dff.output(&clock_t_1);
        self.dff.input(clock_t, mux(out_t_1, input, load));
    }

    /// Read the cell at the clock's current phase.
    pub fn output(self, clock: &Clock) -> (r: bit)
        ensures
            r == self.dff.out_at(clock.state),
    {
        self.dff.output(clock)
    }

    /// Feed and read in one step, at the same phase.
    pub fn run(&mut self, clock_t: &Clock, input: bit, load: bit) -> (r: bit)
        ensures
            *final(self) == spec_bit_input(*old(self), clock_t.state, input, load),
            r == final(self).dff.out_at(clock_t.state),
    {
        self.input(clock_t, input, load);
        self.output(clock_t)
    }
}

/// A 16-bit register: sixteen bit cells sharing one load enable.
#[derive(Debug, Copy, Clone)]
pub struct Register {
    pub bits: [Bit; 16],
}

impl Register {
    /// The sixteen currently latched bits, most significant first.
    pub open spec fn currents(self) -> Seq<bit> {
        Seq::new(16, |i: int| self.bits[i].dff.current)
    }

    /// The sixteen bits latched one phase ago, most significant first.
    pub open spec fn prevs(self) -> Seq<bit> {
        Seq::new(16, |i: int| self.bits[i].dff.prev)
    }

    /// The word a read returns at the given phase.
    pub open spec fn out_at(self, phase: ClockState) -> Seq<bit> {
        match phase {
            ClockState::Tick => self.prevs(),
            ClockState::Tock => self.currents(),
        }
    }

    pub fn new() -> (r: Register)
        ensures
            r.currents() == Seq::new(16, |i: int| bit::O),
            r.prevs() == Seq::new(16, |i: int| bit::O),
    {
        let r = Register { bits: [Bit::new(); 16] };
        proof {
            assert(r.currents() =~= Seq::new(16, |i: int| bit::O));
            assert(r.prevs() =~= Seq::new(16, |i: int| bit::O));
        }
        r
    }

    /// Feed a word under one load enable, effective only during `Tick`.
    pub fn input(&mut self, clock_t: &Clock, input: Word, load: bit)
        ensures
            final(self).currents() == (if clock_t.state == (ClockState::Tick) {
                if load == (bit::I) {
                    input@
                } else {
                    old(self).currents()
                }
            } else {
                old(self).currents()
            }),
            final(self).prevs() == (if clock_t.state == (ClockState::Tick) {
                old(self).currents()
            } else {
                old(self).prevs()
            }),
    {
        for i in 0..16
            invariant
                forall|j: int|
                    i <= j < 16 ==> self.bits@[j] == old(self).bits@[j],
                forall|j: int|
                    0 <= j < i ==> self.bits@[j] == spec_bit_input(
                        old(self).bits@[j],
                        clock_t.state,
                        input@[j],
                        load,
                    ),
        {
            let mut b = self.bits[i];
            b.input(clock_t, input.at(i), load);
            self.bits[i] = b;
        }
        proof {
            if clock_t.state == (ClockState::Tick) {
                if load == (bit::I) {
                    assert(final(self).currents() =~= input@);
                } else {
                    assert(final(self).currents() =~= old(self).currents());
                }
                assert(final(self).prevs() =~= old(self).currents());
            } else {
                assert(final(self).currents() =~= old(self).currents());
                assert(final(self).prevs() =~= old(self).prevs());
            }
        }
    }

    /// Read the register at the clock's current phase.
    pub fn output(self, clock: &Clock) -> (r: Word)
        ensures
            r@ == self.out_at(clock.state),
    {
        let mut out: [bit; 16] = [bit::O; 16];
        for i in 0..16
            invariant
                out@.len() == 16,
                forall|j: int| 0 <= j < i ==> out@[j] == self.bits@[j].dff.out_at(clock.state),
        {
            out[i] = self.bits[i].output(clock);
        }
        let r = Word(out);
        proof {
            assert(r@ =~= self.out_at(clock.state));
        }
        r
    }

    /// Feed and read in one step, at the same phase.
    pub fn run(&mut self, clock_t: &Clock, input: Word, load: bit) -> (r: Word)
        ensures
            final(self).currents() == (if clock_t.state == (ClockState::Tick) {
                if load == (bit::I) {
                    input@
                } else {
                    old(self).currents()
                }
            } else {
                old(self).currents()
            }),
            final(self).prevs() == (if clock_t.state == (ClockState::Tick) {
                old(self).currents()
            } else {
                old(self).prevs()
            }),
            r@ == final(self).out_at(clock_t.state),
    {
        self.input(clock_t, input, load);
        self.output(clock_t)
    }
}

} // verus!
