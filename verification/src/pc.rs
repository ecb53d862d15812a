//! The program counter: a register with combinational next-value logic,
//! priority reset > load > increment > hold.

use vstd::prelude::*;

use crate::arithmetic::{inc16, spec_inc16};
use crate::dff::{spec_next_phase, Clock, ClockState};
use crate::logic::{bit, mux16, Word};
use crate::register::Register;

verus! {

/// The all-low 16-bit sequence.
pub open spec fn seq_zero16() -> Seq<bit> {
    Seq::new(16, |i: int| bit::O)
}

/// The counter's next value: reset wins over load, load over increment,
/// increment over hold.
#[verifier::opaque]
pub open spec fn pc_candidate(
    held: Seq<bit>,
    input: Seq<bit>,
    incr: bit,
    load: bit,
    reset: bit,
) -> Seq<bit> {
    if reset == (bit::I) {
        seq_zero16()
    } else if load == (bit::I) {
        input
    } else if incr == (bit::I) {
        spec_inc16(held)
    } else {
        held
    }
}

#[derive(Debug, Clone, Copy)]
pub struct PC {
    pub register: Register,
}

impl PC {
    pub fn new() -> (r: PC)
        ensures
            r.register.currents() == seq_zero16(),
            r.register.prevs() == seq_zero16(),
    {
        let r = PC { register: Register::new() };
        proof {
            assert(r.register.currents() =~= seq_zero16());
            assert(r.register.prevs() =~= seq_zero16());
        }
        r
    }

    /// Latch the next counter value, chosen from the value held one phase
    /// ago; effective only during `Tick`.
    pub fn input(&mut self, clock_t: &Clock, input: Word, incr: bit, load: bit, reset: bit)
        ensures
            final(self).register.currents() == (if clock_t.state == (ClockState::Tick) {
                pc_candidate(old(self).register.currents(), input@, incr, load, reset)
            } else {
                old(self).register.currents()
            }),
            final(self).register.prevs() == (if clock_t.state == (ClockState::Tick) {
                old(self).register.currents()
            } else {
                old(self).register.prevs()
            }),
    {
        let clock_t_1 = match clock_t.state {
            ClockState::Tick => {
                let mut c = Clock::new();
                c.next();
                c
            },
            ClockState::Tock => Clock::new(),
        };
        let out_t_1 = self.output(&clock_t_1);
        let zero = Word([bit::O; 16]);
        proof {
            assert(zero@ =~= seq_zero16());
        }
        let input_tmp = mux16(mux16(mux16(out_t_1, inc16(out_t_1), incr), input, load), zero, reset);
        proof {
            assert(input_tmp@ == pc_candidate(
                self.register.out_at(spec_next_phase(clock_t.state)),
                input@,
                incr,
                load,
                reset,
            )) by {
                reveal(pc_candidate);
            }
        }
        self.register.input(clock_t, input_tmp, bit::I);
    }

    /// Read the counter at the clock's current phase.
    pub fn output(&self, clock_t: &Clock) -> (r: Word)
        ensures
            r@ == self.register.out_at(clock_t.state),
    {
        self.register.output(clock_t)
    }
}

/// Priority of the counter's controls: a requested jump (load) overrides the
/// increment, and without a load the counter merely increments.
pub proof fn lemma_pc_priority(held: Seq<bit>, input: Seq<bit>, incr: bit)
    ensures
        pc_candidate(held, input, incr, bit::I, bit::O) == input,
        pc_candidate(held, input, bit::I, bit::O, bit::O) == spec_inc16(held),
        pc_candidate(held, input, incr, bit::O, bit::I) == seq_zero16(),
{
    reveal(pc_candidate);
}

} // verus!
