//! The CPU: decodes a 16-bit instruction, drives the ALU, the A and D
//! registers and the program counter.
//!
//! Instruction layout, bit 0 being the most significant: bit 0 is the
//! instruction type (`O` loads the A register with the instruction itself,
//! `I` computes), bit 3 picks the ALU's second operand (A register or memory
//! word), bits 4-9 are the six ALU control bits, bits 10-12 the three write
//! enables (A, D, memory), bits 13-15 the jump condition (negative, zero,
//! positive).

use vstd::prelude::*;

use crate::alu::{alu, spec_alu_out};
use crate::dff::{spec_next_phase, Clock, ClockState};
use crate::logic::{and, bit, mux16, not, or, Word};
use crate::numeric::bits_val;
use crate::pc::{pc_candidate, seq_zero16, PC};
use crate::register::Register;

verus! {

/// The ALU result for one cycle: operand one is the D register, operand two
/// the A register or the memory word as bit 3 picks, controls are bits 4-9.
#[verifier::opaque]
pub open spec fn cpu_alu_out(
    a_held: Seq<bit>,
    d_held: Seq<bit>,
    in_m: Seq<bit>,
    instr: Seq<bit>,
) -> Seq<bit> {
    spec_alu_out(
        d_held,
        if instr[3] == (bit::I) {
            in_m
        } else {
            a_held
        },
        instr[4],
        instr[5],
        instr[6],
        instr[7],
        instr[8],
        instr[9],
    )
}

/// The jump condition: jump on negative, zero or positive as bits 13-15
/// request, judged by the ALU flags.
pub open spec fn spec_jump(jump: Seq<bit>, zr: bit, ng: bit) -> bit {
    if (jump[0] == (bit::I) && ng == (bit::I)) || (jump[1] == (bit::I) && zr == (bit::I)) || (
    jump[2] == (bit::I) && zr == (bit::O) && ng == (bit::O)) {
        bit::I
    } else {
        bit::O
    }
}

/// The A register's next value: an address instruction always loads the
/// instruction word; a compute instruction loads the ALU result when its
/// first destination bit asks for it.
pub open spec fn cpu_next_a(
    a_held: Seq<bit>,
    d_held: Seq<bit>,
    in_m: Seq<bit>,
    instr: Seq<bit>,
) -> Seq<bit> {
    if instr[0] == (bit::O) {
        instr
    } else if instr[10] == (bit::I) {
        cpu_alu_out(a_held, d_held, in_m, instr)
    } else {
        a_held
    }
}

/// The D register's next value: only a compute instruction whose second
/// destination bit is set writes it.
pub open spec fn cpu_next_d(
    a_held: Seq<bit>,
    d_held: Seq<bit>,
    in_m: Seq<bit>,
    instr: Seq<bit>,
) -> Seq<bit> {
    if instr[0] == (bit::I) && instr[11] == (bit::I) {
        cpu_alu_out(a_held, d_held, in_m, instr)
    } else {
        d_held
    }
}

/// The zero flag of this cycle's ALU result.
pub open spec fn cpu_zr(a_held: Seq<bit>, d_held: Seq<bit>, in_m: Seq<bit>, instr: Seq<bit>) -> bit {
    if bits_val(cpu_alu_out(a_held, d_held, in_m, instr)) == 0 {
        bit::I
    } else {
        bit::O
    }
}

/// The negative flag of this cycle's ALU result.
pub open spec fn cpu_ng(a_held: Seq<bit>, d_held: Seq<bit>, in_m: Seq<bit>, instr: Seq<bit>) -> bit {
    cpu_alu_out(a_held, d_held, in_m, instr)[0]
}

/// Whether the program counter loads this cycle: the jump condition holds
/// and the instruction is a compute instruction.
pub open spec fn cpu_pc_load(
    a_held: Seq<bit>,
    d_held: Seq<bit>,
    in_m: Seq<bit>,
    instr: Seq<bit>,
) -> bit {
    if spec_jump(
        instr.subrange(13, 16),
        cpu_zr(a_held, d_held, in_m, instr),
        cpu_ng(a_held, d_held, in_m, instr),
    ) == (bit::I) && instr[0] == (bit::I) {
        bit::I
    } else {
        bit::O
    }
}

/// The program counter's next value: reset wins, then a taken jump loads the
/// A register's held value, else the counter increments.
pub open spec fn cpu_next_pc(
    pc_held: Seq<bit>,
    a_held: Seq<bit>,
    d_held: Seq<bit>,
    in_m: Seq<bit>,
    instr: Seq<bit>,
    reset: bit,
) -> Seq<bit> {
    pc_candidate(pc_held, a_held, bit::I, cpu_pc_load(a_held, d_held, in_m, instr), reset)
}

pub struct CPU {
    pub pc: PC,
    pub d_register: Register,
    pub a_register: Register,
}

impl CPU {
    pub fn new() -> (r: CPU)
        ensures
            r.a_register.currents() == seq_zero16(),
            r.a_register.prevs() == seq_zero16(),
            r.d_register.currents() == seq_zero16(),
            r.d_register.prevs() == seq_zero16(),
            r.pc.register.currents() == seq_zero16(),
            r.pc.register.prevs() == seq_zero16(),
    {
        CPU { pc: PC::new(), a_register: Register::new(), d_register: Register::new() }
    }

    /// Split an instruction word into the type bit, the operand selector,
    /// the six ALU control bits, the destination bits and the jump bits.
    fn decode(word: Word) -> (r: (bit, bit, [bit; 6], [bit; 3], [bit; 3]))
        requires
            word@.len() == 16,
        ensures
            r.0 == word@[0],
            r.1 == word@[3],
            r.2@ == word@.subrange(4, 10),
            r.3@ == word@.subrange(10, 13),
            r.4@ == word@.subrange(13, 16),
    {
        let r = (
            word.0[0],
            word.0[3],
            [word.0[4], word.0[5], word.0[6], word.0[7], word.0[8], word.0[9]],
            [word.0[10], word.0[11], word.0[12]],
            [word.0[13], word.0[14], word.0[15]],
        );
        proof {
            assert(r.2@ =~= word@.subrange(4, 10));
            assert(r.3@ =~= word@.subrange(10, 13));
            assert(r.4@ =~= word@.subrange(13, 16));
        }
        r
    }

    /// Execute one instruction at the supplied clock phase. Register state
    /// changes only during `Tick`; the held values that feed the ALU and the
    /// jump logic are the ones latched one phase before. Returns the ALU
    /// result (the word to write to memory), the memory write enable, the low
    /// 15 bits of the A register after the update, and the low 15 bits of the
    /// program counter after the update.
    #[verifier::rlimit(100)]
    #[verifier::spinoff_prover]
    pub fn run(&mut self, clock_t: &Clock, in_m: Word, instruction: Word, reset: bit) -> (r: (
        Word,
        bit,
        [bit; 15],
        [bit; 15],
    ))
        requires
            in_m@.len() == 16,
            instruction@.len() == 16,
        ensures
            ({
                let a_held = old(self).a_register.out_at(spec_next_phase(clock_t.state));
                let d_held = old(self).d_register.out_at(spec_next_phase(clock_t.state));
                let pc_held = old(self).pc.register.out_at(spec_next_phase(clock_t.state));
                &&& r.0@ == cpu_alu_out(a_held, d_held, in_m@, instruction@)
                &&& r.1 == (if instruction@[0] == (bit::I) && instruction@[12] == (bit::I) {
                    bit::I
                } else {
                    bit::O
                })
                &&& r.2@ == final(self).a_register.out_at(spec_next_phase(clock_t.state)).subrange(
                    1,
                    16,
                )
                &&& r.3@ == final(self).pc.register.out_at(spec_next_phase(clock_t.state)).subrange(
                    1,
                    16,
                )
                &&& (clock_t.state == (ClockState::Tick) ==> {
                    &&& final(self).a_register.currents() == cpu_next_a(
                        a_held,
                        d_held,
                        in_m@,
                        instruction@,
                    )
                    &&& final(self).a_register.prevs() == old(self).a_register.currents()
                    &&& final(self).d_register.currents() == cpu_next_d(
                        a_held,
                        d_held,
                        in_m@,
                        instruction@,
                    )
                    &&& final(self).d_register.prevs() == old(self).d_register.currents()
                    &&& final(self).pc.register.currents() == cpu_next_pc(
                        pc_held,
                        a_held,
                        d_held,
                        in_m@,
                        instruction@,
                        reset,
                    )
                    &&& final(self).pc.register.prevs() == old(self).pc.register.currents()
                })
                &&& (clock_t.state == (ClockState::Tock) ==> {
                    &&& final(self).a_register.currents() == old(self).a_register.currents()
                    &&& final(self).a_register.prevs() == old(self).a_register.prevs()
                    &&& final(self).d_register.currents() == old(self).d_register.currents()
                    &&& final(self).d_register.prevs() == old(self).d_register.prevs()
                    &&& final(self).pc.register.currents() == old(self).pc.register.currents()
                    &&& final(self).pc.register.prevs() == old(self).pc.register.prevs()
                })
            }),
    {
        let clock_t_1 = match clock_t.state {
            ClockState::Tick => {
                let mut c = Clock::new();
                c.next();
                c
            },
            ClockState::Tock => Clock::new(),
        };
        let current_a_value = self.a_register.output(&clock_t_1);
        let current_d_value = self.d_register.output(&clock_t_1);
        let (i, a, cccccc, ddd, jjj) = CPU::decode(instruction);

        let (alu_out, zr, ng) = alu(
            current_d_value,
            mux16(current_a_value, in_m, a),
            cccccc[0],
            cccccc[1],
            cccccc[2],
            cccccc[3],
            cccccc[4],
            cccccc[5],
        );
        proof {
            assert(cccccc@[0] == instruction@[4]);
            assert(alu_out@ == cpu_alu_out(
                old(self).a_register.out_at(spec_next_phase(clock_t.state)),
                old(self).d_register.out_at(spec_next_phase(clock_t.state)),
                in_m@,
                instruction@,
            )) by {
                reveal(cpu_alu_out);
            }
        }

        self.a_register.input(clock_t, mux16(instruction, alu_out, i), or(not(i), ddd[0]));
        self.d_register.input(clock_t, alu_out, and(ddd[1], i));

        let is_jump = or(or(and(jjj[0], ng), and(jjj[1], zr)), and(jjj[2], not(or(zr, ng))));
        self.pc.input(clock_t, current_a_value, bit::I, and(is_jump, i), reset);

        let next_a_value = self.a_register.output(&clock_t_1);
        let next_pc_value = self.pc.output(&clock_t_1);

        let address_m = [
            next_a_value.0[1],
            next_a_value.0[2],
            next_a_value.0[3],
            next_a_value.0[4],
            next_a_value.0[5],
            next_a_value.0[6],
            next_a_value.0[7],
            next_a_value.0[8],
            next_a_value.0[9],
            next_a_value.0[10],
            next_a_value.0[11],
            next_a_value.0[12],
            next_a_value.0[13],
            next_a_value.0[14],
            next_a_value.0[15],
        ];
        let pc_out = [
            next_pc_value.0[1],
            next_pc_value.0[2],
            next_pc_value.0[3],
            next_pc_value.0[4],
            next_pc_value.0[5],
            next_pc_value.0[6],
            next_pc_value.0[7],
            next_pc_value.0[8],
            next_pc_value.0[9],
            next_pc_value.0[10],
            next_pc_value.0[11],
            next_pc_value.0[12],
            next_pc_value.0[13],
            next_pc_value.0[14],
            next_pc_value.0[15],
        ];
        proof {
            assert(address_m@ =~= next_a_value@.subrange(1, 16));
            assert(pc_out@ =~= next_pc_value@.subrange(1, 16));
            assert(jjj@[0] == instruction@[13]);
            assert(jjj@[1] == instruction@[14]);
            assert(jjj@[2] == instruction@[15]);
        }
        (alu_out, and(i, ddd[2]), address_m, pc_out)
    }
}

/// Jump priority: with the flags reporting a negative result, a jump
/// requested on "negative" loads the counter from the A register, while the
/// same state with a jump requested only on "positive" merely increments the
/// counter.
pub proof fn lemma_cpu_jump_priority(
    pc_held: Seq<bit>,
    a_held: Seq<bit>,
    d_held: Seq<bit>,
    in_m: Seq<bit>,
    instr: Seq<bit>,
)
    requires
        instr.len() == 16,
        instr[0] == (bit::I),
        cpu_ng(a_held, d_held, in_m, instr) == (bit::I),
        cpu_zr(a_held, d_held, in_m, instr) == (bit::O),
    ensures
        instr.subrange(13, 16) =~= seq![bit::I, bit::O, bit::O] ==> cpu_next_pc(
            pc_held,
            a_held,
            d_held,
            in_m,
            instr,
            bit::O,
        ) == a_held,
        instr.subrange(13, 16) =~= seq![bit::O, bit::O, bit::I] ==> cpu_next_pc(
            pc_held,
            a_held,
            d_held,
            in_m,
            instr,
            bit::O,
        ) == crate::arithmetic::spec_inc16(pc_held),
{
    reveal(pc_candidate);
}

} // verus!
