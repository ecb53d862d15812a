//! The read-only program store: structurally a tree of eight RAM4K children
//! behind a 15-bit address, written only by the bulk load that copies a
//! program in, one word per address, starting at address zero.

use vstd::arithmetic::power2::*;
use vstd::prelude::*;

use crate::arithmetic::inc16;
use crate::dff::{Clock, ClockState};
use crate::logic::{bit, dmux8way, mux8way16, Word};
use crate::numeric::{bits_val, lemma_bits_val_bound, lemma_bits_val_split};
use crate::ram::{all_zero_mem, spec_mem_write, tree_flatten, RAM4K};

verus! {

/// 32768 words: eight `RAM4K` children behind a 15-bit address. The children
/// live on the heap: a megabyte-scale value would not fit on a small stack.
pub struct ROM32K {
    pub rams: Vec<RAM4K>,
}

impl ROM32K {
    /// The store owns exactly eight children.
    pub open spec fn well_formed(self) -> bool {
        self.rams@.len() == 8
    }

    /// The children's currently latched contents.
    pub open spec fn kids_currents(self) -> Seq<Seq<Seq<bit>>> {
        Seq::new(8, |i: int| self.rams[i].currents())
    }

    /// The children's contents as latched one phase ago.
    pub open spec fn kids_prevs(self) -> Seq<Seq<Seq<bit>>> {
        Seq::new(8, |i: int| self.rams[i].prevs())
    }

    /// The 32768 currently latched words.
    pub open spec fn currents(self) -> Seq<Seq<bit>> {
        tree_flatten(self.kids_currents(), 4096)
    }

    /// The 32768 words latched one phase ago.
    pub open spec fn prevs(self) -> Seq<Seq<bit>> {
        tree_flatten(self.kids_prevs(), 4096)
    }

    /// The contents a read sees at the given phase.
    pub open spec fn out_at(self, phase: ClockState) -> Seq<Seq<bit>> {
        match phase {
            ClockState::Tick => self.prevs(),
            ClockState::Tock => self.currents(),
        }
    }

    pub fn new() -> (r: ROM32K)
        ensures
            r.well_formed(),
            r.currents() == all_zero_mem(32768),
            r.prevs() == all_zero_mem(32768),
    {
        let mut rams: Vec<RAM4K> = Vec::new();
        for _k in 0..8
            invariant
                rams@.len() == _k,
                forall|j: int|
                    0 <= j < _k ==> (#[trigger] rams@[j]).currents() == all_zero_mem(4096)
                        && rams@[j].prevs() == all_zero_mem(4096),
        {
            rams.push(RAM4K::new());
        }
        let r = ROM32K { rams };
        proof {
            assert(r.currents() =~= all_zero_mem(32768));
            assert(r.prevs() =~= all_zero_mem(32768));
        }
        r
    }

    /// Write `input` at `address`, unconditionally; used by the bulk load.
    fn input_to_rams(&mut self, clock_t: &Clock, input: Word, address: [bit; 15])
        requires
            old(self).well_formed(),
        ensures
            final(self).well_formed(),
            final(self).currents() == spec_mem_write(
                old(self).currents(),
                clock_t.state,
                bits_val(address@),
                input@,
                bit::I,
            ),
            final(self).prevs() == (if clock_t.state == (ClockState::Tick) {
                old(self).currents()
            } else {
                old(self).prevs()
            }),
    {
        let sel = [address[0], address[1], address[2]];
        let load_bit = dmux8way(bit::I, sel);
        let register_addr = [
            address[3],
            address[4],
            address[5],
            address[6],
            address[7],
            address[8],
            address[9],
            address[10],
            address[11],
            address[12],
            address[13],
            address[14],
        ];
        proof {
            assert(sel@ =~= address@.subrange(0, 3));
            assert(register_addr@ =~= address@.subrange(3, 15));
            crate::numeric::lemma_bits_val_split(address@, 3);
            lemma_bits_val_bound(address@.subrange(0, 3));
            lemma_bits_val_bound(address@.subrange(3, 15));
            lemma2_to64();
        }
        for i in 0..8
            invariant
                self.well_formed(),
                load_bit@.len() == 8,
                forall|j: int|
                    0 <= j < 8 ==> load_bit@[j] == (if j == bits_val(address@.subrange(0, 3)) {
                        bit::I
                    } else {
                        bit::O
                    }),
                register_addr@ == address@.subrange(3, 15),
                forall|j: int| i <= j < 8 ==> self.rams@[j] == old(self).rams@[j],
                forall|j: int|
                    0 <= j < i ==> (#[trigger] self.rams@[j]).currents() == spec_mem_write(
                        old(self).rams@[j].currents(),
                        clock_t.state,
                        bits_val(address@.subrange(3, 15)),
                        input@,
                        load_bit@[j],
                    ),
                forall|j: int|
                    0 <= j < i ==> (#[trigger] self.rams@[j]).prevs() == (if clock_t.state == (
                    ClockState::Tick) {
                        old(self).rams@[j].currents()
                    } else {
                        old(self).rams@[j].prevs()
                    }),
        {
            let mut child = self.rams[i];
            child.input(clock_t, input, register_addr, load_bit[i]);
            self.rams.set(i, child);
        }
        proof {
            let hi = bits_val(address@.subrange(0, 3));
            let lo = bits_val(address@.subrange(3, 15));
            assert forall|c: int|
                0 <= c < 8 implies #[trigger] final(self).kids_currents()[c] == spec_mem_write(
                old(self).kids_currents()[c],
                clock_t.state,
                lo,
                input@,
                if c == hi {
                    bit::I
                } else {
                    bit::O
                },
            ) by {}
            crate::ram::lemma_tree_write(
                old(self).kids_currents(),
                final(self).kids_currents(),
                4096,
                hi,
                lo,
                clock_t.state,
                input@,
                bit::I,
            );
            assert(bits_val(address@) == hi * 4096 + lo);
            if clock_t.state == (ClockState::Tick) {
                assert(final(self).kids_prevs() =~= old(self).kids_currents());
                assert(final(self).prevs() =~= old(self).currents());
            } else {
                assert(final(self).kids_currents() =~= old(self).kids_currents());
                assert(final(self).kids_prevs() =~= old(self).kids_prevs());
                assert(final(self).prevs() =~= old(self).prevs());
            }
        }
    }

    /// Read the word at `address` at the clock's current phase.
    pub fn output(&self, clock_t: &Clock, address: [bit; 15]) -> (r: Word)
        requires
            self.well_formed(),
        ensures
            r@ == self.out_at(clock_t.state)[bits_val(address@) as int],
    {
        let sel = [address[0], address[1], address[2]];
        let register_address = [
            address[3],
            address[4],
            address[5],
            address[6],
            address[7],
            address[8],
            address[9],
            address[10],
            address[11],
            address[12],
            address[13],
            address[14],
        ];
        proof {
            assert(sel@ =~= address@.subrange(0, 3));
            assert(register_address@ =~= address@.subrange(3, 15));
            crate::numeric::lemma_bits_val_split(address@, 3);
            lemma_bits_val_bound(address@.subrange(0, 3));
            lemma_bits_val_bound(address@.subrange(3, 15));
            lemma2_to64();
        }
        let r = mux8way16(
            self.rams[0].output(clock_t, register_address),
            self.rams[1].output(clock_t, register_address),
            self.rams[2].output(clock_t, register_address),
            self.rams[3].output(clock_t, register_address),
            self.rams[4].output(clock_t, register_address),
            self.rams[5].output(clock_t, register_address),
            self.rams[6].output(clock_t, register_address),
            self.rams[7].output(clock_t, register_address),
            sel,
        );
        proof {
            let hi = bits_val(address@.subrange(0, 3));
            let lo = bits_val(address@.subrange(3, 15));
            match clock_t.state {
                ClockState::Tick => {
                    crate::ram::lemma_tree_index(self.kids_prevs(), 4096, hi, lo);
                },
                ClockState::Tock => {
                    crate::ram::lemma_tree_index(self.kids_currents(), 4096, hi, lo);
                },
            }
        }
        r
    }

    /// Bulk-load a program: word `i` of `program` is written at address `i`;
    /// addresses past the program keep what they held. Afterwards the loaded
    /// image is visible at both clock phases. Returns the 16-bit word whose
    /// value is the number of words loaded.
    #[verifier::rlimit(60)]
    pub fn load(&mut self, program: &Vec<Word>) -> (count: Word)
        requires
            old(self).well_formed(),
            program.len() <= 32768,
            forall|i: int| 0 <= i < program@.len() ==> (#[trigger] program@[i])@.len() == 16,
        ensures
            final(self).well_formed(),
            final(self).currents() == Seq::new(
                32768,
                |i: int|
                    if i < program@.len() {
                        program@[i]@
                    } else {
                        old(self).currents()[i]
                    },
            ),
            final(self).prevs() == final(self).currents(),
            count@.len() == 16,
            bits_val(count@) == program@.len(),
    {
        let clock_t = Clock::new();
        let mut line_counter = Word([bit::O; 16]);
        proof {
            crate::numeric::lemma_bits_val_zero_iff(line_counter@);
            lemma2_to64();
        }
        let n = program.len();
        for i in 0..n
            invariant
                program@.len() == n <= 32768,
                forall|k: int| 0 <= k < program@.len() ==> (#[trigger] program@[k])@.len() == 16,
                line_counter@.len() == 16,
                bits_val(line_counter@) == i,
                clock_t.state == (ClockState::Tick),
                self.well_formed(),
                self.currents() == Seq::new(
                    32768,
                    |j: int|
                        if j < i {
                            program@[j]@
                        } else {
                            old(self).currents()[j]
                        },
                ),
        {
            let instruction = program[i];
            let address = [
                line_counter.0[1],
                line_counter.0[2],
                line_counter.0[3],
                line_counter.0[4],
                line_counter.0[5],
                line_counter.0[6],
                line_counter.0[7],
                line_counter.0[8],
                line_counter.0[9],
                line_counter.0[10],
                line_counter.0[11],
                line_counter.0[12],
                line_counter.0[13],
                line_counter.0[14],
                line_counter.0[15],
            ];
            proof {
                assert(address@ =~= line_counter@.subrange(1, 16));
                lemma_bits_val_split(line_counter@, 1);
                lemma_bits_val_bound(line_counter@.subrange(1, 16));
                lemma_bits_val_bound(line_counter@.subrange(0, 1));
                lemma2_to64();
                let hi1 = bits_val(line_counter@.subrange(0, 1));
                assert(hi1 * pow2(15) == (if hi1 == 0 {
                    0
                } else {
                    pow2(15)
                })) by (nonlinear_arith)
                    requires
                        hi1 < 2,
                ;
                assert(bits_val(address@) == i);
            }
            let ghost before = self.currents();
            self.input_to_rams(&clock_t, instruction, address);
            proof {
                assert(self.currents() =~= Seq::new(
                    32768,
                    |j: int|
                        if j < i + 1 {
                            program@[j]@
                        } else {
                            old(self).currents()[j]
                        },
                ));
            }
            line_counter = inc16(line_counter);
        }
        // One more pass with the load enable low moves every latched word to
        // its cell's previous slot, so Tick-phase reads see the image too.
        let zero = Word([bit::O; 16]);
        let ghost mid = *self;
        for i in 0..8
            invariant
                self.well_formed(),
                clock_t.state == (ClockState::Tick),
                forall|j: int| i <= j < 8 ==> self.rams@[j] == mid.rams@[j],
                forall|j: int|
                    0 <= j < i ==> (#[trigger] self.rams@[j]).currents() == mid.rams@[j].currents()
                        && self.rams@[j].prevs() == mid.rams@[j].currents(),
        {
            let mut child = self.rams[i];
            child.input(&clock_t, zero, [bit::I; 12], bit::O);
            self.rams.set(i, child);
        }
        proof {
            assert(final(self).kids_currents() =~= mid.kids_currents());
            assert(final(self).kids_prevs() =~= mid.kids_currents());
            assert(final(self).currents() =~= mid.currents());
            assert(final(self).prevs() =~= final(self).currents());
        }
        line_counter
    }
}

} // verus!
