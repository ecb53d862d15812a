//! The screen bitmap store: two RAM4K children behind a 13-bit address.
//! Every write is reported once, synchronously, as a structured event that an
//! attached observer (if any) may forward; emitting or dropping the event
//! never alters core state.

use vstd::arithmetic::power2::*;
use vstd::prelude::*;

use crate::dff::{Clock, ClockState};
use crate::logic::{bit, dmux, mux16, Word};
use crate::numeric::{bits_val, bitv, lemma_bits_val_bound, lemma_bits_val_split};
use crate::ram::{all_zero_mem, lemma_tree_index, lemma_tree_write, spec_mem_write, tree_flatten, RAM4K};

verus! {

/// One screen write as reported to an observer: the index of the written
/// word, its bitmap coordinates (32 words per row), and the written value.
pub struct ScreenEvent {
    pub register_index: u16,
    pub x: u16,
    pub y: u16,
    pub value: Word,
}

/// The memory-mapped screen bitmap. The two children live on the heap: a
/// quarter-megabyte value would not fit on a small stack.
#[derive(Debug)]
pub struct Screen {
    pub rams: Vec<RAM4K>,
}

impl Screen {
    /// The bitmap owns exactly two children.
    pub open spec fn well_formed(self) -> bool {
        self.rams@.len() == 2
    }

    /// The children's currently latched contents.
    pub open spec fn kids_currents(self) -> Seq<Seq<Seq<bit>>> {
        Seq::new(2, |i: int| self.rams[i].currents())
    }

    /// The children's contents as latched one phase ago.
    pub open spec fn kids_prevs(self) -> Seq<Seq<Seq<bit>>> {
        Seq::new(2, |i: int| self.rams[i].prevs())
    }

    /// The 8192 currently latched words.
    pub open spec fn currents(self) -> Seq<Seq<bit>> {
        tree_flatten(self.kids_currents(), 4096)
    }

    /// The 8192 words latched one phase ago.
    pub open spec fn prevs(self) -> Seq<Seq<bit>> {
        tree_flatten(self.kids_prevs(), 4096)
    }

    /// The contents a read sees at the given phase.
    pub open spec fn out_at(self, phase: ClockState) -> Seq<Seq<bit>> {
        match phase {
            ClockState::Tick => self.prevs(),
            ClockState::Tock => self.currents(),
        }
    }

    pub fn new() -> (r: Screen)
        ensures
            r.well_formed(),
            r.currents() == all_zero_mem(8192),
            r.prevs() == all_zero_mem(8192),
    {
        let mut rams: Vec<RAM4K> = Vec::new();
        rams.push(RAM4K::new());
        rams.push(RAM4K::new());
        let r = Screen { rams };
        proof {
            assert(r.currents() =~= all_zero_mem(8192));
            assert(r.prevs() =~= all_zero_mem(8192));
        }
        r
    }

    /// Write `input` at `address` under the load enable, effective only
    /// during `Tick`, and report the write as an event.
    pub fn input(&mut self, clock_t: &Clock, input: Word, address: [bit; 13], load: bit) -> (ev:
        ScreenEvent)
        requires
            old(self).well_formed(),
        ensures
            final(self).well_formed(),
            final(self).currents() == spec_mem_write(
                old(self).currents(),
                clock_t.state,
                bits_val(address@),
                input@,
                load,
            ),
            final(self).prevs() == (if clock_t.state == (ClockState::Tick) {
                old(self).currents()
            } else {
                old(self).prevs()
            }),
            ev.register_index == bits_val(address@),
            ev.x == bits_val(address@) % 32,
            ev.y == bits_val(address@) / 32,
            ev.value == input,
    {
        let ram_addr = [
            address[1],
            address[2],
            address[3],
            address[4],
            address[5],
            address[6],
            address[7],
            address[8],
            address[9],
            address[10],
            address[11],
            address[12],
        ];
        let load_bits = dmux(load, address[0]);
        proof {
            assert(ram_addr@ =~= address@.subrange(1, 13));
            lemma_bits_val_split(address@, 1);
            lemma_bits_val_bound(address@.subrange(0, 1));
            lemma_bits_val_bound(address@.subrange(1, 13));
            assert(address@.subrange(0, 1).drop_last().len() == 0);
            assert(bits_val(address@.subrange(0, 1).drop_last()) == 0);
            assert(address@.subrange(0, 1).last() == address@[0]);
            assert(bits_val(address@.subrange(0, 1)) == bitv(address@[0]));
            lemma2_to64();
        }
        let mut child0 = self.rams[0];
        child0.input(clock_t, input, ram_addr, load_bits[0]);
        self.rams.set(0, child0);
        let mut child1 = self.rams[1];
        child1.input(clock_t, input, ram_addr, load_bits[1]);
        self.rams.set(1, child1);
        proof {
            let hi = bitv(address@[0]);
            let lo = bits_val(address@.subrange(1, 13));
            assert forall|c: int|
                0 <= c < 2 implies #[trigger] final(self).kids_currents()[c] == spec_mem_write(
                old(self).kids_currents()[c],
                clock_t.state,
                lo,
                input@,
                if c == hi {
                    load
                } else {
                    bit::O
                },
            ) by {}
            lemma_tree_write(
                old(self).kids_currents(),
                final(self).kids_currents(),
                4096,
                hi,
                lo,
                clock_t.state,
                input@,
                load,
            );
            assert(bits_val(address@) == hi * 4096 + lo);
            if clock_t.state == (ClockState::Tick) {
                assert(final(self).kids_prevs() =~= old(self).kids_currents());
                assert(final(self).prevs() =~= old(self).currents());
            } else {
                assert(final(self).kids_currents() =~= old(self).kids_currents());
                assert(final(self).kids_prevs() =~= old(self).kids_prevs());
                assert(final(self).prevs() =~= old(self).prevs());
            }
        }
        let mut register_index: u16 = 0;
        for i in 0..13
            invariant
                address@.len() == 13,
                register_index == bits_val(address@.subrange(0, i as int)),
                register_index < pow2(i as nat),
        {
            proof {
                assert(address@.subrange(0, i + 1).drop_last() =~= address@.subrange(0, i as int));
                assert(address@.subrange(0, i + 1).last() == address@[i as int]);
                lemma_pow2_unfold((i + 1) as nat);
                if i < 15 {
                    lemma_pow2_strictly_increases(i as nat, 15);
                }
                lemma2_to64();
            }
            register_index = 2 * register_index + (if address[i] == (bit::I) {
                1
            } else {
                0
            });
        }
        proof {
            assert(address@.subrange(0, 13) =~= address@);
        }
        ScreenEvent { register_index, x: register_index % 32, y: register_index / 32, value: input }
    }

    /// Read the word at `address` at the clock's current phase.
    pub fn output(&self, clock_t: &Clock, address: [bit; 13]) -> (r: Word)
        requires
            self.well_formed(),
        ensures
            r@ == self.out_at(clock_t.state)[bits_val(address@) as int],
    {
        let ram_addr = [
            address[1],
            address[2],
            address[3],
            address[4],
            address[5],
            address[6],
            address[7],
            address[8],
            address[9],
            address[10],
            address[11],
            address[12],
        ];
        proof {
            assert(ram_addr@ =~= address@.subrange(1, 13));
            lemma_bits_val_split(address@, 1);
            lemma_bits_val_bound(address@.subrange(1, 13));
            assert(address@.subrange(0, 1).drop_last().len() == 0);
            assert(bits_val(address@.subrange(0, 1).drop_last()) == 0);
            assert(address@.subrange(0, 1).last() == address@[0]);
            assert(bits_val(address@.subrange(0, 1)) == bitv(address@[0]));
            lemma2_to64();
        }
        let out1 = self.rams[0].output(clock_t, ram_addr);
        let out2 = self.rams[1].output(clock_t, ram_addr);
        let r = mux16(out1, out2, address[0]);
        proof {
            let hi = bitv(address@[0]);
            let lo = bits_val(address@.subrange(1, 13));
            match clock_t.state {
                ClockState::Tick => {
                    lemma_tree_index(self.kids_prevs(), 4096, hi, lo);
                },
                ClockState::Tock => {
                    lemma_tree_index(self.kids_currents(), 4096, hi, lo);
                },
            }
        }
        r
    }
}

} // verus!
