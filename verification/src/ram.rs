//! The random-access memory hierarchy: RAM8 up to RAM16K, each level an
//! array of the next smaller one. A write fans the load enable out to exactly
//! one child through a demultiplexer on the top address bits; a read reads
//! every child and multiplexes the selected one back in.

use vstd::arithmetic::div_mod::{lemma_fundamental_div_mod, lemma_fundamental_div_mod_converse};
use vstd::arithmetic::power2::*;
use vstd::prelude::*;

use crate::dff::{Clock, ClockState};
use crate::logic::{bit, dmux4way, dmux8way, mux4way16, mux8way16, Word};
use crate::numeric::{bits_val, lemma_bits_val_bound, lemma_bits_val_split};
use crate::pc::seq_zero16;
use crate::register::Register;

verus! {

/// What one memory write does to a memory image: during `Tick` with the load
/// enable high, the word at `addr` is replaced; otherwise nothing changes.
pub open spec fn spec_mem_write(
    mem: Seq<Seq<bit>>,
    phase: ClockState,
    addr: nat,
    value: Seq<bit>,
    load: bit,
) -> Seq<Seq<bit>> {
    if phase == (ClockState::Tick) && load == (bit::I) {
        mem.update(addr as int, value)
    } else {
        mem
    }
}

/// A memory image in which every word is all-low.
pub open spec fn all_zero_mem(n: nat) -> Seq<Seq<bit>> {
    Seq::new(n, |i: int| seq_zero16())
}

/// The flat contents of a node whose children each hold `cs` words: word `i`
/// lives in child `i / cs` at offset `i % cs`.
pub open spec fn tree_flatten(kids: Seq<Seq<Seq<bit>>>, cs: nat) -> Seq<Seq<bit>> {
    Seq::new(kids.len() * cs, |i: int| kids[i / cs as int][i % cs as int])
}

/// Writing through the fan-out is writing into the flattened contents: when
/// only the child selected by the top address part sees the load enable, the
/// flat image changes exactly at `hi * cs + lo`.
pub(crate) proof fn lemma_tree_write(
    old_kids: Seq<Seq<Seq<bit>>>,
    new_kids: Seq<Seq<Seq<bit>>>,
    cs: nat,
    hi: nat,
    lo: nat,
    phase: ClockState,
    value: Seq<bit>,
    load: bit,
)
    requires
        new_kids.len() == old_kids.len(),
        forall|c: int| 0 <= c < old_kids.len() ==> (#[trigger] old_kids[c]).len() == cs,
        hi < old_kids.len(),
        lo < cs,
        forall|c: int|
            0 <= c < old_kids.len() ==> #[trigger] new_kids[c] == spec_mem_write(
                old_kids[c],
                phase,
                lo,
                value,
                if c == hi {
                    load
                } else {
                    bit::O
                },
            ),
    ensures
        tree_flatten(new_kids, cs) == spec_mem_write(
            tree_flatten(old_kids, cs),
            phase,
            hi * cs + lo,
            value,
            load,
        ),
{
    let n = old_kids.len();
    let addr = hi * cs + lo;
    assert(addr < n * cs) by (nonlinear_arith)
        requires
            hi < n,
            lo < cs,
            addr == hi * cs + lo,
    ;
    assert forall|i: int| 0 <= i < n * cs implies tree_flatten(new_kids, cs)[i] == spec_mem_write(
        tree_flatten(old_kids, cs),
        phase,
        addr,
        value,
        load,
    )[i] by {
        let c = i / cs as int;
        let s = i % cs as int;
        assert(0 <= c < n && 0 <= s < cs) by (nonlinear_arith)
            requires
                0 <= i < n * cs,
                cs > 0,
                c == i / cs as int,
                s == i % cs as int,
        ;
        lemma_fundamental_div_mod(i, cs as int);
        if c == hi && s == lo {
            assert(i == addr) by (nonlinear_arith)
                requires
                    i == cs as int * c + s,
                    c == hi,
                    s == lo,
                    addr == hi * cs + lo,
            ;
        }
        if i == addr as int {
            lemma_fundamental_div_mod_converse(i, cs as int, hi as int, lo as int);
            assert(c == hi && s == lo);
        }
    }
    assert(tree_flatten(new_kids, cs) =~= spec_mem_write(
        tree_flatten(old_kids, cs),
        phase,
        addr,
        value,
        load,
    ));
}

/// Reading the flattened contents at `hi * cs + lo` reads child `hi` at
/// offset `lo`.
pub(crate) proof fn lemma_tree_index(kids: Seq<Seq<Seq<bit>>>, cs: nat, hi: nat, lo: nat)
    requires
        hi < kids.len(),
        lo < cs,
    ensures
        tree_flatten(kids, cs)[(hi * cs + lo) as int] == kids[hi as int][lo as int],
{
    let i = (hi * cs + lo) as int;
    assert(0 <= i < kids.len() * cs) by (nonlinear_arith)
        requires
            hi < kids.len(),
            lo < cs,
            i == hi * cs + lo,
    ;
    lemma_fundamental_div_mod_converse(i, cs as int, hi as int, lo as int);
}

/// The top `k` bits of an address select the child, the rest the offset:
/// the address value splits as `hi * pow2(rest) + lo`.
pub(crate) proof fn lemma_addr_split(address: Seq<bit>, k: int)
    requires
        0 <= k <= address.len(),
    ensures
        bits_val(address) == bits_val(address.subrange(0, k)) * pow2((address.len() - k) as nat)
            + bits_val(address.subrange(k, address.len() as int)),
        bits_val(address.subrange(0, k)) < pow2(k as nat),
        bits_val(address.subrange(k, address.len() as int)) < pow2((address.len() - k) as nat),
{
    lemma_bits_val_split(address, k);
    lemma_bits_val_bound(address.subrange(0, k));
    lemma_bits_val_bound(address.subrange(k, address.len() as int));
}

/// Eight registers behind a three-bit address.
#[derive(Debug, Clone, Copy)]
pub struct RAM8 {
    pub registers: [Register; 8],
}

impl RAM8 {
    /// The eight currently latched words.
    pub open spec fn currents(self) -> Seq<Seq<bit>> {
        Seq::new(8, |i: int| self.registers[i].currents())
    }

    /// The eight words latched one phase ago.
    pub open spec fn prevs(self) -> Seq<Seq<bit>> {
        Seq::new(8, |i: int| self.registers[i].prevs())
    }

    /// The contents a read sees at the given phase.
    pub open spec fn out_at(self, phase: ClockState) -> Seq<Seq<bit>> {
        match phase {
            ClockState::Tick => self.prevs(),
            ClockState::Tock => self.currents(),
        }
    }

    pub fn new() -> (r: RAM8)
        ensures
            r.currents() == all_zero_mem(8),
            r.prevs() == all_zero_mem(8),
    {
        let r = RAM8 { registers: [Register::new(); 8] };
        proof {
            assert(r.currents() =~= all_zero_mem(8));
            assert(r.prevs() =~= all_zero_mem(8));
        }
        r
    }

    /// Write `input` at `address` under the load enable; effective only
    /// during `Tick`.
    pub fn input(&mut self, clock_t: &Clock, input: Word, address: [bit; 3], load: bit)
        ensures
            final(self).currents() == spec_mem_write(
                old(self).currents(),
                clock_t.state,
                bits_val(address@),
                input@,
                load,
            ),
            final(self).prevs() == (if clock_t.state == (ClockState::Tick) {
                old(self).currents()
            } else {
                old(self).prevs()
            }),
    {
        let load8 = dmux8way(load, address);
        proof {
            lemma_bits_val_bound(address@);
            lemma2_to64();
        }
        for i in 0..8
            invariant
                load8@.len() == 8,
                forall|j: int|
                    0 <= j < 8 ==> load8@[j] == (if load == (bit::I) && j == bits_val(address@) {
                        bit::I
                    } else {
                        bit::O
                    }),
                forall|j: int| i <= j < 8 ==> self.registers@[j] == old(self).registers@[j],
                forall|j: int|
                    0 <= j < i ==> (#[trigger] self.registers@[j]).currents() == (
                    if clock_t.state == (ClockState::Tick) && load8@[j] == (bit::I) {
                        input@
                    } else {
                        old(self).registers@[j].currents()
                    }),
                forall|j: int|
                    0 <= j < i ==> (#[trigger] self.registers@[j]).prevs() == (if clock_t.state
                        == (ClockState::Tick) {
                        old(self).registers@[j].currents()
                    } else {
                        old(self).registers@[j].prevs()
                    }),
        {
            let mut reg = self.registers[i];
            reg.input(clock_t, input, load8[i]);
            self.registers[i] = reg;
        }
        proof {
            let addr = bits_val(address@);
            if clock_t.state == (ClockState::Tick) {
                if load == (bit::I) {
                    assert(final(self).currents() =~= old(self).currents().update(
                        addr as int,
                        input@,
                    ));
                } else {
                    assert(final(self).currents() =~= old(self).currents());
                }
                assert(final(self).prevs() =~= old(self).currents());
            } else {
                assert(final(self).currents() =~= old(self).currents());
                assert(final(self).prevs() =~= old(self).prevs());
            }
        }
    }

    /// Read the word at `address` at the clock's current phase.
    pub fn output(self, clock_t: &Clock, address: [bit; 3]) -> (r: Word)
        ensures
            r@ == self.out_at(clock_t.state)[bits_val(address@) as int],
    {
        proof {
            lemma_bits_val_bound(address@);
            lemma2_to64();
        }
        mux8way16(
            self.registers[0].output(&clock_t),
            self.registers[1].output(&clock_t),
            self.registers[2].output(&clock_t),
            self.registers[3].output(&clock_t),
            self.registers[4].output(&clock_t),
            self.registers[5].output(&clock_t),
            self.registers[6].output(&clock_t),
            self.registers[7].output(&clock_t),
            address,
        )
    }
}


/// 64 words: eight `RAM8` children behind a 6-bit address.
#[derive(Debug, Clone, Copy)]
pub struct RAM64 {
    pub rams: [RAM8; 8],
}

impl RAM64 {
    /// The children's currently latched contents.
    pub open spec fn kids_currents(self) -> Seq<Seq<Seq<bit>>> {
        Seq::new(8, |i: int| self.rams[i].currents())
    }

    /// The children's contents as latched one phase ago.
    pub open spec fn kids_prevs(self) -> Seq<Seq<Seq<bit>>> {
        Seq::new(8, |i: int| self.rams[i].prevs())
    }

    /// The 64 currently latched words.
    pub open spec fn currents(self) -> Seq<Seq<bit>> {
        tree_flatten(self.kids_currents(), 8)
    }

    /// The 64 words latched one phase ago.
    pub open spec fn prevs(self) -> Seq<Seq<bit>> {
        tree_flatten(self.kids_prevs(), 8)
    }

    /// The contents a read sees at the given phase.
    pub open spec fn out_at(self, phase: ClockState) -> Seq<Seq<bit>> {
        match phase {
            ClockState::Tick => self.prevs(),
            ClockState::Tock => self.currents(),
        }
    }

    pub fn new() -> (r: RAM64)
        ensures
            r.currents() == all_zero_mem(64),
            r.prevs() == all_zero_mem(64),
    {
        let r = RAM64 { rams: [RAM8::new(), RAM8::new(), RAM8::new(), RAM8::new(), RAM8::new(), RAM8::new(), RAM8::new(), RAM8::new()] };
        proof {
            assert(r.currents() =~= all_zero_mem(64));
            assert(r.prevs() =~= all_zero_mem(64));
        }
        r
    }

    /// Write `input` at `address` under the load enable; effective only
    /// during `Tick`.
    pub fn input(&mut self, clock_t: &Clock, input: Word, address: [bit; 6], load: bit)
        ensures
            final(self).currents() == spec_mem_write(
                old(self).currents(),
                clock_t.state,
                bits_val(address@),
                input@,
                load,
            ),
            final(self).prevs() == (if clock_t.state == (ClockState::Tick) {
                old(self).currents()
            } else {
                old(self).prevs()
            }),
    {
        let sel = [address[0], address[1], address[2]];
        let load_bit = dmux8way(load, sel);
        let register_address = [address[3], address[4], address[5]];
        proof {
            assert(sel@ =~= address@.subrange(0, 3));
            assert(register_address@ =~= address@.subrange(3, 6));
            lemma_addr_split(address@, 3);
            lemma2_to64();
        }
        for i in 0..8
            invariant
                load_bit@.len() == 8,
                forall|j: int|
                    0 <= j < 8 ==> load_bit@[j] == (if load == (bit::I) && j == bits_val(
                        address@.subrange(0, 3),
                    ) {
                        bit::I
                    } else {
                        bit::O
                    }),
                register_address@ == address@.subrange(3, 6),
                forall|j: int| i <= j < 8 ==> self.rams@[j] == old(self).rams@[j],
                forall|j: int|
                    0 <= j < i ==> (#[trigger] self.rams@[j]).currents() == spec_mem_write(
                        old(self).rams@[j].currents(),
                        clock_t.state,
                        bits_val(address@.subrange(3, 6)),
                        input@,
                        load_bit@[j],
                    ),
                forall|j: int|
                    0 <= j < i ==> (#[trigger] self.rams@[j]).prevs() == (if clock_t.state == (
                    ClockState::Tick) {
                        old(self).rams@[j].currents()
                    } else {
                        old(self).rams@[j].prevs()
                    }),
        {
            let mut child = self.rams[i];
            child.input(clock_t, input, register_address, load_bit[i]);
            self.rams[i] = child;
        }
        proof {
            let hi = bits_val(address@.subrange(0, 3));
            let lo = bits_val(address@.subrange(3, 6));
            assert forall|c: int|
                0 <= c < 8 implies #[trigger] final(self).kids_currents()[c] == spec_mem_write(
                old(self).kids_currents()[c],
                clock_t.state,
                lo,
                input@,
                if c == hi {
                    load
                } else {
                    bit::O
                },
            ) by {
                if c == hi {
                    assert(load_bit@[c] == (if load == (bit::I) {
                        bit::I
                    } else {
                        bit::O
                    }));
                }
            }
            lemma_tree_write(
                old(self).kids_currents(),
                final(self).kids_currents(),
                8,
                hi,
                lo,
                clock_t.state,
                input@,
                load,
            );
            assert(bits_val(address@) == hi * 8 + lo);
            if clock_t.state == (ClockState::Tick) {
                assert(final(self).kids_prevs() =~= old(self).kids_currents());
                assert(final(self).prevs() =~= old(self).currents());
            } else {
                assert(final(self).kids_currents() =~= old(self).kids_currents());
                assert(final(self).kids_prevs() =~= old(self).kids_prevs());
                assert(final(self).prevs() =~= old(self).prevs());
            }
        }
    }

    /// Read the word at `address` at the clock's current phase.
    pub fn output(self, clock_t: &Clock, address: [bit; 6]) -> (r: Word)
        ensures
            r@ == self.out_at(clock_t.state)[bits_val(address@) as int],
    {
        let sel = [address[0], address[1], address[2]];
        let register_address = [address[3], address[4], address[5]];
        proof {
            assert(sel@ =~= address@.subrange(0, 3));
            assert(register_address@ =~= address@.subrange(3, 6));
            lemma_addr_split(address@, 3);
            lemma2_to64();
        }
        let r = mux8way16(
            self.rams[0].output(clock_t, register_address),
            self.rams[1].output(clock_t, register_address),
            self.rams[2].output(clock_t, register_address),
            self.rams[3].output(clock_t, register_address),
            self.rams[4].output(clock_t, register_address),
            self.rams[5].output(clock_t, register_address),
            self.rams[6].output(clock_t, register_address),
            self.rams[7].output(clock_t, register_address),
            sel,
        );
        proof {
            let hi = bits_val(address@.subrange(0, 3));
            let lo = bits_val(address@.subrange(3, 6));
            match clock_t.state {
                ClockState::Tick => {
                    lemma_tree_index(self.kids_prevs(), 8, hi, lo);
                },
                ClockState::Tock => {
                    lemma_tree_index(self.kids_currents(), 8, hi, lo);
                },
            }
        }
        r
    }
}

/// 512 words: eight `RAM64` children behind a 9-bit address.
#[derive(Debug, Clone, Copy)]
pub struct RAM512 {
    pub rams: [RAM64; 8],
}

impl RAM512 {
    /// The children's currently latched contents.
    pub open spec fn kids_currents(self) -> Seq<Seq<Seq<bit>>> {
        Seq::new(8, |i: int| self.rams[i].currents())
    }

    /// The children's contents as latched one phase ago.
    pub open spec fn kids_prevs(self) -> Seq<Seq<Seq<bit>>> {
        Seq::new(8, |i: int| self.rams[i].prevs())
    }

    /// The 512 currently latched words.
    pub open spec fn currents(self) -> Seq<Seq<bit>> {
        tree_flatten(self.kids_currents(), 64)
    }

    /// The 512 words latched one phase ago.
    pub open spec fn prevs(self) -> Seq<Seq<bit>> {
        tree_flatten(self.kids_prevs(), 64)
    }

    /// The contents a read sees at the given phase.
    pub open spec fn out_at(self, phase: ClockState) -> Seq<Seq<bit>> {
        match phase {
            ClockState::Tick => self.prevs(),
            ClockState::Tock => self.currents(),
        }
    }

    pub fn new() -> (r: RAM512)
        ensures
            r.currents() == all_zero_mem(512),
            r.prevs() == all_zero_mem(512),
    {
        let r = RAM512 { rams: [RAM64::new(), RAM64::new(), RAM64::new(), RAM64::new(), RAM64::new(), RAM64::new(), RAM64::new(), RAM64::new()] };
        proof {
            assert(r.currents() =~= all_zero_mem(512));
            assert(r.prevs() =~= all_zero_mem(512));
        }
        r
    }

    /// Write `input` at `address` under the load enable; effective only
    /// during `Tick`.
    pub fn input(&mut self, clock_t: &Clock, input: Word, address: [bit; 9], load: bit)
        ensures
            final(self).currents() == spec_mem_write(
                old(self).currents(),
                clock_t.state,
                bits_val(address@),
                input@,
                load,
            ),
            final(self).prevs() == (if clock_t.state == (ClockState::Tick) {
                old(self).currents()
            } else {
                old(self).prevs()
            }),
    {
        let sel = [address[0], address[1], address[2]];
        let load_bit = dmux8way(load, sel);
        let register_address = [address[3], address[4], address[5], address[6], address[7], address[8]];
        proof {
            assert(sel@ =~= address@.subrange(0, 3));
            assert(register_address@ =~= address@.subrange(3, 9));
            lemma_addr_split(address@, 3);
            lemma2_to64();
        }
        for i in 0..8
            invariant
                load_bit@.len() == 8,
                forall|j: int|
                    0 <= j < 8 ==> load_bit@[j] == (if load == (bit::I) && j == bits_val(
                        address@.subrange(0, 3),
                    ) {
                        bit::I
                    } else {
                        bit::O
                    }),
                register_address@ == address@.subrange(3, 9),
                forall|j: int| i <= j < 8 ==> self.rams@[j] == old(self).rams@[j],
                forall|j: int|
                    0 <= j < i ==> (#[trigger] self.rams@[j]).currents() == spec_mem_write(
                        old(self).rams@[j].currents(),
                        clock_t.state,
                        bits_val(address@.subrange(3, 9)),
                        input@,
                        load_bit@[j],
                    ),
                forall|j: int|
                    0 <= j < i ==> (#[trigger] self.rams@[j]).prevs() == (if clock_t.state == (
                    ClockState::Tick) {
                        old(self).rams@[j].currents()
                    } else {
                        old(self).rams@[j].prevs()
                    }),
        {
            let mut child = self.rams[i];
            child.input(clock_t, input, register_address, load_bit[i]);
            self.rams[i] = child;
        }
        proof {
            let hi = bits_val(address@.subrange(0, 3));
            let lo = bits_val(address@.subrange(3, 9));
            assert forall|c: int|
                0 <= c < 8 implies #[trigger] final(self).kids_currents()[c] == spec_mem_write(
                old(self).kids_currents()[c],
                clock_t.state,
                lo,
                input@,
                if c == hi {
                    load
                } else {
                    bit::O
                },
            ) by {
                if c == hi {
                    assert(load_bit@[c] == (if load == (bit::I) {
                        bit::I
                    } else {
                        bit::O
                    }));
                }
            }
            lemma_tree_write(
                old(self).kids_currents(),
                final(self).kids_currents(),
                64,
                hi,
                lo,
                clock_t.state,
                input@,
                load,
            );
            assert(bits_val(address@) == hi * 64 + lo);
            if clock_t.state == (ClockState::Tick) {
                assert(final(self).kids_prevs() =~= old(self).kids_currents());
                assert(final(self).prevs() =~= old(self).currents());
            } else {
                assert(final(self).kids_currents() =~= old(self).kids_currents());
                assert(final(self).kids_prevs() =~= old(self).kids_prevs());
                assert(final(self).prevs() =~= old(self).prevs());
            }
        }
    }

    /// Read the word at `address` at the clock's current phase.
    pub fn output(self, clock_t: &Clock, address: [bit; 9]) -> (r: Word)
        ensures
            r@ == self.out_at(clock_t.state)[bits_val(address@) as int],
    {
        let sel = [address[0], address[1], address[2]];
        let register_address = [address[3], address[4], address[5], address[6], address[7], address[8]];
        proof {
            assert(sel@ =~= address@.subrange(0, 3));
            assert(register_address@ =~= address@.subrange(3, 9));
            lemma_addr_split(address@, 3);
            lemma2_to64();
        }
        let r = mux8way16(
            self.rams[0].output(clock_t, register_address),
            self.rams[1].output(clock_t, register_address),
            self.rams[2].output(clock_t, register_address),
            self.rams[3].output(clock_t, register_address),
            self.rams[4].output(clock_t, register_address),
            self.rams[5].output(clock_t, register_address),
            self.rams[6].output(clock_t, register_address),
            self.rams[7].output(clock_t, register_address),
            sel,
        );
        proof {
            let hi = bits_val(address@.subrange(0, 3));
            let lo = bits_val(address@.subrange(3, 9));
            match clock_t.state {
                ClockState::Tick => {
                    lemma_tree_index(self.kids_prevs(), 64, hi, lo);
                },
                ClockState::Tock => {
                    lemma_tree_index(self.kids_currents(), 64, hi, lo);
                },
            }
        }
        r
    }
}

/// 4096 words: eight `RAM512` children behind a 12-bit address.
#[derive(Debug, Clone, Copy)]
pub struct RAM4K {
    pub rams: [RAM512; 8],
}

impl RAM4K {
    /// The children's currently latched contents.
    pub open spec fn kids_currents(self) -> Seq<Seq<Seq<bit>>> {
        Seq::new(8, |i: int| self.rams[i].currents())
    }

    /// The children's contents as latched one phase ago.
    pub open spec fn kids_prevs(self) -> Seq<Seq<Seq<bit>>> {
        Seq::new(8, |i: int| self.rams[i].prevs())
    }

    /// The 4096 currently latched words.
    pub open spec fn currents(self) -> Seq<Seq<bit>> {
        tree_flatten(self.kids_currents(), 512)
    }

    /// The 4096 words latched one phase ago.
    pub open spec fn prevs(self) -> Seq<Seq<bit>> {
        tree_flatten(self.kids_prevs(), 512)
    }

    /// The contents a read sees at the given phase.
    pub open spec fn out_at(self, phase: ClockState) -> Seq<Seq<bit>> {
        match phase {
            ClockState::Tick => self.prevs(),
            ClockState::Tock => self.currents(),
        }
    }

    pub fn new() -> (r: RAM4K)
        ensures
            r.currents() == all_zero_mem(4096),
            r.prevs() == all_zero_mem(4096),
    {
        let r = RAM4K { rams: [RAM512::new(), RAM512::new(), RAM512::new(), RAM512::new(), RAM512::new(), RAM512::new(), RAM512::new(), RAM512::new()] };
        proof {
            assert(r.currents() =~= all_zero_mem(4096));
            assert(r.prevs() =~= all_zero_mem(4096));
        }
        r
    }

    /// Write `input` at `address` under the load enable; effective only
    /// during `Tick`.
    pub fn input(&mut self, clock_t: &Clock, input: Word, address: [bit; 12], load: bit)
        ensures
            final(self).currents() == spec_mem_write(
                old(self).currents(),
                clock_t.state,
                bits_val(address@),
                input@,
                load,
            ),
            final(self).prevs() == (if clock_t.state == (ClockState::Tick) {
                old(self).currents()
            } else {
                old(self).prevs()
            }),
    {
        let sel = [address[0], address[1], address[2]];
        let load_bit = dmux8way(load, sel);
        let register_address = [address[3], address[4], address[5], address[6], address[7], address[8], address[9], address[10], address[11]];
        proof {
            assert(sel@ =~= address@.subrange(0, 3));
            assert(register_address@ =~= address@.subrange(3, 12));
            lemma_addr_split(address@, 3);
            lemma2_to64();
        }
        for i in 0..8
            invariant
                load_bit@.len() == 8,
                forall|j: int|
                    0 <= j < 8 ==> load_bit@[j] == (if load == (bit::I) && j == bits_val(
                        address@.subrange(0, 3),
                    ) {
                        bit::I
                    } else {
                        bit::O
                    }),
                register_address@ == address@.subrange(3, 12),
                forall|j: int| i <= j < 8 ==> self.rams@[j] == old(self).rams@[j],
                forall|j: int|
                    0 <= j < i ==> (#[trigger] self.rams@[j]).currents() == spec_mem_write(
                        old(self).rams@[j].currents(),
                        clock_t.state,
                        bits_val(address@.subrange(3, 12)),
                        input@,
                        load_bit@[j],
                    ),
                forall|j: int|
                    0 <= j < i ==> (#[trigger] self.rams@[j]).prevs() == (if clock_t.state == (
                    ClockState::Tick) {
                        old(self).rams@[j].currents()
                    } else {
                        old(self).rams@[j].prevs()
                    }),
        {
            let mut child = self.rams[i];
            child.input(clock_t, input, register_address, load_bit[i]);
            self.rams[i] = child;
        }
        proof {
            let hi = bits_val(address@.subrange(0, 3));
            let lo = bits_val(address@.subrange(3, 12));
            assert forall|c: int|
                0 <= c < 8 implies #[trigger] final(self).kids_currents()[c] == spec_mem_write(
                old(self).kids_currents()[c],
                clock_t.state,
                lo,
                input@,
                if c == hi {
                    load
                } else {
                    bit::O
                },
            ) by {
                if c == hi {
                    assert(load_bit@[c] == (if load == (bit::I) {
                        bit::I
                    } else {
                        bit::O
                    }));
                }
            }
            lemma_tree_write(
                old(self).kids_currents(),
                final(self).kids_currents(),
                512,
                hi,
                lo,
                clock_t.state,
                input@,
                load,
            );
            assert(bits_val(address@) == hi * 512 + lo);
            if clock_t.state == (ClockState::Tick) {
                assert(final(self).kids_prevs() =~= old(self).kids_currents());
                assert(final(self).prevs() =~= old(self).currents());
            } else {
                assert(final(self).kids_currents() =~= old(self).kids_currents());
                assert(final(self).kids_prevs() =~= old(self).kids_prevs());
                assert(final(self).prevs() =~= old(self).prevs());
            }
        }
    }

    /// Read the word at `address` at the clock's current phase.
    pub fn output(self, clock_t: &Clock, address: [bit; 12]) -> (r: Word)
        ensures
            r@ == self.out_at(clock_t.state)[bits_val(address@) as int],
    {
        let sel = [address[0], address[1], address[2]];
        let register_address = [address[3], address[4], address[5], address[6], address[7], address[8], address[9], address[10], address[11]];
        proof {
            assert(sel@ =~= address@.subrange(0, 3));
            assert(register_address@ =~= address@.subrange(3, 12));
            lemma_addr_split(address@, 3);
            lemma2_to64();
        }
        let r = mux8way16(
            self.rams[0].output(clock_t, register_address),
            self.rams[1].output(clock_t, register_address),
            self.rams[2].output(clock_t, register_address),
            self.rams[3].output(clock_t, register_address),
            self.rams[4].output(clock_t, register_address),
            self.rams[5].output(clock_t, register_address),
            self.rams[6].output(clock_t, register_address),
            self.rams[7].output(clock_t, register_address),
            sel,
        );
        proof {
            let hi = bits_val(address@.subrange(0, 3));
            let lo = bits_val(address@.subrange(3, 12));
            match clock_t.state {
                ClockState::Tick => {
                    lemma_tree_index(self.kids_prevs(), 512, hi, lo);
                },
                ClockState::Tock => {
                    lemma_tree_index(self.kids_currents(), 512, hi, lo);
                },
            }
        }
        r
    }
}

/// 16384 words: four `RAM4K` children behind a 14-bit address. The children
/// live on the heap: the node is the unit other components embed, and a
/// megabyte-scale value would not fit on a small stack.
#[derive(Debug)]
pub struct RAM16K {
    pub rams: Vec<RAM4K>,
}

impl RAM16K {
    /// The node owns exactly four children.
    pub open spec fn well_formed(self) -> bool {
        self.rams@.len() == 4
    }

    /// The children's currently latched contents.
    pub open spec fn kids_currents(self) -> Seq<Seq<Seq<bit>>> {
        Seq::new(4, |i: int| self.rams[i].currents())
    }

    /// The children's contents as latched one phase ago.
    pub open spec fn kids_prevs(self) -> Seq<Seq<Seq<bit>>> {
        Seq::new(4, |i: int| self.rams[i].prevs())
    }

    /// The 16384 currently latched words.
    pub open spec fn currents(self) -> Seq<Seq<bit>> {
        tree_flatten(self.kids_currents(), 4096)
    }

    /// The 16384 words latched one phase ago.
    pub open spec fn prevs(self) -> Seq<Seq<bit>> {
        tree_flatten(self.kids_prevs(), 4096)
    }

    /// The contents a read sees at the given phase.
    pub open spec fn out_at(self, phase: ClockState) -> Seq<Seq<bit>> {
        match phase {
            ClockState::Tick => self.prevs(),
            ClockState::Tock => self.currents(),
        }
    }

    pub fn new() -> (r: RAM16K)
        ensures
            r.well_formed(),
            r.currents() == all_zero_mem(16384),
            r.prevs() == all_zero_mem(16384),
    {
        let mut rams: Vec<RAM4K> = Vec::new();
        rams.push(RAM4K::new());
        rams.push(RAM4K::new());
        rams.push(RAM4K::new());
        rams.push(RAM4K::new());
        let r = RAM16K { rams };
        proof {
            assert(r.currents() =~= all_zero_mem(16384));
            assert(r.prevs() =~= all_zero_mem(16384));
        }
        r
    }

    /// Write `input` at `address` under the load enable; effective only
    /// during `Tick`.
    pub fn input(&mut self, clock_t: &Clock, input: Word, address: [bit; 14], load: bit)
        requires
            old(self).well_formed(),
        ensures
            final(self).well_formed(),
            final(self).currents() == spec_mem_write(
                old(self).currents(),
                clock_t.state,
                bits_val(address@),
                input@,
                load,
            ),
            final(self).prevs() == (if clock_t.state == (ClockState::Tick) {
                old(self).currents()
            } else {
                old(self).prevs()
            }),
    {
        let sel = [address[0], address[1]];
        let load_bit = dmux4way(load, sel);
        let register_address = [address[2], address[3], address[4], address[5], address[6], address[7], address[8], address[9], address[10], address[11], address[12], address[13]];
        proof {
            assert(sel@ =~= address@.subrange(0, 2));
            assert(register_address@ =~= address@.subrange(2, 14));
            lemma_addr_split(address@, 2);
            lemma2_to64();
        }
        for i in 0..4
            invariant
                self.well_formed(),
                load_bit@.len() == 4,
                forall|j: int|
                    0 <= j < 4 ==> load_bit@[j] == (if load == (bit::I) && j == bits_val(
                        address@.subrange(0, 2),
                    ) {
                        bit::I
                    } else {
                        bit::O
                    }),
                register_address@ == address@.subrange(2, 14),
                forall|j: int| i <= j < 4 ==> self.rams@[j] == old(self).rams@[j],
                forall|j: int|
                    0 <= j < i ==> (#[trigger] self.rams@[j]).currents() == spec_mem_write(
                        old(self).rams@[j].currents(),
                        clock_t.state,
                        bits_val(address@.subrange(2, 14)),
                        input@,
                        load_bit@[j],
                    ),
                forall|j: int|
                    0 <= j < i ==> (#[trigger] self.rams@[j]).prevs() == (if clock_t.state == (
                    ClockState::Tick) {
                        old(self).rams@[j].currents()
                    } else {
                        old(self).rams@[j].prevs()
                    }),
        {
            let mut child = self.rams[i];
            child.input(clock_t, input, register_address, load_bit[i]);
            self.rams.set(i, child);
        }
        proof {
            let hi = bits_val(address@.subrange(0, 2));
            let lo = bits_val(address@.subrange(2, 14));
            assert forall|c: int|
                0 <= c < 4 implies #[trigger] final(self).kids_currents()[c] == spec_mem_write(
                old(self).kids_currents()[c],
                clock_t.state,
                lo,
                input@,
                if c == hi {
                    load
                } else {
                    bit::O
                },
            ) by {
                if c == hi {
                    assert(load_bit@[c] == (if load == (bit::I) {
                        bit::I
                    } else {
                        bit::O
                    }));
                }
            }
            lemma_tree_write(
                old(self).kids_currents(),
                final(self).kids_currents(),
                4096,
                hi,
                lo,
                clock_t.state,
                input@,
                load,
            );
            assert(bits_val(address@) == hi * 4096 + lo);
            if clock_t.state == (ClockState::Tick) {
                assert(final(self).kids_prevs() =~= old(self).kids_currents());
                assert(final(self).prevs() =~= old(self).currents());
            } else {
                assert(final(self).kids_currents() =~= old(self).kids_currents());
                assert(final(self).kids_prevs() =~= old(self).kids_prevs());
                assert(final(self).prevs() =~= old(self).prevs());
            }
        }
    }

    /// Read the word at `address` at the clock's current phase.
    pub fn output(&self, clock_t: &Clock, address: [bit; 14]) -> (r: Word)
        requires
            self.well_formed(),
        ensures
            r@ == self.out_at(clock_t.state)[bits_val(address@) as int],
    {
        let sel = [address[0], address[1]];
        let register_address = [address[2], address[3], address[4], address[5], address[6], address[7], address[8], address[9], address[10], address[11], address[12], address[13]];
        proof {
            assert(sel@ =~= address@.subrange(0, 2));
            assert(register_address@ =~= address@.subrange(2, 14));
            lemma_addr_split(address@, 2);
            lemma2_to64();
        }
        let r = mux4way16(
            self.rams[0].output(clock_t, register_address),
            self.rams[1].output(clock_t, register_address),
            self.rams[2].output(clock_t, register_address),
            self.rams[3].output(clock_t, register_address),
            sel,
        );
        proof {
            let hi = bits_val(address@.subrange(0, 2));
            let lo = bits_val(address@.subrange(2, 14));
            match clock_t.state {
                ClockState::Tick => {
                    lemma_tree_index(self.kids_prevs(), 4096, hi, lo);
                },
                ClockState::Tock => {
                    lemma_tree_index(self.kids_currents(), 4096, hi, lo);
                },
            }
        }
        r
    }
}

/// The memory round trip: an enabled `Tick`-phase write of `v` at address
/// `a` makes the contents read back at the following `Tock` hold `v` at `a`,
/// while every other address `b` still holds what it held before.
pub proof fn lemma_ram_round_trip(mem: Seq<Seq<bit>>, a: nat, b: nat, v: Seq<bit>)
    requires
        a < mem.len(),
        b < mem.len(),
        a != b,
    ensures
        spec_mem_write(mem, ClockState::Tick, a, v, bit::I)[a as int] == v,
        spec_mem_write(mem, ClockState::Tick, a, v, bit::I)[b as int] == mem[b as int],
{
}

} // verus!
