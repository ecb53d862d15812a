//! Combinational logic: `nand` is the sole primitive; every other gate is
//! a composition of gates already defined from it.

#![allow(non_camel_case_types)]

use vstd::prelude::*;

use crate::numeric::{bits_val, bitv, lemma_bits_val2, lemma_bits_val3};

verus! {

/// A single binary signal: `O` is low, `I` is high.
#[derive(Debug, PartialEq, Eq, Structural, Copy, Clone)]
pub enum bit {
    O,
    I,
}

/// A 16-bit word; index 0 is the most significant bit.
#[derive(Debug, PartialEq, Eq, Copy, Clone)]
pub struct Word(pub [bit; 16]);

impl View for Word {
    type V = Seq<bit>;

    open spec fn view(&self) -> Seq<bit> {
        self.0@
    }
}

impl Word {
    pub fn new(bits: [bit; 16]) -> (w: Word)
        ensures
            w@ == bits@,
    {
        Word(bits)
    }

    /// Bit `index` of the word, index 0 being the most significant.
    pub fn at(&self, index: usize) -> (b: bit)
        requires
            index < 16,
        ensures
            b == self@[index as int],
    {
        self.0[index]
    }
}

pub open spec fn spec_nand(a: bit, b: bit) -> bit {
    if a == (bit::I) && b == (bit::I) {
        bit::O
    } else {
        bit::I
    }
}

pub open spec fn spec_not(a: bit) -> bit {
    if a == (bit::I) {
        bit::O
    } else {
        bit::I
    }
}

pub open spec fn spec_and(a: bit, b: bit) -> bit {
    if a == (bit::I) && b == (bit::I) {
        bit::I
    } else {
        bit::O
    }
}

pub open spec fn spec_or(a: bit, b: bit) -> bit {
    if a == (bit::I) || b == (bit::I) {
        bit::I
    } else {
        bit::O
    }
}

pub open spec fn spec_xor(a: bit, b: bit) -> bit {
    if a == b {
        bit::O
    } else {
        bit::I
    }
}

/// `spec_mux(a, b, sel)` is `a` when `sel` is low and `b` when `sel` is high.
pub open spec fn spec_mux(a: bit, b: bit, sel: bit) -> bit {
    if sel == (bit::I) {
        b
    } else {
        a
    }
}

pub fn nand(a: bit, b: bit) -> (r: bit)
    ensures
        r == spec_nand(a, b),
{
    match a {
        bit::O => match b {
            bit::O => bit::I,
            bit::I => bit::I,
        },
        bit::I => match b {
            bit::O => bit::I,
            bit::I => bit::O,
        },
    }
}

pub fn not(a: bit) -> (r: bit)
    ensures
        r == spec_not(a),
{
    nand(a, bit::I)
}

pub fn and(a: bit, b: bit) -> (r: bit)
    ensures
        r == spec_and(a, b),
{
    not(nand(a, b))
}

pub fn or(a: bit, b: bit) -> (r: bit)
    ensures
        r == spec_or(a, b),
{
    nand(not(a), not(b))
}

pub fn xor(a: bit, b: bit) -> (r: bit)
    ensures
        r == spec_xor(a, b),
{
    and(or(a, b), nand(a, b))
}

pub fn mux(a: bit, b: bit, sel: bit) -> (r: bit)
    ensures
        r == spec_mux(a, b, sel),
{
    xor(and(a, not(sel)), and(b, sel))
}

/// Routes `input` to lane 0 when `sel` is low, to lane 1 when `sel` is high;
/// the unselected lane is always low.
pub fn dmux(input: bit, sel: bit) -> (r: [bit; 2])
    ensures
        r@[0] == spec_and(input, spec_not(sel)),
        r@[1] == spec_and(input, sel),
{
    [and(input, not(sel)), and(input, sel)]
}


/// Per-lane negation of a bit sequence.
pub open spec fn seq_not(s: Seq<bit>) -> Seq<bit> {
    Seq::new(s.len(), |i: int| spec_not(s[i]))
}

/// Per-lane conjunction of two equally long bit sequences.
pub open spec fn seq_and(a: Seq<bit>, b: Seq<bit>) -> Seq<bit> {
    Seq::new(a.len(), |i: int| spec_and(a[i], b[i]))
}

/// Per-lane disjunction of two equally long bit sequences.
pub open spec fn seq_or(a: Seq<bit>, b: Seq<bit>) -> Seq<bit> {
    Seq::new(a.len(), |i: int| spec_or(a[i], b[i]))
}

pub fn not16(bits: Word) -> (r: Word)
    ensures
        r@ == seq_not(bits@),
{
    let mut out: [bit; 16] = [bit::O; 16];
    for i in 0..16
        invariant
            out@.len() == 16,
            forall|j: int| 0 <= j < i ==> out@[j] == spec_not(bits@[j]),
    {
        out[i] = not(bits.0[i]);
    }
    let r = Word(out);
    assert(r@ =~= seq_not(bits@));
    r
}

pub fn and16(a: Word, b: Word) -> (r: Word)
    ensures
        r@ == seq_and(a@, b@),
{
    let mut out: [bit; 16] = [bit::O; 16];
    for i in 0..16
        invariant
            out@.len() == 16,
            forall|j: int| 0 <= j < i ==> out@[j] == spec_and(a@[j], b@[j]),
    {
        out[i] = and(a.0[i], b.0[i]);
    }
    let r = Word(out);
    assert(r@ =~= seq_and(a@, b@));
    r
}

pub fn or16(a: Word, b: Word) -> (r: Word)
    ensures
        r@ == seq_or(a@, b@),
{
    let mut out: [bit; 16] = [bit::O; 16];
    for i in 0..16
        invariant
            out@.len() == 16,
            forall|j: int| 0 <= j < i ==> out@[j] == spec_or(a@[j], b@[j]),
    {
        out[i] = or(a.0[i], b.0[i]);
    }
    let r = Word(out);
    assert(r@ =~= seq_or(a@, b@));
    r
}

/// The word `a` when `sel` is low, `b` when `sel` is high, lane by lane.
pub fn mux16(a: Word, b: Word, sel: bit) -> (r: Word)
    ensures
        r@ == (if sel == (bit::I) {
            b@
        } else {
            a@
        }),
{
    let mut out: [bit; 16] = [bit::O; 16];
    for i in 0..16
        invariant
            out@.len() == 16,
            forall|j: int| 0 <= j < i ==> out@[j] == spec_mux(a@[j], b@[j], sel),
    {
        out[i] = mux(a.0[i], b.0[i], sel);
    }
    let r = Word(out);
    if sel == (bit::I) {
        assert(r@ =~= b@);
    } else {
        assert(r@ =~= a@);
    }
    r
}

/// High iff at least one of the eight inputs is high.
pub fn or8way(a: [bit; 8]) -> (r: bit)
    ensures
        (r == (bit::I)) <==> (exists|i: int| 0 <= i < 8 && a@[i] == (bit::I)),
{
    or(
        or(or(a[0], a[7]), or(a[1], a[6])),
        or(or(a[2], a[5]), or(a[3], a[4])),
    )
}

} // verus!

verus! {

/// The four-way one-bit selector: picks one of `a..d` by the two selector
/// bits, most significant first.
pub open spec fn spec_mux2(a: bit, b: bit, c: bit, d: bit, s0: bit, s1: bit) -> bit {
    if s0 == (bit::I) {
        if s1 == (bit::I) {
            d
        } else {
            c
        }
    } else {
        if s1 == (bit::I) {
            b
        } else {
            a
        }
    }
}

pub fn mux2(a: bit, b: bit, c: bit, d: bit, sel: [bit; 2]) -> (r: bit)
    ensures
        r == spec_mux2(a, b, c, d, sel@[0], sel@[1]),
{
    mux(mux(a, b, sel[1]), mux(c, d, sel[1]), sel[0])
}

/// The eight-way one-bit selector: picks one of `a..h` by the three selector
/// bits, most significant first.
pub open spec fn spec_mux3(
    a: bit,
    b: bit,
    c: bit,
    d: bit,
    e: bit,
    f: bit,
    g: bit,
    h: bit,
    sel: Seq<bit>,
) -> bit {
    if sel[0] == (bit::I) {
        spec_mux2(e, f, g, h, sel[1], sel[2])
    } else {
        spec_mux2(a, b, c, d, sel[1], sel[2])
    }
}

pub fn mux3(a: bit, b: bit, c: bit, d: bit, e: bit, f: bit, g: bit, h: bit, sel: [bit; 3]) -> (r:
    bit)
    ensures
        r == spec_mux3(a, b, c, d, e, f, g, h, sel@),
{
    mux2(
        mux(a, b, sel[2]),
        mux(c, d, sel[2]),
        mux(e, f, sel[2]),
        mux(g, h, sel[2]),
        [sel[0], sel[1]],
    )
}

/// Selects one of four words by the numeric value of the two selector bits.
pub fn mux4way16(a: Word, b: Word, c: Word, d: Word, sel: [bit; 2]) -> (r: Word)
    ensures
        bits_val(sel@) == 0 ==> r@ == a@,
        bits_val(sel@) == 1 ==> r@ == b@,
        bits_val(sel@) == 2 ==> r@ == c@,
        bits_val(sel@) == 3 ==> r@ == d@,
{
    let mut out: [bit; 16] = [bit::O; 16];
    for i in 0..16
        invariant
            out@.len() == 16,
            forall|j: int|
                0 <= j < i ==> out@[j] == spec_mux2(a@[j], b@[j], c@[j], d@[j], sel@[0], sel@[1]),
    {
        out[i] = mux2(a.0[i], b.0[i], c.0[i], d.0[i], sel);
    }
    let r = Word(out);
    proof {
        lemma_bits_val2(sel@);
        if sel@[0] == (bit::I) {
            if sel@[1] == (bit::I) {
                assert(r@ =~= d@);
            } else {
                assert(r@ =~= c@);
            }
        } else {
            if sel@[1] == (bit::I) {
                assert(r@ =~= b@);
            } else {
                assert(r@ =~= a@);
            }
        }
    }
    r
}

/// Selects one of eight words by the numeric value of the three selector bits.
pub fn mux8way16(
    a: Word,
    b: Word,
    c: Word,
    d: Word,
    e: Word,
    f: Word,
    g: Word,
    h: Word,
    sel: [bit; 3],
) -> (r: Word)
    ensures
        bits_val(sel@) == 0 ==> r@ == a@,
        bits_val(sel@) == 1 ==> r@ == b@,
        bits_val(sel@) == 2 ==> r@ == c@,
        bits_val(sel@) == 3 ==> r@ == d@,
        bits_val(sel@) == 4 ==> r@ == e@,
        bits_val(sel@) == 5 ==> r@ == f@,
        bits_val(sel@) == 6 ==> r@ == g@,
        bits_val(sel@) == 7 ==> r@ == h@,
{
    let mut out: [bit; 16] = [bit::O; 16];
    for i in 0..16
        invariant
            out@.len() == 16,
            forall|j: int|
                0 <= j < i ==> out@[j] == spec_mux3(
                    a@[j],
                    b@[j],
                    c@[j],
                    d@[j],
                    e@[j],
                    f@[j],
                    g@[j],
                    h@[j],
                    sel@,
                ),
    {
        out[i] = mux3(a.0[i], b.0[i], c.0[i], d.0[i], e.0[i], f.0[i], g.0[i], h.0[i], sel);
    }
    let r = Word(out);
    proof {
        lemma_bits_val3(sel@);
        let v = bits_val(sel@);
        if v == 0 {
            assert(r@ =~= a@);
        } else if v == 1 {
            assert(r@ =~= b@);
        } else if v == 2 {
            assert(r@ =~= c@);
        } else if v == 3 {
            assert(r@ =~= d@);
        } else if v == 4 {
            assert(r@ =~= e@);
        } else if v == 5 {
            assert(r@ =~= f@);
        } else if v == 6 {
            assert(r@ =~= g@);
        } else if v == 7 {
            assert(r@ =~= h@);
        }
    }
    r
}

/// Routes `input` to the lane whose index is the numeric value of the two
/// selector bits; every other lane is low.
pub fn dmux4way(input: bit, sel: [bit; 2]) -> (r: [bit; 4])
    ensures
        r@.len() == 4,
        forall|i: int|
            0 <= i < 4 ==> r@[i] == (if input == (bit::I) && i == bits_val(sel@) {
                bit::I
            } else {
                bit::O
            }),
{
    let r = [
        and(and(not(xor(sel[0], bit::O)), not(xor(sel[1], bit::O))), input),
        and(and(not(xor(sel[0], bit::O)), not(xor(sel[1], bit::I))), input),
        and(and(not(xor(sel[0], bit::I)), not(xor(sel[1], bit::O))), input),
        and(and(not(xor(sel[0], bit::I)), not(xor(sel[1], bit::I))), input),
    ];
    proof {
        lemma_bits_val2(sel@);
        assert forall|i: int| 0 <= i < 4 implies r@[i] == (if input == (bit::I) && i == bits_val(
            sel@,
        ) {
            bit::I
        } else {
            bit::O
        }) by {
            assert(r@[0] == spec_and(spec_and(spec_not(spec_xor(sel@[0], bit::O)), spec_not(spec_xor(sel@[1], bit::O))), input));
        }
    }
    r
}

/// Routes `input` to the lane whose index is the numeric value of the three
/// selector bits; every other lane is low.
pub fn dmux8way(input: bit, sel: [bit; 3]) -> (r: [bit; 8])
    ensures
        r@.len() == 8,
        forall|i: int|
            0 <= i < 8 ==> r@[i] == (if input == (bit::I) && i == bits_val(sel@) {
                bit::I
            } else {
                bit::O
            }),
{
    let l0 = and(and(and(nxor(sel[0], bit::O), nxor(sel[1], bit::O)), nxor(sel[2], bit::O)), input);
    let l1 = and(and(and(nxor(sel[0], bit::O), nxor(sel[1], bit::O)), nxor(sel[2], bit::I)), input);
    let l2 = and(and(and(nxor(sel[0], bit::O), nxor(sel[1], bit::I)), nxor(sel[2], bit::O)), input);
    let l3 = and(and(and(nxor(sel[0], bit::O), nxor(sel[1], bit::I)), nxor(sel[2], bit::I)), input);
    let l4 = and(and(and(nxor(sel[0], bit::I), nxor(sel[1], bit::O)), nxor(sel[2], bit::O)), input);
    let l5 = and(and(and(nxor(sel[0], bit::I), nxor(sel[1], bit::O)), nxor(sel[2], bit::I)), input);
    let l6 = and(and(and(nxor(sel[0], bit::I), nxor(sel[1], bit::I)), nxor(sel[2], bit::O)), input);
    let l7 = and(and(and(nxor(sel[0], bit::I), nxor(sel[1], bit::I)), nxor(sel[2], bit::I)), input);
    let r = [l0, l1, l2, l3, l4, l5, l6, l7];
    proof {
        lemma_bits_val3(sel@);
    }
    r
}

/// Negated exclusive-or: high iff both inputs agree.
fn nxor(a: bit, b: bit) -> (r: bit)
    ensures
        r == spec_not(spec_xor(a, b)),
{
    not(xor(a, b))
}

/// Negation is the primitive applied to one input twice.
pub proof fn lemma_not_from_nand(a: bit)
    ensures
        spec_not(a) == spec_nand(a, a),
{
}

/// Conjunction is the negated primitive.
pub proof fn lemma_and_from_nand(a: bit, b: bit)
    ensures
        spec_and(a, b) == spec_not(spec_nand(a, b)),
{
}

/// De Morgan's identities for the gates built from the primitive.
pub proof fn lemma_de_morgan(a: bit, b: bit)
    ensures
        spec_or(a, b) == spec_not(spec_and(spec_not(a), spec_not(b))),
        spec_and(a, b) == spec_not(spec_or(spec_not(a), spec_not(b))),
{
}

/// The primitive is unique: any two-input gate from which conjunction is
/// recovered by negation must be the primitive itself.
pub proof fn lemma_nand_unique(g: spec_fn(bit, bit) -> bit)
    requires
        forall|a: bit, b: bit| spec_and(a, b) == spec_not(#[trigger] g(a, b)),
    ensures
        forall|a: bit, b: bit| #[trigger] g(a, b) == spec_nand(a, b),
{
    assert forall|a: bit, b: bit| #[trigger] g(a, b) == spec_nand(a, b) by {
        assert(spec_and(a, b) == spec_not(g(a, b)));
    }
}

} // verus!
