//! Gate-level addition: a half adder, a full adder, and a 16-bit ripple-carry
//! adder whose contract is integer addition modulo 2^16.

use vstd::arithmetic::div_mod::{lemma_mod_multiples_vanish, lemma_small_mod};
use vstd::arithmetic::power2::*;
use vstd::prelude::*;

use crate::logic::{and, bit, or, xor, Word};
use crate::numeric::{
    bits_of, bits_val, bitv, lemma_bits_val_bound, lemma_bits_val_unfold_first,
    lemma_bits_val_zero_iff, lemma_val_bits_roundtrip,
};

verus! {

/// What the ripple-carry adder computes: the 16-bit encoding of the sum of
/// the two operands' values, modulo 2^16.
pub open spec fn spec_add16(a: Seq<bit>, b: Seq<bit>) -> Seq<bit> {
    bits_of(((bits_val(a) + bits_val(b)) % pow2(16)) as nat, 16)
}

/// The 16-bit encoding of the successor of the operand's value, modulo 2^16.
pub open spec fn spec_inc16(s: Seq<bit>) -> Seq<bit> {
    bits_of(((bits_val(s) + 1) % pow2(16)) as nat, 16)
}

/// Adds two bits; `r[0]` is the carry, `r[1]` the sum.
pub fn half_adder(a: bit, b: bit) -> (r: [bit; 2])
    ensures
        2 * bitv(r@[0]) + bitv(r@[1]) == bitv(a) + bitv(b),
{
    [and(a, b), xor(a, b)]
}

/// Adds two bits and a carry; `r[0]` is the carry out, `r[1]` the sum.
pub fn full_adder(a: bit, b: bit, c: bit) -> (r: [bit; 2])
    ensures
        2 * bitv(r@[0]) + bitv(r@[1]) == bitv(a) + bitv(b) + bitv(c),
{
    let bc = half_adder(b, c);
    let a_bc1 = half_adder(a, bc[1]);
    [or(bc[0], a_bc1[0]), a_bc1[1]]
}

/// Adds one to a bit; `r[0]` is the carry, `r[1]` the sum.
pub fn inc(a: bit) -> (r: [bit; 2])
    ensures
        2 * bitv(r@[0]) + bitv(r@[1]) == bitv(a) + 1,
{
    half_adder(a, bit::I)
}

/// 16-bit addition modulo 2^16, as a ripple-carry chain of one half adder at
/// the least significant bit and fifteen full adders.
pub fn add16(a: Word, b: Word) -> (r: Word)
    ensures
        r@.len() == 16,
        bits_val(r@) == (bits_val(a@) + bits_val(b@)) % 0x10000,
        r@ == spec_add16(a@, b@),
{
    let mut out: [bit; 16] = [bit::O; 16];
    let first = half_adder(a.0[15], b.0[15]);
    out[15] = first[1];
    let mut carry: bit = first[0];
    proof {
        assert(a@.subrange(15, 16) =~= seq![a@[15]]);
        assert(b@.subrange(15, 16) =~= seq![b@[15]]);
        assert(out@.subrange(15, 16) =~= seq![out@[15]]);
        lemma_bits_val_single(a@[15]);
        lemma_bits_val_single(b@[15]);
        lemma_bits_val_single(out@[15]);
        lemma2_to64();
    }
    for i in 0..15
        invariant
            out@.len() == 16,
            bits_val(a@.subrange(15 - i, 16)) + bits_val(b@.subrange(15 - i, 16)) == bits_val(
                out@.subrange(15 - i, 16),
            ) + bitv(carry) * pow2((i + 1) as nat),
            a@.len() == 16,
            b@.len() == 16,
    {
        let idx = 14 - i;
        let fa = full_adder(a.0[idx], b.0[idx], carry);
        let carry_in: Ghost<bit> = Ghost(carry);
        let ghost old_out = out@;
        out[idx] = fa[1];
        carry = fa[0];
        proof {
            let j = idx as int;
            let p = pow2((i + 1) as nat);
            assert(out@.subrange(j + 1, 16) =~= old_out.subrange(j + 1, 16));
            lemma_step(a@, j, p);
            lemma_step(b@, j, p);
            lemma_step(out@, j, p);
            lemma_pow2_unfold((i + 2) as nat);
            assert((bitv(a@[j]) + bitv(b@[j]) + bitv(carry_in@)) * p == bitv(a@[j]) * p + bitv(
                b@[j],
            ) * p + bitv(carry_in@) * p) by (nonlinear_arith);
            assert((2 * bitv(fa@[0]) + bitv(fa@[1])) * p == bitv(fa@[0]) * (2 * p) + bitv(fa@[1])
                * p) by (nonlinear_arith);
            assert(bitv(a@[j]) * p + bitv(b@[j]) * p + bitv(carry_in@) * p == bitv(fa@[0]) * (2 * p)
                + bitv(fa@[1]) * p) by (nonlinear_arith)
                requires
                    bitv(a@[j]) + bitv(b@[j]) + bitv(carry_in@) == 2 * bitv(fa@[0]) + bitv(fa@[1]),
            ;
        }
    }
    let r = Word(out);
    proof {
        assert(a@.subrange(0, 16) =~= a@);
        assert(b@.subrange(0, 16) =~= b@);
        assert(r@.subrange(0, 16) =~= r@);
        lemma_bits_val_bound(r@);
        lemma2_to64();
        let total = (bits_val(a@) + bits_val(b@)) as int;
        if carry == (bit::I) {
            lemma_mod_multiples_vanish(1, bits_val(r@) as int, pow2(16) as int);
        }
        lemma_small_mod(bits_val(r@), pow2(16));
        lemma_val_bits_roundtrip(r@);
    }
    r
}

/// The numeric value of a sequence extended downward by one bit.
proof fn lemma_step(s: Seq<bit>, j: int, p: nat)
    requires
        s.len() == 16,
        0 <= j < 15,
        p == pow2((15 - j) as nat),
    ensures
        bits_val(s.subrange(j, 16)) == bitv(s[j]) * p + bits_val(s.subrange(j + 1, 16)),
{
    let t = s.subrange(j, 16);
    lemma_bits_val_unfold_first(t);
    assert(t.subrange(1, t.len() as int) =~= s.subrange(j + 1, 16));
}

/// The value of a one-bit sequence is the value of its bit.
proof fn lemma_bits_val_single(b: bit)
    ensures
        bits_val(seq![b]) == bitv(b),
{
    assert(seq![b].drop_last().len() == 0);
    assert(bits_val(seq![b].drop_last()) == 0);
    assert(seq![b].last() == b);
}

/// Adds one, modulo 2^16.
pub fn inc16(a: Word) -> (r: Word)
    ensures
        r@.len() == 16,
        bits_val(r@) == (bits_val(a@) + 1) % 0x10000,
        r@ == spec_inc16(a@),
{
    let one = Word(
        [
            bit::O,
            bit::O,
            bit::O,
            bit::O,
            bit::O,
            bit::O,
            bit::O,
            bit::O,
            bit::O,
            bit::O,
            bit::O,
            bit::O,
            bit::O,
            bit::O,
            bit::O,
            bit::I,
        ],
    );
    proof {
        assert(one@.drop_last() =~= Seq::new(15, |i: int| bit::O));
        lemma_bits_val_zero_iff(one@.drop_last());
        assert(bits_val(one@) == 1);
        lemma2_to64();
    }
    add16(a, one)
}

/// Addition of a word whose value is zero returns the other word unchanged:
/// the zero word is the identity of the ripple-carry adder.
pub proof fn lemma_add16_identity(a: Seq<bit>, b: Seq<bit>)
    requires
        a.len() == 16,
        b.len() == 16,
        bits_val(b) == 0,
    ensures
        spec_add16(a, b) == a,
{
    lemma_bits_val_bound(a);
    lemma2_to64();
    lemma_small_mod(bits_val(a), pow2(16));
    lemma_val_bits_roundtrip(a);
}

} // verus!
