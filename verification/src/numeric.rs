//! Numeric interpretation of bit sequences: a sequence of bits, most
//! significant first, denotes an unsigned integer. These spec functions and
//! lemmas connect the adders and address decoders to ordinary arithmetic.

use vstd::arithmetic::div_mod::lemma_mod_breakdown;
use vstd::arithmetic::power2::*;
use vstd::prelude::*;

use crate::logic::bit;

verus! {

/// The numeric value of one bit.
pub open spec fn bitv(b: bit) -> nat {
    if b == (bit::I) {
        1
    } else {
        0
    }
}

/// The unsigned value of a bit sequence, most significant bit first.
pub open spec fn bits_val(s: Seq<bit>) -> nat
    decreases s.len(),
{
    if s.len() == 0 {
        0
    } else {
        2 * bits_val(s.drop_last()) + bitv(s.last())
    }
}

/// The `n`-bit encoding of `v % pow2(n)`, most significant bit first.
pub open spec fn bits_of(v: nat, n: nat) -> Seq<bit>
    decreases n,
{
    if n == 0 {
        Seq::empty()
    } else {
        bits_of(v / 2, (n - 1) as nat).push(if v % 2 == 1 {
            bit::I
        } else {
            bit::O
        })
    }
}

pub proof fn lemma_bits_val_bound(s: Seq<bit>)
    ensures
        bits_val(s) < pow2(s.len()),
    decreases s.len(),
{
    if s.len() == 0 {
        lemma2_to64();
    } else {
        lemma_bits_val_bound(s.drop_last());
        lemma_pow2_unfold(s.len());
    }
}

pub proof fn lemma_bits_of_len(v: nat, n: nat)
    ensures
        bits_of(v, n).len() == n,
    decreases n,
{
    if n > 0 {
        lemma_bits_of_len(v / 2, (n - 1) as nat);
    }
}

/// Decoding after encoding gives the value back, modulo `pow2(n)`.
pub proof fn lemma_bits_of_val(v: nat, n: nat)
    ensures
        bits_val(bits_of(v, n)) == v % pow2(n),
    decreases n,
{
    if n == 0 {
        lemma2_to64();
    } else {
        let s = bits_of(v, n);
        let s0 = bits_of(v / 2, (n - 1) as nat);
        lemma_bits_of_val(v / 2, (n - 1) as nat);
        lemma_bits_of_len(v / 2, (n - 1) as nat);
        assert(s.drop_last() =~= s0);
        lemma_pow2_unfold(n);
        lemma_pow2_pos((n - 1) as nat);
        lemma_mod_breakdown(v as int, 2, pow2((n - 1) as nat) as int);
    }
}

/// Encoding the value of a sequence gives the sequence back: on sequences of
/// one length, the numeric value is injective.
pub proof fn lemma_val_bits_roundtrip(s: Seq<bit>)
    ensures
        bits_of(bits_val(s), s.len()) == s,
    decreases s.len(),
{
    if s.len() > 0 {
        let v = bits_val(s);
        let s0 = s.drop_last();
        lemma_val_bits_roundtrip(s0);
        assert(v == 2 * bits_val(s0) + bitv(s.last()));
        assert(v / 2 == bits_val(s0) && v % 2 == bitv(s.last())) by (nonlinear_arith)
            requires
                v == 2 * bits_val(s0) + bitv(s.last()),
                bitv(s.last()) < 2,
        ;
        assert(bits_of(v, s.len()) =~= s);
    }
}

/// Splitting a sequence splits its value: the leading bits are weighted by
/// `pow2` of the count of trailing bits.
pub proof fn lemma_bits_val_split(s: Seq<bit>, k: int)
    requires
        0 <= k <= s.len(),
    ensures
        bits_val(s) == bits_val(s.subrange(0, k)) * pow2((s.len() - k) as nat) + bits_val(
            s.subrange(k, s.len() as int),
        ),
    decreases s.len() - k,
{
    if k == s.len() {
        assert(s.subrange(0, k) =~= s);
        assert(s.subrange(k, s.len() as int).len() == 0);
        assert(bits_val(s.subrange(k, s.len() as int)) == 0);
        lemma2_to64();
        assert(bits_val(s) * pow2((s.len() - k) as nat) == bits_val(s)) by (nonlinear_arith)
            requires
                pow2((s.len() - k) as nat) == 1,
        ;
    } else {
        let hi = s.subrange(0, k);
        let lo = s.subrange(k, s.len() as int);
        let hi1 = s.subrange(0, k + 1);
        let lo1 = s.subrange(k + 1, s.len() as int);
        let n = (s.len() - k - 1) as nat;
        lemma_bits_val_split(s, k + 1);
        assert(hi1.drop_last() =~= hi);
        assert(hi1.last() == s[k]);
        assert(bits_val(hi1) == 2 * bits_val(hi) + bitv(s[k]));
        lemma_bits_val_unfold_first(lo);
        assert(lo.subrange(1, lo.len() as int) =~= lo1);
        assert(lo[0] == s[k]);
        assert(bits_val(lo) == bitv(s[k]) * pow2(n) + bits_val(lo1));
        lemma_pow2_unfold((s.len() - k) as nat);
        assert(pow2((s.len() - k) as nat) == 2 * pow2(n));
        assert((2 * bits_val(hi) + bitv(s[k])) * pow2(n) == bits_val(hi) * (2 * pow2(n)) + bitv(
            s[k],
        ) * pow2(n)) by (nonlinear_arith);
        assert(bits_val(hi) * (2 * pow2(n)) == bits_val(hi) * pow2((s.len() - k) as nat))
            by (nonlinear_arith)
            requires
                pow2((s.len() - k) as nat) == 2 * pow2(n),
        ;
        assert(bits_val(s) == bits_val(hi) * pow2((s.len() - k) as nat) + bits_val(lo));
    }
}

/// The value of a sequence, unfolded at its first (most significant) bit.
pub proof fn lemma_bits_val_unfold_first(s: Seq<bit>)
    requires
        s.len() > 0,
    ensures
        bits_val(s) == bitv(s[0]) * pow2((s.len() - 1) as nat) + bits_val(
            s.subrange(1, s.len() as int),
        ),
    decreases s.len(),
{
    if s.len() == 1 {
        assert(s.drop_last().len() == 0);
        assert(bits_val(s.drop_last()) == 0);
        assert(s.subrange(1, 1).len() == 0);
        assert(bits_val(s.subrange(1, 1)) == 0);
        assert(s.last() == s[0]);
        assert(bits_val(s) == bitv(s[0]));
        lemma2_to64();
        assert(pow2(0) == 1);
    } else {
        let t = s.drop_last();
        let s1 = s.subrange(1, s.len() as int);
        let t1 = t.subrange(1, t.len() as int);
        let n = (s.len() - 2) as nat;
        lemma_bits_val_unfold_first(t);
        assert(s1.drop_last() =~= t1);
        assert(s1.last() == s.last());
        assert(bits_val(s1) == 2 * bits_val(t1) + bitv(s.last()));
        assert(bits_val(s) == 2 * bits_val(t) + bitv(s.last()));
        assert(bits_val(t) == bitv(t[0]) * pow2(n) + bits_val(t1));
        assert(t[0] == s[0]);
        lemma_pow2_unfold((s.len() - 1) as nat);
        assert(pow2((s.len() - 1) as nat) == 2 * pow2(n));
        assert(2 * (bitv(s[0]) * pow2(n) + bits_val(t1)) + bitv(s.last()) == bitv(s[0]) * (2
            * pow2(n)) + (2 * bits_val(t1) + bitv(s.last()))) by (nonlinear_arith);
        assert(bitv(s[0]) * (2 * pow2(n)) == bitv(s[0]) * pow2((s.len() - 1) as nat))
            by (nonlinear_arith)
            requires
                pow2((s.len() - 1) as nat) == 2 * pow2(n),
        ;
        assert(bits_val(s) == bitv(s[0]) * pow2((s.len() - 1) as nat) + bits_val(s1));
    }
}

/// The value of a two-bit sequence, written out.
pub proof fn lemma_bits_val2(s: Seq<bit>)
    requires
        s.len() == 2,
    ensures
        bits_val(s) == 2 * bitv(s[0]) + bitv(s[1]),
{
    let t = s.drop_last();
    assert(t.drop_last().len() == 0);
    assert(bits_val(t.drop_last()) == 0);
    assert(t.last() == s[0]);
    assert(bits_val(t) == bitv(s[0]));
}

/// The value of a three-bit sequence, written out.
pub proof fn lemma_bits_val3(s: Seq<bit>)
    requires
        s.len() == 3,
    ensures
        bits_val(s) == 4 * bitv(s[0]) + 2 * bitv(s[1]) + bitv(s[2]),
{
    let t = s.drop_last();
    lemma_bits_val2(t);
    assert(t[0] == s[0] && t[1] == s[1] && t.len() == 2);
}

/// A sequence denotes zero exactly when every bit in it is low.
pub proof fn lemma_bits_val_zero_iff(s: Seq<bit>)
    ensures
        (bits_val(s) == 0) <==> (forall|i: int| 0 <= i < s.len() ==> s[i] == (bit::O)),
    decreases s.len(),
{
    if s.len() > 0 {
        let t = s.drop_last();
        lemma_bits_val_zero_iff(t);
        assert(forall|i: int| 0 <= i < t.len() ==> t[i] == s[i]);
        if bits_val(s) == 0 {
            assert(bitv(s.last()) == 0);
            assert(s.last() == (bit::O));
        }
        if forall|i: int| 0 <= i < s.len() ==> s[i] == (bit::O) {
            assert(s.last() == (bit::O));
        }
    }
}

/// Dropping the most significant bit of an encoding shortens it by one:
/// the remaining bits encode the same value modulo the smaller power.
pub proof fn lemma_bits_of_drop_msb(v: nat, n: nat)
    ensures
        bits_of(v, (n + 1) as nat).subrange(1, n + 1 as int) == bits_of(v, n),
    decreases n,
{
    lemma_bits_of_len(v, (n + 1) as nat);
    lemma_bits_of_len(v / 2, n);
    if n == 0 {
        assert(bits_of(v, 1).subrange(1, 1 as int) =~= bits_of(v, 0));
    } else {
        lemma_bits_of_drop_msb(v / 2, (n - 1) as nat);
        lemma_bits_of_len(v / 2, (n - 1) as nat);
        assert(bits_of(v, (n + 1) as nat).subrange(1, n + 1 as int) =~= bits_of(v, n));
    }
}

} // verus!
