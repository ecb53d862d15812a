//! The arithmetic-logic unit: a pure combinational function of two words and
//! six control bits, with a zero flag and a negative flag.

use vstd::prelude::*;

use crate::arithmetic::{add16, spec_add16};
use crate::logic::{and16, bit, mux16, not, not16, or, or8way, seq_and, seq_not, Word};
use crate::numeric::{bits_val, lemma_bits_val_zero_iff};
use crate::pc::seq_zero16;

verus! {

/// What the ALU computes: zero `x` under `zx`, then negate it under `nx`;
/// the same for `y` under `zy` and `ny`; combine with bitwise AND when `f`
/// is low and 16-bit addition when `f` is high; negate the result under `no`.
#[verifier::opaque]
pub open spec fn spec_alu_out(
    x: Seq<bit>,
    y: Seq<bit>,
    zx: bit,
    nx: bit,
    zy: bit,
    ny: bit,
    f: bit,
    no: bit,
) -> Seq<bit> {
    let x1 = if zx == (bit::I) {
        seq_zero16()
    } else {
        x
    };
    let x2 = if nx == (bit::I) {
        seq_not(x1)
    } else {
        x1
    };
    let y1 = if zy == (bit::I) {
        seq_zero16()
    } else {
        y
    };
    let y2 = if ny == (bit::I) {
        seq_not(y1)
    } else {
        y1
    };
    let out1 = if f == (bit::I) {
        spec_add16(x2, y2)
    } else {
        seq_and(x2, y2)
    };
    if no == (bit::I) {
        seq_not(out1)
    } else {
        out1
    }
}

/// The ALU: returns the function value, the zero flag (high iff every result
/// bit is low) and the negative flag (the result's most significant bit).
pub fn alu(x: Word, y: Word, zx: bit, nx: bit, zy: bit, ny: bit, f: bit, no: bit) -> (r: (
    Word,
    bit,
    bit,
))
    requires
        x@.len() == 16,
        y@.len() == 16,
    ensures
        r.0@ == spec_alu_out(x@, y@, zx, nx, zy, ny, f, no),
        r.1 == (if bits_val(r.0@) == 0 {
            bit::I
        } else {
            bit::O
        }),
        r.2 == r.0@[0],
{
    let all0 = Word([bit::O; 16]);
    proof {
        assert(all0@ =~= seq_zero16());
    }
    let x1 = mux16(x, all0, zx);
    let x2 = mux16(x1, not16(x1), nx);
    let y1 = mux16(y, all0, zy);
    let y2 = mux16(y1, not16(y1), ny);
    let out1 = mux16(and16(x2, y2), add16(x2, y2), f);
    let out2 = mux16(out1, not16(out1), no);
    proof {
        assert(out2@ == spec_alu_out(x@, y@, zx, nx, zy, ny, f, no)) by {
            reveal(spec_alu_out);
        }
    }
    let low = [
        out2.0[0],
        out2.0[1],
        out2.0[2],
        out2.0[3],
        out2.0[4],
        out2.0[5],
        out2.0[6],
        out2.0[7],
    ];
    let high = [
        out2.0[8],
        out2.0[9],
        out2.0[10],
        out2.0[11],
        out2.0[12],
        out2.0[13],
        out2.0[14],
        out2.0[15],
    ];
    let zr = not(or(or8way(low), or8way(high)));
    let ng = out2.0[0];
    proof {
        assert(out2@.len() == 16);
        lemma_bits_val_zero_iff(out2@);
        if exists|i: int| 0 <= i < 16 && out2@[i] == (bit::I) {
            let i = choose|i: int| 0 <= i < 16 && out2@[i] == (bit::I);
            if i < 8 {
                assert(low@[i] == (bit::I));
            } else {
                assert(high@[i - 8] == (bit::I));
            }
            assert(zr == (bit::O));
        } else {
            assert(forall|i: int| 0 <= i < 8 ==> low@[i] != (bit::I));
            assert(forall|i: int| 0 <= i < 8 ==> high@[i] != (bit::I));
            assert(forall|i: int| 0 <= i < 16 ==> out2@[i] == (bit::O));
            assert(zr == (bit::I));
        }
    }
    (out2, zr, ng)
}

} // verus!
