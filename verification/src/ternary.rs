//! Ternary weight formats.
use vstd::prelude::*;
use crate::bits::{field2, field2_of, le16_of, rdf16};
use crate::format::{Shape, WeightFormat};

verus! {

/// `3^n`.
pub open spec fn three_pow(n: int) -> int {
    if n == 0 {
        1
    } else if n == 1 {
        3
    } else if n == 2 {
        9
    } else if n == 3 {
        27
    } else {
        81
    }
}

/// Ternary digit `n` of a byte that packs five of them: the top digit, in base 3 of 256ths, of
/// the byte times `3^n`.
pub open spec fn trit_of(x: u8, n: int) -> int {
    (((x * three_pow(n)) % 256) * 3) / 256
}

/// Ternary digit `n` of a byte.
fn trit(x: u8, n: usize) -> (r: u8)
    requires
        n < 5,
    ensures
        r == trit_of(x, n as int),
        r < 3,
{
    let p: u16 = if n == 0 {
        1
    } else if n == 1 {
        3
    } else if n == 2 {
        9
    } else if n == 3 {
        27
    } else {
        81
    };
    assert(x * p <= 255 * 81) by (nonlinear_arith)
        requires
            0 <= x <= 255,
            0 <= p <= 81,
    ;
    let q: u16 = ((x as u16) * p) % 256;
    ((q * 3) / 256) as u8
}

/// The digit index and the byte that element `e` of a TQ1_0 block is packed in: five passes over
/// 32 bytes, five over 16 bytes, four over the last 4 bytes.
pub open spec fn tq1_place(e: int) -> (int, int) {
    if e < 160 {
        (e / 32, e % 32)
    } else if e < 240 {
        ((e - 160) / 16, 32 + (e - 160) % 16)
    } else {
        ((e - 240) / 4, 48 + (e - 240) % 4)
    }
}

/// TQ1_0: 54 bytes for 256 weights, `d*(digit - 1)` with five ternary digits to a byte.
pub struct Tq1_0;

impl WeightFormat for Tq1_0 {
    open spec fn shape(&self) -> Shape {
        Shape { bytes: 54, elems: 256, sub: 32, unit: 256, offset: 0 }
    }

    open spec fn valid(&self) -> bool {
        true
    }

    open spec fn code(&self, blk: Seq<u8>, e: int) -> int {
        trit_of(blk[tq1_place(e).1], tq1_place(e).0) - 1
    }

    open spec fn scale(&self, blk: Seq<u8>, s: int) -> int {
        1
    }

    open spec fn min(&self, blk: Seq<u8>, s: int) -> int {
        0
    }

    open spec fn d(&self, blk: Seq<u8>, u: int) -> int {
        le16_of(blk, 52)
    }

    open spec fn aux(&self, blk: Seq<u8>, u: int) -> int {
        0
    }

    proof fn lemma_shape(&self) {
    }

    fn shape_of(&self) -> (r: Shape) {
        Shape { bytes: 54, elems: 256, sub: 32, unit: 256, offset: 0 }
    }

    fn code_at(&self, blk: &[u8], e: usize) -> (r: i8) {
        let (n, at): (usize, usize) = if e < 160 {
            (e / 32, e % 32)
        } else if e < 240 {
            ((e - 160) / 16, 32 + (e - 160) % 16)
        } else {
            ((e - 240) / 4, 48 + (e - 240) % 4)
        };
        trit(blk[at], n) as i8 - 1
    }

    fn scale_at(&self, blk: &[u8], s: usize) -> (r: i32) {
        1
    }

    fn min_at(&self, blk: &[u8], s: usize) -> (r: i32) {
        0
    }

    fn d_at(&self, blk: &[u8], u: usize) -> (r: u16) {
        rdf16(blk, 52)
    }

    fn aux_at(&self, blk: &[u8], u: usize) -> (r: u16) {
        0
    }
}

/// TQ2_0: 66 bytes for 256 weights, `d*(code - 1)` with 2-bit codes.
pub struct Tq2_0;

impl WeightFormat for Tq2_0 {
    open spec fn shape(&self) -> Shape {
        Shape { bytes: 66, elems: 256, sub: 32, unit: 256, offset: 0 }
    }

    open spec fn valid(&self) -> bool {
        true
    }

    open spec fn code(&self, blk: Seq<u8>, e: int) -> int {
        field2_of(blk[32 * (e / 128) + e % 32], (e % 128) / 32) - 1
    }

    open spec fn scale(&self, blk: Seq<u8>, s: int) -> int {
        1
    }

    open spec fn min(&self, blk: Seq<u8>, s: int) -> int {
        0
    }

    open spec fn d(&self, blk: Seq<u8>, u: int) -> int {
        le16_of(blk, 64)
    }

    open spec fn aux(&self, blk: Seq<u8>, u: int) -> int {
        0
    }

    proof fn lemma_shape(&self) {
    }

    fn shape_of(&self) -> (r: Shape) {
        Shape { bytes: 66, elems: 256, sub: 32, unit: 256, offset: 0 }
    }

    fn code_at(&self, blk: &[u8], e: usize) -> (r: i8) {
        field2(blk[32 * (e / 128) + e % 32], (e % 128) / 32) as i8 - 1
    }

    fn scale_at(&self, blk: &[u8], s: usize) -> (r: i32) {
        1
    }

    fn min_at(&self, blk: &[u8], s: usize) -> (r: i32) {
        0
    }

    fn d_at(&self, blk: &[u8], u: usize) -> (r: u16) {
        rdf16(blk, 64)
    }

    fn aux_at(&self, blk: &[u8], u: usize) -> (r: u16) {
        0
    }
}

/// A byte of a TQ1_0 block is a fraction of 256 whose digits to the base 3 are weights raised by 1:
/// three times the rest is the next digit and the next rest. The digits of a byte are as many
/// elements apart as the run has bytes; the runs have 32, 16 and 4 bytes.
pub proof fn law_tq1_0_digits(blk: Seq<u8>, i: int, t: Seq<int>, r: Seq<int>, n: int)
    requires
        blk.len() == 54,
        0 <= i < 52,
        t.len() == 5,
        r.len() == 6,
        r[0] == blk[i],
        3 * r[0] == 256 * t[0] + r[1],
        3 * r[1] == 256 * t[1] + r[2],
        3 * r[2] == 256 * t[2] + r[3],
        3 * r[3] == 256 * t[3] + r[4],
        3 * r[4] == 256 * t[4] + r[5],
        forall|k: int| 0 <= k < 6 ==> 0 <= #[trigger] r[k] < 256,
        0 <= n < 5,
        48 <= i ==> n < 4,
    ensures
        i < 32 ==> Tq1_0.code(blk, 32 * n + i) - Tq1_0.shape().offset == t[n] - 1,
        32 <= i < 48 ==> Tq1_0.code(blk, 160 + 16 * n + (i - 32)) - Tq1_0.shape().offset == t[n] - 1,
        48 <= i ==> Tq1_0.code(blk, 240 + 4 * n + (i - 48)) - Tq1_0.shape().offset == t[n] - 1,
{
    let x = blk[i] as int;
    assert(r[1] == (3 * x) % 256 && r[2] == (9 * x) % 256 && r[3] == (27 * x) % 256 && r[4] == (81 * x) % 256);
    assert(trit_of(blk[i], n) == t[n]) by {
        assert(blk[i] * three_pow(n) == three_pow(n) * x) by (nonlinear_arith)
            requires
                x == blk[i],
        ;
        assert(((x * 1) % 256) == r[0]);
        if n == 0 {
            assert(t[0] == (r[0] * 3) / 256);
        } else if n == 1 {
            assert(t[1] == (r[1] * 3) / 256);
        } else if n == 2 {
            assert(t[2] == (r[2] * 3) / 256);
        } else if n == 3 {
            assert(t[3] == (r[3] * 3) / 256);
        } else {
            assert(t[4] == (r[4] * 3) / 256);
        }
    }
    if i < 32 {
        let e = 32 * n + i;
        assert(e / 32 == n && e % 32 == i);
    } else if i < 48 {
        let e = 160 + 16 * n + (i - 32);
        assert((e - 160) / 16 == n && (e - 160) % 16 == i - 32);
    } else {
        let e = 240 + 4 * n + (i - 48);
        assert((e - 240) / 4 == n && (e - 240) % 4 == i - 48);
    }
}

/// The scale of a TQ1_0 block is its last two bytes.
pub proof fn law_tq1_0_block(blk: Seq<u8>, s: int, u: int)
    requires
        blk.len() == 54,
    ensures
        Tq1_0.shape().bytes == 54,
        Tq1_0.shape().elems == 256,
        Tq1_0.shape().sub == 32,
        Tq1_0.shape().unit == 256,
        Tq1_0.scale(blk, s) == 1,
        Tq1_0.min(blk, s) == 0,
        Tq1_0.d(blk, u) % 256 == blk[52],
        Tq1_0.d(blk, u) / 256 == blk[53],
        Tq1_0.aux(blk, u) == 0,
{
}

/// Code byte `i` of half `h` of a TQ2_0 block is four weights raised by 1, 32 elements apart.
pub proof fn law_tq2_0_block(blk: Seq<u8>, h: int, i: int, s: int, u: int)
    requires
        blk.len() == 66,
        0 <= h < 2,
        0 <= i < 32,
    ensures
        Tq2_0.shape().bytes == 66,
        Tq2_0.shape().elems == 256,
        Tq2_0.shape().sub == 32,
        Tq2_0.shape().unit == 256,
        0 <= (Tq2_0.code(blk, 128 * h + i) - Tq2_0.shape().offset + 1) < 4,
        0 <= (Tq2_0.code(blk, 128 * h + 32 + i) - Tq2_0.shape().offset + 1) < 4,
        0 <= (Tq2_0.code(blk, 128 * h + 64 + i) - Tq2_0.shape().offset + 1) < 4,
        0 <= (Tq2_0.code(blk, 128 * h + 96 + i) - Tq2_0.shape().offset + 1) < 4,
        blk[32 * h + i] == (Tq2_0.code(blk, 128 * h + i) - Tq2_0.shape().offset + 1)
            + 4 * (Tq2_0.code(blk, 128 * h + 32 + i) - Tq2_0.shape().offset + 1)
            + 16 * (Tq2_0.code(blk, 128 * h + 64 + i) - Tq2_0.shape().offset + 1)
            + 64 * (Tq2_0.code(blk, 128 * h + 96 + i) - Tq2_0.shape().offset + 1),
        Tq2_0.scale(blk, s) == 1,
        Tq2_0.min(blk, s) == 0,
        Tq2_0.d(blk, u) % 256 == blk[64],
        Tq2_0.d(blk, u) / 256 == blk[65],
        Tq2_0.aux(blk, u) == 0,
{
    crate::bits::lemma_fields2_of(blk[32 * h + i]);
    assert((128 * h + i) / 128 == h && (128 * h + i) % 32 == i && ((128 * h + i) % 128) / 32 == 0);
    assert((Tq2_0.code(blk, 128 * h + i) - Tq2_0.shape().offset + 1) == field2_of(blk[32 * h + i], 0));
    assert((128 * h + 32 + i) / 128 == h && (128 * h + 32 + i) % 32 == i && ((128 * h + 32 + i) % 128) / 32 == 1);
    assert((Tq2_0.code(blk, 128 * h + 32 + i) - Tq2_0.shape().offset + 1) == field2_of(blk[32 * h + i], 1));
    assert((128 * h + 64 + i) / 128 == h && (128 * h + 64 + i) % 32 == i && ((128 * h + 64 + i) % 128) / 32 == 2);
    assert((Tq2_0.code(blk, 128 * h + 64 + i) - Tq2_0.shape().offset + 1) == field2_of(blk[32 * h + i], 2));
    assert((128 * h + 96 + i) / 128 == h && (128 * h + 96 + i) % 32 == i && ((128 * h + 96 + i) % 128) / 32 == 3);
    assert((Tq2_0.code(blk, 128 * h + 96 + i) - Tq2_0.shape().offset + 1) == field2_of(blk[32 * h + i], 3));
}

} // verus!
