//! The native-block weight formats: blocks of 32 or 64 weights with one scale.
use vstd::prelude::*;
use crate::bits::{bit, bit_of, field2, field2_of, le16_of, nibble, nibble_of, rdf16, signed, signed_of};
use crate::format::{Shape, WeightFormat};

verus! {

/// Q8_0: 34 bytes for 32 weights, `d*code` with signed 8-bit codes.
pub struct Q8_0;

impl WeightFormat for Q8_0 {
    open spec fn shape(&self) -> Shape {
        Shape { bytes: 34, elems: 32, sub: 32, unit: 32, offset: 0 }
    }

    open spec fn valid(&self) -> bool {
        true
    }

    open spec fn code(&self, blk: Seq<u8>, e: int) -> int {
        signed_of(blk[2 + e])
    }

    open spec fn scale(&self, blk: Seq<u8>, s: int) -> int {
        1
    }

    open spec fn min(&self, blk: Seq<u8>, s: int) -> int {
        0
    }

    open spec fn d(&self, blk: Seq<u8>, u: int) -> int {
        le16_of(blk, 0)
    }

    open spec fn aux(&self, blk: Seq<u8>, u: int) -> int {
        0
    }

    proof fn lemma_shape(&self) {
    }

    fn shape_of(&self) -> (r: Shape) {
        Shape { bytes: 34, elems: 32, sub: 32, unit: 32, offset: 0 }
    }

    fn code_at(&self, blk: &[u8], e: usize) -> (r: i8) {
        signed(blk[2 + e])
    }

    fn scale_at(&self, blk: &[u8], s: usize) -> (r: i32) {
        1
    }

    fn min_at(&self, blk: &[u8], s: usize) -> (r: i32) {
        0
    }

    fn d_at(&self, blk: &[u8], u: usize) -> (r: u16) {
        rdf16(blk, 0)
    }

    fn aux_at(&self, blk: &[u8], u: usize) -> (r: u16) {
        0
    }
}

/// Q4_0: 18 bytes for 32 weights, `d*(code - 8)`. Byte `j` holds elements `j` and `j + 16`.
pub struct Q4_0;

impl WeightFormat for Q4_0 {
    open spec fn shape(&self) -> Shape {
        Shape { bytes: 18, elems: 32, sub: 32, unit: 32, offset: 8 }
    }

    open spec fn valid(&self) -> bool {
        true
    }

    open spec fn code(&self, blk: Seq<u8>, e: int) -> int {
        nibble_of(blk[2 + e % 16], 16 <= e)
    }

    open spec fn scale(&self, blk: Seq<u8>, s: int) -> int {
        1
    }

    open spec fn min(&self, blk: Seq<u8>, s: int) -> int {
        0
    }

    open spec fn d(&self, blk: Seq<u8>, u: int) -> int {
        le16_of(blk, 0)
    }

    open spec fn aux(&self, blk: Seq<u8>, u: int) -> int {
        0
    }

    proof fn lemma_shape(&self) {
    }

    fn shape_of(&self) -> (r: Shape) {
        Shape { bytes: 18, elems: 32, sub: 32, unit: 32, offset: 8 }
    }

    fn code_at(&self, blk: &[u8], e: usize) -> (r: i8) {
        nibble(blk[2 + e % 16], 16 <= e) as i8
    }

    fn scale_at(&self, blk: &[u8], s: usize) -> (r: i32) {
        1
    }

    fn min_at(&self, blk: &[u8], s: usize) -> (r: i32) {
        0
    }

    fn d_at(&self, blk: &[u8], u: usize) -> (r: u16) {
        rdf16(blk, 0)
    }

    fn aux_at(&self, blk: &[u8], u: usize) -> (r: u16) {
        0
    }
}

/// Q4_1: 20 bytes for 32 weights, `d*code + m`.
pub struct Q4_1;

impl WeightFormat for Q4_1 {
    open spec fn shape(&self) -> Shape {
        Shape { bytes: 20, elems: 32, sub: 32, unit: 32, offset: 0 }
    }

    open spec fn valid(&self) -> bool {
        true
    }

    open spec fn code(&self, blk: Seq<u8>, e: int) -> int {
        nibble_of(blk[4 + e % 16], 16 <= e)
    }

    open spec fn scale(&self, blk: Seq<u8>, s: int) -> int {
        1
    }

    open spec fn min(&self, blk: Seq<u8>, s: int) -> int {
        1
    }

    open spec fn d(&self, blk: Seq<u8>, u: int) -> int {
        le16_of(blk, 0)
    }

    open spec fn aux(&self, blk: Seq<u8>, u: int) -> int {
        le16_of(blk, 2)
    }

    proof fn lemma_shape(&self) {
    }

    fn shape_of(&self) -> (r: Shape) {
        Shape { bytes: 20, elems: 32, sub: 32, unit: 32, offset: 0 }
    }

    fn code_at(&self, blk: &[u8], e: usize) -> (r: i8) {
        nibble(blk[4 + e % 16], 16 <= e) as i8
    }

    fn scale_at(&self, blk: &[u8], s: usize) -> (r: i32) {
        1
    }

    fn min_at(&self, blk: &[u8], s: usize) -> (r: i32) {
        1
    }

    fn d_at(&self, blk: &[u8], u: usize) -> (r: u16) {
        rdf16(blk, 0)
    }

    fn aux_at(&self, blk: &[u8], u: usize) -> (r: u16) {
        rdf16(blk, 2)
    }
}

/// The 5-bit code of element `e`: a nibble of the sixteen bytes at `qs` and bit `e` of the four
/// bytes at `qh`.
pub open spec fn q5_code(blk: Seq<u8>, qh: int, qs: int, e: int) -> int {
    nibble_of(blk[qs + e % 16], 16 <= e) + 16 * bit_of(blk[qh + e / 8], e % 8)
}

/// The 5-bit code of element `e`.
fn q5_code_at(blk: &[u8], qh: usize, qs: usize, e: usize) -> (r: i8)
    requires
        e < 32,
        qh + 4 <= qs,
        qs + 16 <= blk@.len(),
    ensures
        r == q5_code(blk@, qh as int, qs as int, e as int),
        0 <= r < 32,
{
    let len: usize = blk.len();
    let low: u8 = nibble(blk[qs + e % 16], 16 <= e);
    (low + 16 * bit(blk[qh + e / 8], e % 8)) as i8
}

/// Q5_0: 22 bytes for 32 weights, `d*(code - 16)`.
pub struct Q5_0;

impl WeightFormat for Q5_0 {
    open spec fn shape(&self) -> Shape {
        Shape { bytes: 22, elems: 32, sub: 32, unit: 32, offset: 16 }
    }

    open spec fn valid(&self) -> bool {
        true
    }

    open spec fn code(&self, blk: Seq<u8>, e: int) -> int {
        q5_code(blk, 2, 6, e)
    }

    open spec fn scale(&self, blk: Seq<u8>, s: int) -> int {
        1
    }

    open spec fn min(&self, blk: Seq<u8>, s: int) -> int {
        0
    }

    open spec fn d(&self, blk: Seq<u8>, u: int) -> int {
        le16_of(blk, 0)
    }

    open spec fn aux(&self, blk: Seq<u8>, u: int) -> int {
        0
    }

    proof fn lemma_shape(&self) {
    }

    fn shape_of(&self) -> (r: Shape) {
        Shape { bytes: 22, elems: 32, sub: 32, unit: 32, offset: 16 }
    }

    fn code_at(&self, blk: &[u8], e: usize) -> (r: i8) {
        q5_code_at(blk, 2, 6, e)
    }

    fn scale_at(&self, blk: &[u8], s: usize) -> (r: i32) {
        1
    }

    fn min_at(&self, blk: &[u8], s: usize) -> (r: i32) {
        0
    }

    fn d_at(&self, blk: &[u8], u: usize) -> (r: u16) {
        rdf16(blk, 0)
    }

    fn aux_at(&self, blk: &[u8], u: usize) -> (r: u16) {
        0
    }
}

/// Q5_1: 24 bytes for 32 weights, `d*code + m`.
pub struct Q5_1;

impl WeightFormat for Q5_1 {
    open spec fn shape(&self) -> Shape {
        Shape { bytes: 24, elems: 32, sub: 32, unit: 32, offset: 0 }
    }

    open spec fn valid(&self) -> bool {
        true
    }

    open spec fn code(&self, blk: Seq<u8>, e: int) -> int {
        q5_code(blk, 4, 8, e)
    }

    open spec fn scale(&self, blk: Seq<u8>, s: int) -> int {
        1
    }

    open spec fn min(&self, blk: Seq<u8>, s: int) -> int {
        1
    }

    open spec fn d(&self, blk: Seq<u8>, u: int) -> int {
        le16_of(blk, 0)
    }

    open spec fn aux(&self, blk: Seq<u8>, u: int) -> int {
        le16_of(blk, 2)
    }

    proof fn lemma_shape(&self) {
    }

    fn shape_of(&self) -> (r: Shape) {
        Shape { bytes: 24, elems: 32, sub: 32, unit: 32, offset: 0 }
    }

    fn code_at(&self, blk: &[u8], e: usize) -> (r: i8) {
        q5_code_at(blk, 4, 8, e)
    }

    fn scale_at(&self, blk: &[u8], s: usize) -> (r: i32) {
        1
    }

    fn min_at(&self, blk: &[u8], s: usize) -> (r: i32) {
        1
    }

    fn d_at(&self, blk: &[u8], u: usize) -> (r: u16) {
        rdf16(blk, 0)
    }

    fn aux_at(&self, blk: &[u8], u: usize) -> (r: u16) {
        rdf16(blk, 2)
    }
}

/// Q2_0: 18 bytes for 64 weights, `d*(code - 1)` with 2-bit codes. Each half of a block meets an
/// activation block of its own, so each half is a unit.
pub struct Q2_0;

impl WeightFormat for Q2_0 {
    open spec fn shape(&self) -> Shape {
        Shape { bytes: 18, elems: 64, sub: 32, unit: 32, offset: 1 }
    }

    open spec fn valid(&self) -> bool {
        true
    }

    open spec fn code(&self, blk: Seq<u8>, e: int) -> int {
        field2_of(blk[2 + e / 4], e % 4)
    }

    open spec fn scale(&self, blk: Seq<u8>, s: int) -> int {
        1
    }

    open spec fn min(&self, blk: Seq<u8>, s: int) -> int {
        0
    }

    open spec fn d(&self, blk: Seq<u8>, u: int) -> int {
        le16_of(blk, 0)
    }

    open spec fn aux(&self, blk: Seq<u8>, u: int) -> int {
        0
    }

    proof fn lemma_shape(&self) {
    }

    fn shape_of(&self) -> (r: Shape) {
        Shape { bytes: 18, elems: 64, sub: 32, unit: 32, offset: 1 }
    }

    fn code_at(&self, blk: &[u8], e: usize) -> (r: i8) {
        field2(blk[2 + e / 4], e % 4) as i8
    }

    fn scale_at(&self, blk: &[u8], s: usize) -> (r: i32) {
        1
    }

    fn min_at(&self, blk: &[u8], s: usize) -> (r: i32) {
        0
    }

    fn d_at(&self, blk: &[u8], u: usize) -> (r: u16) {
        rdf16(blk, 0)
    }

    fn aux_at(&self, blk: &[u8], u: usize) -> (r: u16) {
        0
    }
}

/// The weights of a Q8_0 block are its bytes behind the scale, as signed numbers; the scale is its
/// first two bytes with every bit of them.
pub proof fn law_q8_0_block(blk: Seq<u8>, e: int, s: int, u: int)
    requires
        blk.len() == 34,
        0 <= e < 32,
    ensures
        Q8_0.shape().bytes == 34,
        Q8_0.shape().elems == 32,
        Q8_0.shape().sub == 32,
        Q8_0.shape().unit == 32,
        -128 <= Q8_0.code(blk, e) - Q8_0.shape().offset < 128,
        (Q8_0.code(blk, e) - Q8_0.shape().offset - blk[2 + e]) % 256 == 0,
        Q8_0.scale(blk, s) == 1,
        Q8_0.min(blk, s) == 0,
        Q8_0.d(blk, u) % 256 == blk[0],
        Q8_0.d(blk, u) / 256 == blk[1],
        Q8_0.aux(blk, u) == 0,
{
}

/// Every code byte of a Q4_0 block is two weights raised by 8: the lower of the first half of the
/// block, the upper of the second half. The scale is the first two bytes with every bit of them.
pub proof fn law_q4_0_block(blk: Seq<u8>, i: int, s: int, u: int)
    requires
        blk.len() == 18,
        0 <= i < 16,
    ensures
        Q4_0.shape().bytes == 18,
        Q4_0.shape().elems == 32,
        Q4_0.shape().sub == 32,
        Q4_0.shape().unit == 32,
        -8 <= Q4_0.code(blk, i) - Q4_0.shape().offset < 8,
        -8 <= Q4_0.code(blk, i + 16) - Q4_0.shape().offset < 8,
        blk[2 + i] == (Q4_0.code(blk, i) - Q4_0.shape().offset + 8)
            + 16 * (Q4_0.code(blk, i + 16) - Q4_0.shape().offset + 8),
        Q4_0.scale(blk, s) == 1,
        Q4_0.min(blk, s) == 0,
        Q4_0.d(blk, u) % 256 == blk[0],
        Q4_0.d(blk, u) / 256 == blk[1],
        Q4_0.aux(blk, u) == 0,
{
}

/// Every code byte of a Q4_1 block is two codes, of the first and of the second half of the block.
/// Scale and min are the first four bytes; the min counts once for every weight.
pub proof fn law_q4_1_block(blk: Seq<u8>, i: int, s: int, u: int)
    requires
        blk.len() == 20,
        0 <= i < 16,
    ensures
        Q4_1.shape().bytes == 20,
        Q4_1.shape().elems == 32,
        Q4_1.shape().sub == 32,
        Q4_1.shape().unit == 32,
        Q4_1.shape().offset == 0,
        0 <= Q4_1.code(blk, i) < 16,
        0 <= Q4_1.code(blk, i + 16) < 16,
        blk[4 + i] == Q4_1.code(blk, i) + 16 * Q4_1.code(blk, i + 16),
        Q4_1.scale(blk, s) == 1,
        Q4_1.min(blk, s) == 1,
        Q4_1.d(blk, u) % 256 == blk[0],
        Q4_1.d(blk, u) / 256 == blk[1],
        Q4_1.aux(blk, u) % 256 == blk[2],
        Q4_1.aux(blk, u) / 256 == blk[3],
{
}

/// The parts of a five-bit code: element `r` of run `a` of eight.
proof fn lemma_q5_code(blk: Seq<u8>, qh: int, qs: int, e: int, a: int, r: int)
    requires
        e == 8 * a + r,
        0 <= a < 4,
        0 <= r < 8,
    ensures
        0 <= q5_code(blk, qh, qs, e) < 32,
        q5_code(blk, qh, qs, e) % 16 == nibble_of(blk[qs + e % 16], 16 <= e),
        q5_code(blk, qh, qs, e) / 16 == bit_of(blk[qh + a], r),
{
    crate::bits::lemma_bits_of(blk[qh + a]);
    crate::bits::lemma_nibbles_of(blk[qs + e % 16]);
    assert(e / 8 == a && e % 8 == r);
    crate::bits::lemma_parts(nibble_of(blk[qs + e % 16], 16 <= e), bit_of(blk[qh + a], r));
}

/// A weight of a Q5_0 block is raised by 16 to five bits. Four stand in a nibble, those of the second half of
/// the block in the upper one. The scale is the first two bytes.
pub proof fn law_q5_0_block(blk: Seq<u8>, i: int, s: int, u: int)
    requires
        blk.len() == 22,
        0 <= i < 16,
    ensures
        Q5_0.shape().bytes == 22,
        Q5_0.shape().elems == 32,
        Q5_0.shape().sub == 32,
        Q5_0.shape().unit == 32,
        0 <= (Q5_0.code(blk, i) - Q5_0.shape().offset + 16) < 32,
        0 <= (Q5_0.code(blk, i + 16) - Q5_0.shape().offset + 16) < 32,
        blk[6 + i] == (Q5_0.code(blk, i) - Q5_0.shape().offset + 16) % 16
            + 16 * ((Q5_0.code(blk, i + 16) - Q5_0.shape().offset + 16) % 16),
        Q5_0.scale(blk, s) == 1,
        Q5_0.min(blk, s) == 0,
        Q5_0.d(blk, u) % 256 == blk[0],
        Q5_0.d(blk, u) / 256 == blk[1],
        Q5_0.aux(blk, u) == 0,
{
    lemma_q5_code(blk, 2, 6, i, i / 8, i % 8);
    lemma_q5_code(blk, 2, 6, i + 16, (i + 16) / 8, (i + 16) % 8);
    crate::bits::lemma_nibbles_of(blk[6 + i]);
}

/// The fifth bits of a Q5_0 block stand one after the other in the four bytes before the nibbles.
pub proof fn law_q5_0_fifth_bits(blk: Seq<u8>, k: int)
    requires
        blk.len() == 22,
        0 <= k < 4,
    ensures
        blk[2 + k] == ((Q5_0.code(blk, 8 * k) - Q5_0.shape().offset + 16) / 16)
            + 2 * ((Q5_0.code(blk, 8 * k + 1) - Q5_0.shape().offset + 16) / 16)
            + 4 * ((Q5_0.code(blk, 8 * k + 2) - Q5_0.shape().offset + 16) / 16)
            + 8 * ((Q5_0.code(blk, 8 * k + 3) - Q5_0.shape().offset + 16) / 16)
            + 16 * ((Q5_0.code(blk, 8 * k + 4) - Q5_0.shape().offset + 16) / 16)
            + 32 * ((Q5_0.code(blk, 8 * k + 5) - Q5_0.shape().offset + 16) / 16)
            + 64 * ((Q5_0.code(blk, 8 * k + 6) - Q5_0.shape().offset + 16) / 16)
            + 128 * ((Q5_0.code(blk, 8 * k + 7) - Q5_0.shape().offset + 16) / 16),
{
    crate::bits::lemma_bits_of(blk[2 + k]);
    lemma_q5_code(blk, 2, 6, 8 * k, k, 0);
    lemma_q5_code(blk, 2, 6, 8 * k + 1, k, 1);
    lemma_q5_code(blk, 2, 6, 8 * k + 2, k, 2);
    lemma_q5_code(blk, 2, 6, 8 * k + 3, k, 3);
    lemma_q5_code(blk, 2, 6, 8 * k + 4, k, 4);
    lemma_q5_code(blk, 2, 6, 8 * k + 5, k, 5);
    lemma_q5_code(blk, 2, 6, 8 * k + 6, k, 6);
    lemma_q5_code(blk, 2, 6, 8 * k + 7, k, 7);
}

/// A weight of a Q5_1 block has five bits. Four stand in a nibble, those of the second half of
/// the block in the upper one. Scale and min are the first four bytes.
pub proof fn law_q5_1_block(blk: Seq<u8>, i: int, s: int, u: int)
    requires
        blk.len() == 24,
        0 <= i < 16,
    ensures
        Q5_1.shape().bytes == 24,
        Q5_1.shape().elems == 32,
        Q5_1.shape().sub == 32,
        Q5_1.shape().unit == 32,
        Q5_1.shape().offset == 0,
        0 <= Q5_1.code(blk, i) < 32,
        0 <= Q5_1.code(blk, i + 16) < 32,
        blk[8 + i] == Q5_1.code(blk, i) % 16 + 16 * (Q5_1.code(blk, i + 16) % 16),
        Q5_1.scale(blk, s) == 1,
        Q5_1.min(blk, s) == 1,
        Q5_1.d(blk, u) % 256 == blk[0],
        Q5_1.d(blk, u) / 256 == blk[1],
        Q5_1.aux(blk, u) % 256 == blk[2],
        Q5_1.aux(blk, u) / 256 == blk[3],
{
    lemma_q5_code(blk, 4, 8, i, i / 8, i % 8);
    lemma_q5_code(blk, 4, 8, i + 16, (i + 16) / 8, (i + 16) % 8);
    crate::bits::lemma_nibbles_of(blk[8 + i]);
}

/// The fifth bits of a Q5_1 block stand one after the other in the four bytes before the nibbles.
pub proof fn law_q5_1_fifth_bits(blk: Seq<u8>, k: int)
    requires
        blk.len() == 24,
        0 <= k < 4,
    ensures
        blk[4 + k] == (Q5_1.code(blk, 8 * k) / 16) + 2 * (Q5_1.code(blk, 8 * k + 1) / 16)
            + 4 * (Q5_1.code(blk, 8 * k + 2) / 16) + 8 * (Q5_1.code(blk, 8 * k + 3) / 16)
            + 16 * (Q5_1.code(blk, 8 * k + 4) / 16) + 32 * (Q5_1.code(blk, 8 * k + 5) / 16)
            + 64 * (Q5_1.code(blk, 8 * k + 6) / 16) + 128 * (Q5_1.code(blk, 8 * k + 7) / 16),
{
    crate::bits::lemma_bits_of(blk[4 + k]);
    lemma_q5_code(blk, 4, 8, 8 * k, k, 0);
    lemma_q5_code(blk, 4, 8, 8 * k + 1, k, 1);
    lemma_q5_code(blk, 4, 8, 8 * k + 2, k, 2);
    lemma_q5_code(blk, 4, 8, 8 * k + 3, k, 3);
    lemma_q5_code(blk, 4, 8, 8 * k + 4, k, 4);
    lemma_q5_code(blk, 4, 8, 8 * k + 5, k, 5);
    lemma_q5_code(blk, 4, 8, 8 * k + 6, k, 6);
    lemma_q5_code(blk, 4, 8, 8 * k + 7, k, 7);
}

/// Every code byte of a Q2_0 block is four weights raised by 1, one after the other, the first lowest.
/// Both halves of the block have the one scale.
pub proof fn law_q2_0_block(blk: Seq<u8>, i: int, s: int, u: int)
    requires
        blk.len() == 18,
        0 <= i < 16,
    ensures
        Q2_0.shape().bytes == 18,
        Q2_0.shape().elems == 64,
        Q2_0.shape().sub == 32,
        Q2_0.shape().unit == 32,
        0 <= (Q2_0.code(blk, 4 * i) - Q2_0.shape().offset + 1) < 4,
        0 <= (Q2_0.code(blk, 4 * i + 1) - Q2_0.shape().offset + 1) < 4,
        0 <= (Q2_0.code(blk, 4 * i + 2) - Q2_0.shape().offset + 1) < 4,
        0 <= (Q2_0.code(blk, 4 * i + 3) - Q2_0.shape().offset + 1) < 4,
        blk[2 + i] == (Q2_0.code(blk, 4 * i) - Q2_0.shape().offset + 1)
            + 4 * (Q2_0.code(blk, 4 * i + 1) - Q2_0.shape().offset + 1)
            + 16 * (Q2_0.code(blk, 4 * i + 2) - Q2_0.shape().offset + 1)
            + 64 * (Q2_0.code(blk, 4 * i + 3) - Q2_0.shape().offset + 1),
        Q2_0.scale(blk, s) == 1,
        Q2_0.min(blk, s) == 0,
        Q2_0.d(blk, u) % 256 == blk[0],
        Q2_0.d(blk, u) / 256 == blk[1],
        Q2_0.aux(blk, u) == 0,
{
    assert((4 * i) / 4 == i && (4 * i) % 4 == 0);
    assert((4 * i + 1) / 4 == i && (4 * i + 1) % 4 == 1);
    assert((4 * i + 2) / 4 == i && (4 * i + 2) % 4 == 2);
    assert((4 * i + 3) / 4 == i && (4 * i + 3) % 4 == 3);
}

} // verus!
