//! The K-quant weight formats: super-blocks of 256 weights with packed sub-block scales.
use vstd::prelude::*;
use crate::bits::{bit, bit_of, field2, field2_of, le16_of, nibble, nibble_of, rdf16, signed, signed_of};
use crate::format::{Shape, WeightFormat};

verus! {

/// The 6-bit scale of sub-block `j` in the 12 scale bytes at byte 4 of a Q4_K or Q5_K block.
pub open spec fn k4_scale(blk: Seq<u8>, j: int) -> int {
    if j < 4 {
        blk[4 + j] as int % 64
    } else {
        blk[8 + j] as int % 16 + 16 * (blk[j] as int / 64)
    }
}

/// The 6-bit min of sub-block `j` in the 12 scale bytes at byte 4 of a Q4_K or Q5_K block.
pub open spec fn k4_min(blk: Seq<u8>, j: int) -> int {
    if j < 4 {
        blk[8 + j] as int % 64
    } else {
        blk[8 + j] as int / 16 + 16 * (blk[4 + j] as int / 64)
    }
}

/// The scale and the min of sub-block `j` of a Q4_K or Q5_K block.
pub fn k4(j: usize, blk: &[u8]) -> (r: (u8, u8))
    requires
        j < 8,
        16 <= blk@.len(),
    ensures
        r.0 == k4_scale(blk@, j as int),
        r.1 == k4_min(blk@, j as int),
        r.0 < 64,
        r.1 < 64,
{
    if j < 4 {
        (blk[4 + j] % 64, blk[8 + j] % 64)
    } else {
        (blk[8 + j] % 16 + 16 * (blk[j] / 64), blk[8 + j] / 16 + 16 * (blk[4 + j] / 64))
    }
}

/// The 4-bit code of element `e` of a Q4_K block.
pub open spec fn q4k_code(blk: Seq<u8>, e: int) -> int {
    nibble_of(blk[16 + 32 * (e / 64) + e % 32], (e / 32) % 2 == 1)
}

/// Q4_K: 144 bytes for 256 weights, `d*scale*code - dmin*min` with 6-bit scales and mins for each
/// 32 weights.
pub struct Q4K;

impl WeightFormat for Q4K {
    open spec fn shape(&self) -> Shape {
        Shape { bytes: 144, elems: 256, sub: 32, unit: 256, offset: 0 }
    }

    open spec fn valid(&self) -> bool {
        true
    }

    open spec fn code(&self, blk: Seq<u8>, e: int) -> int {
        q4k_code(blk, e)
    }

    open spec fn scale(&self, blk: Seq<u8>, s: int) -> int {
        k4_scale(blk, s)
    }

    open spec fn min(&self, blk: Seq<u8>, s: int) -> int {
        k4_min(blk, s)
    }

    open spec fn d(&self, blk: Seq<u8>, u: int) -> int {
        le16_of(blk, 0)
    }

    open spec fn aux(&self, blk: Seq<u8>, u: int) -> int {
        le16_of(blk, 2)
    }

    proof fn lemma_shape(&self) {
    }

    fn shape_of(&self) -> (r: Shape) {
        Shape { bytes: 144, elems: 256, sub: 32, unit: 256, offset: 0 }
    }

    fn code_at(&self, blk: &[u8], e: usize) -> (r: i8) {
        nibble(blk[16 + 32 * (e / 64) + e % 32], (e / 32) % 2 == 1) as i8
    }

    fn scale_at(&self, blk: &[u8], s: usize) -> (r: i32) {
        k4(s, blk).0 as i32
    }

    fn min_at(&self, blk: &[u8], s: usize) -> (r: i32) {
        k4(s, blk).1 as i32
    }

    fn d_at(&self, blk: &[u8], u: usize) -> (r: u16) {
        rdf16(blk, 0)
    }

    fn aux_at(&self, blk: &[u8], u: usize) -> (r: u16) {
        rdf16(blk, 2)
    }
}

/// The 5-bit code of element `e` of a Q5_K block.
pub open spec fn q5k_code(blk: Seq<u8>, e: int) -> int {
    nibble_of(blk[48 + 32 * (e / 64) + e % 32], (e / 32) % 2 == 1) + 16 * bit_of(blk[16 + e % 32], e / 32)
}

/// Q5_K: 176 bytes for 256 weights; Q4_K with a fifth code bit.
pub struct Q5K;

impl WeightFormat for Q5K {
    open spec fn shape(&self) -> Shape {
        Shape { bytes: 176, elems: 256, sub: 32, unit: 256, offset: 0 }
    }

    open spec fn valid(&self) -> bool {
        true
    }

    open spec fn code(&self, blk: Seq<u8>, e: int) -> int {
        q5k_code(blk, e)
    }

    open spec fn scale(&self, blk: Seq<u8>, s: int) -> int {
        k4_scale(blk, s)
    }

    open spec fn min(&self, blk: Seq<u8>, s: int) -> int {
        k4_min(blk, s)
    }

    open spec fn d(&self, blk: Seq<u8>, u: int) -> int {
        le16_of(blk, 0)
    }

    open spec fn aux(&self, blk: Seq<u8>, u: int) -> int {
        le16_of(blk, 2)
    }

    proof fn lemma_shape(&self) {
    }

    fn shape_of(&self) -> (r: Shape) {
        Shape { bytes: 176, elems: 256, sub: 32, unit: 256, offset: 0 }
    }

    fn code_at(&self, blk: &[u8], e: usize) -> (r: i8) {
        let low: u8 = nibble(blk[48 + 32 * (e / 64) + e % 32], (e / 32) % 2 == 1);
        (low + 16 * bit(blk[16 + e % 32], e / 32)) as i8
    }

    fn scale_at(&self, blk: &[u8], s: usize) -> (r: i32) {
        k4(s, blk).0 as i32
    }

    fn min_at(&self, blk: &[u8], s: usize) -> (r: i32) {
        k4(s, blk).1 as i32
    }

    fn d_at(&self, blk: &[u8], u: usize) -> (r: u16) {
        rdf16(blk, 0)
    }

    fn aux_at(&self, blk: &[u8], u: usize) -> (r: u16) {
        rdf16(blk, 2)
    }
}

/// The 2-bit code of element `e` of a Q2_K block.
pub open spec fn q2k_code(blk: Seq<u8>, e: int) -> int {
    field2_of(blk[16 + 32 * (e / 128) + e % 32], (e % 128) / 32)
}

/// Q2_K: 84 bytes for 256 weights, `d*scale*code - dmin*min` with 4-bit scales and mins for each
/// 16 weights.
pub struct Q2K;

impl WeightFormat for Q2K {
    open spec fn shape(&self) -> Shape {
        Shape { bytes: 84, elems: 256, sub: 16, unit: 256, offset: 0 }
    }

    open spec fn valid(&self) -> bool {
        true
    }

    open spec fn code(&self, blk: Seq<u8>, e: int) -> int {
        q2k_code(blk, e)
    }

    open spec fn scale(&self, blk: Seq<u8>, s: int) -> int {
        nibble_of(blk[s], false)
    }

    open spec fn min(&self, blk: Seq<u8>, s: int) -> int {
        nibble_of(blk[s], true)
    }

    open spec fn d(&self, blk: Seq<u8>, u: int) -> int {
        le16_of(blk, 80)
    }

    open spec fn aux(&self, blk: Seq<u8>, u: int) -> int {
        le16_of(blk, 82)
    }

    proof fn lemma_shape(&self) {
    }

    fn shape_of(&self) -> (r: Shape) {
        Shape { bytes: 84, elems: 256, sub: 16, unit: 256, offset: 0 }
    }

    fn code_at(&self, blk: &[u8], e: usize) -> (r: i8) {
        field2(blk[16 + 32 * (e / 128) + e % 32], (e % 128) / 32) as i8
    }

    fn scale_at(&self, blk: &[u8], s: usize) -> (r: i32) {
        nibble(blk[s], false) as i32
    }

    fn min_at(&self, blk: &[u8], s: usize) -> (r: i32) {
        nibble(blk[s], true) as i32
    }

    fn d_at(&self, blk: &[u8], u: usize) -> (r: u16) {
        rdf16(blk, 80)
    }

    fn aux_at(&self, blk: &[u8], u: usize) -> (r: u16) {
        rdf16(blk, 82)
    }
}

/// The 6-bit field `s` of the 12 packed scale bytes of Q3_K: the low nibbles of the sixteen
/// fields stand in the first eight bytes, the high two bits in the last four.
pub open spec fn q3k_scale6(raw: Seq<u8>, s: int) -> int {
    (if s < 8 {
        nibble_of(raw[s], false)
    } else {
        nibble_of(raw[s - 8], true)
    }) + 16 * field2_of(raw[8 + s % 4], s / 4)
}

/// The bytes of the four scale words that the masks and shifts of `q3k_scales` build.
proof fn lemma_q3k_words(b0: u8, b1: u8, b2: u8, b3: u8, t0: u8, t1: u8, t2: u8, t3: u8, w: u32, t: u32)
    by (bit_vector)
    requires
        w == (b0 as u32) | ((b1 as u32) << 8u32) | ((b2 as u32) << 16u32) | ((b3 as u32) << 24u32),
        t == (t0 as u32) | ((t1 as u32) << 8u32) | ((t2 as u32) << 16u32) | ((t3 as u32) << 24u32),
    ensures
        (((w & 0x0f0f0f0f) | ((t & 0x03030303) << 4u32)) >> 0u32) & 0xff == b0 % 16 + 16 * (t0 % 4),
        (((w & 0x0f0f0f0f) | ((t & 0x03030303) << 4u32)) >> 8u32) & 0xff == b1 % 16 + 16 * (t1 % 4),
        (((w & 0x0f0f0f0f) | ((t & 0x03030303) << 4u32)) >> 16u32) & 0xff == b2 % 16 + 16 * (t2 % 4),
        (((w & 0x0f0f0f0f) | ((t & 0x03030303) << 4u32)) >> 24u32) & 0xff == b3 % 16 + 16 * (t3 % 4),
        (((w & 0x0f0f0f0f) | (((t >> 2u32) & 0x03030303) << 4u32)) >> 0u32) & 0xff == b0 % 16 + 16 * ((t0 / 4) % 4),
        (((w & 0x0f0f0f0f) | (((t >> 2u32) & 0x03030303) << 4u32)) >> 8u32) & 0xff == b1 % 16 + 16 * ((t1 / 4) % 4),
        (((w & 0x0f0f0f0f) | (((t >> 2u32) & 0x03030303) << 4u32)) >> 16u32) & 0xff == b2 % 16 + 16 * ((t2 / 4) % 4),
        (((w & 0x0f0f0f0f) | (((t >> 2u32) & 0x03030303) << 4u32)) >> 24u32) & 0xff == b3 % 16 + 16 * ((t3 / 4) % 4),
        ((((w >> 4u32) & 0x0f0f0f0f) | (((t >> 4u32) & 0x03030303) << 4u32)) >> 0u32) & 0xff == b0 / 16 + 16 * ((t0
            / 16) % 4),
        ((((w >> 4u32) & 0x0f0f0f0f) | (((t >> 4u32) & 0x03030303) << 4u32)) >> 8u32) & 0xff == b1 / 16 + 16 * ((t1
            / 16) % 4),
        ((((w >> 4u32) & 0x0f0f0f0f) | (((t >> 4u32) & 0x03030303) << 4u32)) >> 16u32) & 0xff == b2 / 16 + 16 * ((t2
            / 16) % 4),
        ((((w >> 4u32) & 0x0f0f0f0f) | (((t >> 4u32) & 0x03030303) << 4u32)) >> 24u32) & 0xff == b3 / 16 + 16 * ((t3
            / 16) % 4),
        ((((w >> 4u32) & 0x0f0f0f0f) | (((t >> 6u32) & 0x03030303) << 4u32)) >> 0u32) & 0xff == b0 / 16 + 16 * ((t0
            / 64) % 4),
        ((((w >> 4u32) & 0x0f0f0f0f) | (((t >> 6u32) & 0x03030303) << 4u32)) >> 8u32) & 0xff == b1 / 16 + 16 * ((t1
            / 64) % 4),
        ((((w >> 4u32) & 0x0f0f0f0f) | (((t >> 6u32) & 0x03030303) << 4u32)) >> 16u32) & 0xff == b2 / 16 + 16 * ((t2
            / 64) % 4),
        ((((w >> 4u32) & 0x0f0f0f0f) | (((t >> 6u32) & 0x03030303) << 4u32)) >> 24u32) & 0xff == b3 / 16 + 16 * ((t3
            / 64) % 4),
{
}

/// The 32-bit little-endian word of the four bytes at `i`.
fn scale_word(raw: &[u8], i: usize) -> (w: u32)
    requires
        i + 3 < raw@.len(),
    ensures
        w == (raw@[i as int] as u32) | ((raw@[i + 1] as u32) << 8u32) | ((raw@[i + 2] as u32) << 16u32) | ((raw@[i
            + 3] as u32) << 24u32),
{
    (raw[i] as u32) | ((raw[i + 1] as u32) << 8u32) | ((raw[i + 2] as u32) << 16u32) | ((raw[i + 3] as u32) << 24u32)
}

/// The sixteen signed sub-block scales `sc6 - 32` in the 12 packed scale bytes of a Q3_K block.
pub fn q3k_scales(scales_raw: &[u8]) -> (sc: [i16; 16])
    requires
        12 <= scales_raw@.len(),
    ensures
        forall|s: int| 0 <= s < 16 ==> #[trigger] sc@[s] == q3k_scale6(scales_raw@, s) - 32 && -32 <= sc@[s] < 32,
{
    let a0: u32 = scale_word(scales_raw, 0);
    let a1: u32 = scale_word(scales_raw, 4);
    let tmp: u32 = scale_word(scales_raw, 8);
    let aux: [u32; 4] = [
        (a0 & 0x0f0f0f0f) | ((tmp & 0x03030303) << 4u32),
        (a1 & 0x0f0f0f0f) | (((tmp >> 2u32) & 0x03030303) << 4u32),
        ((a0 >> 4u32) & 0x0f0f0f0f) | (((tmp >> 4u32) & 0x03030303) << 4u32),
        ((a1 >> 4u32) & 0x0f0f0f0f) | (((tmp >> 6u32) & 0x03030303) << 4u32),
    ];
    proof {
        let r = scales_raw@;
        lemma_q3k_words(r[0], r[1], r[2], r[3], r[8], r[9], r[10], r[11], a0, tmp);
        lemma_q3k_words(r[4], r[5], r[6], r[7], r[8], r[9], r[10], r[11], a1, tmp);
    }
    let mut sc: [i16; 16] = [0i16; 16];
    let mut i: usize = 0;
    while i < 16
        invariant
            i <= 16,
            12 <= scales_raw@.len(),
            forall|k: int|
                0 <= k < 16 ==> ((#[trigger] aux@[k / 4]) >> (8 * (k % 4)) as u32) & 0xff == q3k_scale6(scales_raw@, k),
            forall|s: int| 0 <= s < i ==> #[trigger] sc@[s] == q3k_scale6(scales_raw@, s) - 32 && -32 <= sc@[s] < 32,
        decreases 16 - i,
    {
        let shift: u32 = 8 * ((i % 4) as u32);
        let byte: u32 = (aux[i / 4] >> shift) & 0xff;
        sc[i] = byte as i16 - 32;
        i = i + 1;
    }
    sc
}

/// The 3-bit code of element `e` of a Q3_K block: two low bits and a high bit from the mask.
pub open spec fn q3k_code(blk: Seq<u8>, e: int) -> int {
    field2_of(blk[32 + 32 * (e / 128) + e % 32], (e % 128) / 32) + 4 * bit_of(blk[e % 32], e / 32)
}

/// Q3_K: 110 bytes for 256 weights, `d*(sc6 - 32)*(code - 4)` with a 6-bit scale for each 16
/// weights.
pub struct Q3K;

impl WeightFormat for Q3K {
    open spec fn shape(&self) -> Shape {
        Shape { bytes: 110, elems: 256, sub: 16, unit: 256, offset: 4 }
    }

    open spec fn valid(&self) -> bool {
        true
    }

    open spec fn code(&self, blk: Seq<u8>, e: int) -> int {
        q3k_code(blk, e)
    }

    open spec fn scale(&self, blk: Seq<u8>, s: int) -> int {
        q3k_scale6(blk.subrange(96, 108), s) - 32
    }

    open spec fn min(&self, blk: Seq<u8>, s: int) -> int {
        0
    }

    open spec fn d(&self, blk: Seq<u8>, u: int) -> int {
        le16_of(blk, 108)
    }

    open spec fn aux(&self, blk: Seq<u8>, u: int) -> int {
        0
    }

    proof fn lemma_shape(&self) {
    }

    fn shape_of(&self) -> (r: Shape) {
        Shape { bytes: 110, elems: 256, sub: 16, unit: 256, offset: 4 }
    }

    fn code_at(&self, blk: &[u8], e: usize) -> (r: i8) {
        let low: u8 = field2(blk[32 + 32 * (e / 128) + e % 32], (e % 128) / 32);
        (low + 4 * bit(blk[e % 32], e / 32)) as i8
    }

    fn scale_at(&self, blk: &[u8], s: usize) -> (r: i32) {
        let raw: &[u8] = vstd::slice::slice_subrange(blk, 96, 108);
        let sc: [i16; 16] = q3k_scales(raw);
        sc[s] as i32
    }

    fn min_at(&self, blk: &[u8], s: usize) -> (r: i32) {
        0
    }

    fn d_at(&self, blk: &[u8], u: usize) -> (r: u16) {
        rdf16(blk, 108)
    }

    fn aux_at(&self, blk: &[u8], u: usize) -> (r: u16) {
        0
    }
}

/// The 6-bit code of element `e` of a Q6_K block: a nibble and two high bits.
pub open spec fn q6k_code(blk: Seq<u8>, e: int) -> int {
    let half = e / 128;
    let quarter = (e % 128) / 32;
    nibble_of(blk[64 * half + 32 * (quarter % 2) + e % 32], 2 <= quarter) + 16 * field2_of(
        blk[128 + 32 * half + e % 32],
        quarter,
    )
}

/// Q6_K: 210 bytes for 256 weights, `d*scale*(code - 32)` with a signed 8-bit scale for each 16
/// weights.
pub struct Q6K;

impl WeightFormat for Q6K {
    open spec fn shape(&self) -> Shape {
        Shape { bytes: 210, elems: 256, sub: 16, unit: 256, offset: 32 }
    }

    open spec fn valid(&self) -> bool {
        true
    }

    open spec fn code(&self, blk: Seq<u8>, e: int) -> int {
        q6k_code(blk, e)
    }

    open spec fn scale(&self, blk: Seq<u8>, s: int) -> int {
        signed_of(blk[192 + s])
    }

    open spec fn min(&self, blk: Seq<u8>, s: int) -> int {
        0
    }

    open spec fn d(&self, blk: Seq<u8>, u: int) -> int {
        le16_of(blk, 208)
    }

    open spec fn aux(&self, blk: Seq<u8>, u: int) -> int {
        0
    }

    proof fn lemma_shape(&self) {
    }

    fn shape_of(&self) -> (r: Shape) {
        Shape { bytes: 210, elems: 256, sub: 16, unit: 256, offset: 32 }
    }

    fn code_at(&self, blk: &[u8], e: usize) -> (r: i8) {
        let half: usize = e / 128;
        let quarter: usize = (e % 128) / 32;
        let low: u8 = nibble(blk[64 * half + 32 * (quarter % 2) + e % 32], 2 <= quarter);
        (low + 16 * field2(blk[128 + 32 * half + e % 32], quarter)) as i8
    }

    fn scale_at(&self, blk: &[u8], s: usize) -> (r: i32) {
        signed(blk[192 + s]) as i32
    }

    fn min_at(&self, blk: &[u8], s: usize) -> (r: i32) {
        0
    }

    fn d_at(&self, blk: &[u8], u: usize) -> (r: u16) {
        rdf16(blk, 208)
    }

    fn aux_at(&self, blk: &[u8], u: usize) -> (r: u16) {
        0
    }
}

/// Code byte `i` of run `g` of a Q4_K block is two codes 32 elements apart. The scales and the mins
/// have six bits: those of the first four sub-blocks in the first eight of twelve bytes, those of
/// the others with four bits in the last four bytes and two above the first.
pub proof fn law_q4k_block(blk: Seq<u8>, g: int, i: int, j: int, u: int)
    requires
        blk.len() == 144,
        0 <= g < 4,
        0 <= i < 32,
        0 <= j < 4,
    ensures
        Q4K.shape().bytes == 144,
        Q4K.shape().elems == 256,
        Q4K.shape().sub == 32,
        Q4K.shape().unit == 256,
        Q4K.shape().offset == 0,
        0 <= Q4K.code(blk, 64 * g + i) < 16,
        0 <= Q4K.code(blk, 64 * g + 32 + i) < 16,
        blk[16 + 32 * g + i] == Q4K.code(blk, 64 * g + i) + 16 * Q4K.code(blk, 64 * g + 32 + i),
        0 <= Q4K.scale(blk, j) < 64,
        0 <= Q4K.scale(blk, j + 4) < 64,
        0 <= Q4K.min(blk, j) < 64,
        0 <= Q4K.min(blk, j + 4) < 64,
        blk[4 + j] == Q4K.scale(blk, j) + 64 * (Q4K.scale(blk, j + 4) / 16),
        blk[8 + j] == Q4K.min(blk, j) + 64 * (Q4K.min(blk, j + 4) / 16),
        blk[12 + j] == Q4K.scale(blk, j + 4) % 16 + 16 * (Q4K.min(blk, j + 4) % 16),
        Q4K.d(blk, u) % 256 == blk[0],
        Q4K.d(blk, u) / 256 == blk[1],
        Q4K.aux(blk, u) % 256 == blk[2],
        Q4K.aux(blk, u) / 256 == blk[3],
{
    lemma_k4(blk, j);
}

/// The parts of a Q5_K code: element `i` of sub-block `b`.
proof fn lemma_q5k_code(blk: Seq<u8>, b: int, i: int)
    requires
        0 <= b < 8,
        0 <= i < 32,
    ensures
        0 <= q5k_code(blk, 32 * b + i) < 32,
        q5k_code(blk, 32 * b + i) % 16 == nibble_of(blk[48 + 32 * (b / 2) + i], b % 2 == 1),
        q5k_code(blk, 32 * b + i) / 16 == bit_of(blk[16 + i], b),
{
    let e = 32 * b + i;
    assert(e / 32 == b && e % 32 == i && e / 64 == b / 2);
    crate::bits::lemma_bits_of(blk[16 + i]);
    crate::bits::lemma_nibbles_of(blk[48 + 32 * (b / 2) + i]);
    crate::bits::lemma_parts(nibble_of(blk[48 + 32 * (b / 2) + i], b % 2 == 1), bit_of(blk[16 + i], b));
}

/// A code of a Q5_K block has four bits in a nibble, as those of a Q4_K block; scales and mins are as
/// there.
pub proof fn law_q5k_block(blk: Seq<u8>, g: int, i: int, j: int, u: int)
    requires
        blk.len() == 176,
        0 <= g < 4,
        0 <= i < 32,
        0 <= j < 4,
    ensures
        Q5K.shape().bytes == 176,
        Q5K.shape().elems == 256,
        Q5K.shape().sub == 32,
        Q5K.shape().unit == 256,
        Q5K.shape().offset == 0,
        0 <= Q5K.code(blk, 64 * g + i) < 32,
        0 <= Q5K.code(blk, 64 * g + 32 + i) < 32,
        blk[48 + 32 * g + i] == Q5K.code(blk, 64 * g + i) % 16 + 16 * (Q5K.code(blk, 64 * g + 32 + i) % 16),
        0 <= Q5K.scale(blk, j) < 64,
        0 <= Q5K.scale(blk, j + 4) < 64,
        0 <= Q5K.min(blk, j) < 64,
        0 <= Q5K.min(blk, j + 4) < 64,
        blk[4 + j] == Q5K.scale(blk, j) + 64 * (Q5K.scale(blk, j + 4) / 16),
        blk[8 + j] == Q5K.min(blk, j) + 64 * (Q5K.min(blk, j + 4) / 16),
        blk[12 + j] == Q5K.scale(blk, j + 4) % 16 + 16 * (Q5K.min(blk, j + 4) % 16),
        Q5K.d(blk, u) % 256 == blk[0],
        Q5K.d(blk, u) / 256 == blk[1],
        Q5K.aux(blk, u) % 256 == blk[2],
        Q5K.aux(blk, u) / 256 == blk[3],
{
    lemma_k4(blk, j);
    lemma_q5k_code(blk, 2 * g, i);
    lemma_q5k_code(blk, 2 * g + 1, i);
    assert(32 * (2 * g) + i == 64 * g + i && 32 * (2 * g + 1) + i == 64 * g + 32 + i);
    crate::bits::lemma_nibbles_of(blk[48 + 32 * g + i]);
}

/// The fifth bit of a Q5_K code stands in the byte of its element of the sub-block, at the bit of the
/// sub-block.
pub proof fn law_q5k_fifth_bits(blk: Seq<u8>, i: int)
    requires
        blk.len() == 176,
        0 <= i < 32,
    ensures
        blk[16 + i] == (Q5K.code(blk, i) / 16) + 2 * (Q5K.code(blk, 32 + i) / 16) + 4 * (Q5K.code(blk, 64 + i) / 16)
            + 8 * (Q5K.code(blk, 96 + i) / 16) + 16 * (Q5K.code(blk, 128 + i) / 16)
            + 32 * (Q5K.code(blk, 160 + i) / 16) + 64 * (Q5K.code(blk, 192 + i) / 16)
            + 128 * (Q5K.code(blk, 224 + i) / 16),
{
    crate::bits::lemma_bits_of(blk[16 + i]);
    lemma_q5k_code(blk, 0, i);
    lemma_q5k_code(blk, 1, i);
    lemma_q5k_code(blk, 2, i);
    lemma_q5k_code(blk, 3, i);
    lemma_q5k_code(blk, 4, i);
    lemma_q5k_code(blk, 5, i);
    lemma_q5k_code(blk, 6, i);
    lemma_q5k_code(blk, 7, i);
}

/// Code byte `i` of half `h` of a Q2_K block is four codes 32 elements apart; every one of the first
/// sixteen bytes is a scale and a min.
pub proof fn law_q2k_block(blk: Seq<u8>, h: int, i: int, s: int, u: int)
    requires
        blk.len() == 84,
        0 <= h < 2,
        0 <= i < 32,
        0 <= s < 16,
    ensures
        Q2K.shape().bytes == 84,
        Q2K.shape().elems == 256,
        Q2K.shape().sub == 16,
        Q2K.shape().unit == 256,
        Q2K.shape().offset == 0,
        0 <= Q2K.code(blk, 128 * h + i) < 4,
        0 <= Q2K.code(blk, 128 * h + 32 + i) < 4,
        0 <= Q2K.code(blk, 128 * h + 64 + i) < 4,
        0 <= Q2K.code(blk, 128 * h + 96 + i) < 4,
        blk[16 + 32 * h + i] == Q2K.code(blk, 128 * h + i) + 4 * Q2K.code(blk, 128 * h + 32 + i)
            + 16 * Q2K.code(blk, 128 * h + 64 + i) + 64 * Q2K.code(blk, 128 * h + 96 + i),
        0 <= Q2K.scale(blk, s) < 16,
        0 <= Q2K.min(blk, s) < 16,
        blk[s] == Q2K.scale(blk, s) + 16 * Q2K.min(blk, s),
        Q2K.d(blk, u) % 256 == blk[80],
        Q2K.d(blk, u) / 256 == blk[81],
        Q2K.aux(blk, u) % 256 == blk[82],
        Q2K.aux(blk, u) / 256 == blk[83],
{
    crate::bits::lemma_fields2_of(blk[16 + 32 * h + i]);
    crate::bits::lemma_nibbles_of(blk[s]);
    lemma_place128(h, 0, i);
    assert(Q2K.code(blk, 128 * h + i) == field2_of(blk[16 + 32 * h + i], 0));
    lemma_place128(h, 1, i);
    assert(Q2K.code(blk, 128 * h + 32 + i) == field2_of(blk[16 + 32 * h + i], 1));
    lemma_place128(h, 2, i);
    assert(Q2K.code(blk, 128 * h + 64 + i) == field2_of(blk[16 + 32 * h + i], 2));
    lemma_place128(h, 3, i);
    assert(Q2K.code(blk, 128 * h + 96 + i) == field2_of(blk[16 + 32 * h + i], 3));
}

/// Where element `i` of run `q` of half `h` of a block of 256 stands.
proof fn lemma_place128(h: int, q: int, i: int)
    requires
        0 <= h < 2,
        0 <= q < 4,
        0 <= i < 32,
    ensures
        (128 * h + 32 * q + i) / 128 == h,
        ((128 * h + 32 * q + i) % 128) / 32 == q,
        (128 * h + 32 * q + i) % 32 == i,
        (128 * h + 32 * q + i) / 32 == 4 * h + q,
{
}

/// The parts of a Q3_K code: element `i` of run `q` of half `h`.
proof fn lemma_q3k_code(blk: Seq<u8>, h: int, q: int, i: int)
    requires
        0 <= h < 2,
        0 <= q < 4,
        0 <= i < 32,
    ensures
        0 <= q3k_code(blk, 128 * h + 32 * q + i) < 8,
        q3k_code(blk, 128 * h + 32 * q + i) % 4 == field2_of(blk[32 + 32 * h + i], q),
        q3k_code(blk, 128 * h + 32 * q + i) / 4 == bit_of(blk[i], 4 * h + q),
{
    lemma_place128(h, q, i);
    crate::bits::lemma_bits_of(blk[i]);
    crate::bits::lemma_fields2_of(blk[32 + 32 * h + i]);
    assert(0 <= bit_of(blk[i], 4 * h + q) < 2);
    crate::bits::lemma_parts(field2_of(blk[32 + 32 * h + i], q), bit_of(blk[i], 4 * h + q));
}

/// A weight of a Q3_K block is raised by 4 to three bits; two stand in a field, as those of a Q2_K
/// block.
pub proof fn law_q3k_block(blk: Seq<u8>, h: int, i: int, u: int)
    requires
        blk.len() == 110,
        0 <= h < 2,
        0 <= i < 32,
    ensures
        Q3K.shape().bytes == 110,
        Q3K.shape().elems == 256,
        Q3K.shape().sub == 16,
        Q3K.shape().unit == 256,
        0 <= (Q3K.code(blk, 128 * h + i) - Q3K.shape().offset + 4) < 8,
        0 <= (Q3K.code(blk, 128 * h + 32 + i) - Q3K.shape().offset + 4) < 8,
        0 <= (Q3K.code(blk, 128 * h + 64 + i) - Q3K.shape().offset + 4) < 8,
        0 <= (Q3K.code(blk, 128 * h + 96 + i) - Q3K.shape().offset + 4) < 8,
        blk[32 + 32 * h + i] == ((Q3K.code(blk, 128 * h + i) - Q3K.shape().offset + 4) % 4)
            + 4 * ((Q3K.code(blk, 128 * h + 32 + i) - Q3K.shape().offset + 4) % 4)
            + 16 * ((Q3K.code(blk, 128 * h + 64 + i) - Q3K.shape().offset + 4) % 4)
            + 64 * ((Q3K.code(blk, 128 * h + 96 + i) - Q3K.shape().offset + 4) % 4),
        Q3K.d(blk, u) % 256 == blk[108],
        Q3K.d(blk, u) / 256 == blk[109],
        Q3K.aux(blk, u) == 0,
{
    crate::bits::lemma_fields2_of(blk[32 + 32 * h + i]);
    lemma_q3k_code(blk, h, 0, i);
    lemma_q3k_code(blk, h, 1, i);
    lemma_q3k_code(blk, h, 2, i);
    lemma_q3k_code(blk, h, 3, i);
}

/// The third bit of a Q3_K weight stands in the byte of its element of the 32, at the bit of its run of
/// 32.
pub proof fn law_q3k_third_bits(blk: Seq<u8>, i: int)
    requires
        blk.len() == 110,
        0 <= i < 32,
    ensures
        blk[i] == ((Q3K.code(blk, i) - Q3K.shape().offset + 4) / 4)
            + 2 * ((Q3K.code(blk, 32 + i) - Q3K.shape().offset + 4) / 4)
            + 4 * ((Q3K.code(blk, 64 + i) - Q3K.shape().offset + 4) / 4)
            + 8 * ((Q3K.code(blk, 96 + i) - Q3K.shape().offset + 4) / 4)
            + 16 * ((Q3K.code(blk, 128 + i) - Q3K.shape().offset + 4) / 4)
            + 32 * ((Q3K.code(blk, 160 + i) - Q3K.shape().offset + 4) / 4)
            + 64 * ((Q3K.code(blk, 192 + i) - Q3K.shape().offset + 4) / 4)
            + 128 * ((Q3K.code(blk, 224 + i) - Q3K.shape().offset + 4) / 4),
{
    crate::bits::lemma_bits_of(blk[i]);
    lemma_q3k_code(blk, 0, 0, i);
    lemma_q3k_code(blk, 0, 1, i);
    lemma_q3k_code(blk, 0, 2, i);
    lemma_q3k_code(blk, 0, 3, i);
    lemma_q3k_code(blk, 1, 0, i);
    lemma_q3k_code(blk, 1, 1, i);
    lemma_q3k_code(blk, 1, 2, i);
    lemma_q3k_code(blk, 1, 3, i);
}

/// The parts of a Q3_K scale.
proof fn lemma_q3k_scale(raw: Seq<u8>, s: int)
    requires
        0 <= s < 16,
    ensures
        0 <= q3k_scale6(raw, s) < 64,
        q3k_scale6(raw, s) / 16 == field2_of(raw[8 + s % 4], s / 4),
        s < 8 ==> q3k_scale6(raw, s) % 16 == nibble_of(raw[s], false),
        8 <= s ==> q3k_scale6(raw, s) % 16 == nibble_of(raw[s - 8], true),
{
    crate::bits::lemma_fields2_of(raw[8 + s % 4]);
    assert(0 <= field2_of(raw[8 + s % 4], s / 4) < 4);
    if s < 8 {
        crate::bits::lemma_nibbles_of(raw[s]);
        crate::bits::lemma_parts(nibble_of(raw[s], false), field2_of(raw[8 + s % 4], s / 4));
    } else {
        crate::bits::lemma_nibbles_of(raw[s - 8]);
        crate::bits::lemma_parts(nibble_of(raw[s - 8], true), field2_of(raw[8 + s % 4], s / 4));
    }
}

/// A scale of a Q3_K block is raised by 32 to six bits: four in a nibble of eight bytes, those of the
/// last eight sub-blocks in the upper one, and two in a field of the four bytes behind them.
pub proof fn law_q3k_scales(blk: Seq<u8>, k: int, m: int, s: int)
    requires
        blk.len() == 110,
        0 <= k < 8,
        0 <= m < 4,
        0 <= s < 16,
    ensures
        0 <= (Q3K.scale(blk, s) + 32) < 64,
        Q3K.min(blk, s) == 0,
        blk[96 + k] == (Q3K.scale(blk, k) + 32) % 16 + 16 * ((Q3K.scale(blk, k + 8) + 32) % 16),
        blk[104 + m] == ((Q3K.scale(blk, m) + 32) / 16) + 4 * ((Q3K.scale(blk, 4 + m) + 32) / 16)
            + 16 * ((Q3K.scale(blk, 8 + m) + 32) / 16) + 64 * ((Q3K.scale(blk, 12 + m) + 32) / 16),
{
    let raw = blk.subrange(96, 108);
    assert(raw[k] == blk[96 + k] && raw[8 + m] == blk[104 + m]);
    lemma_q3k_scale(raw, s);
    lemma_q3k_scale(raw, k);
    lemma_q3k_scale(raw, k + 8);
    crate::bits::lemma_nibbles_of(raw[k]);
    crate::bits::lemma_fields2_of(raw[8 + m]);
    lemma_q3k_scale(raw, m);
    assert(m % 4 == m && m / 4 == 0);
    lemma_q3k_scale(raw, 4 + m);
    assert((4 + m) % 4 == m && (4 + m) / 4 == 1);
    lemma_q3k_scale(raw, 8 + m);
    assert((8 + m) % 4 == m && (8 + m) / 4 == 2);
    lemma_q3k_scale(raw, 12 + m);
    assert((12 + m) % 4 == m && (12 + m) / 4 == 3);
}

/// The parts of a Q6_K code: element `i` of run `q` of half `h`.
proof fn lemma_q6k_code(blk: Seq<u8>, h: int, q: int, i: int)
    requires
        0 <= h < 2,
        0 <= q < 4,
        0 <= i < 32,
    ensures
        0 <= q6k_code(blk, 128 * h + 32 * q + i) < 64,
        q6k_code(blk, 128 * h + 32 * q + i) % 16 == nibble_of(blk[64 * h + 32 * (q % 2) + i], 2 <= q),
        q6k_code(blk, 128 * h + 32 * q + i) / 16 == field2_of(blk[128 + 32 * h + i], q),
{
    lemma_place128(h, q, i);
    crate::bits::lemma_nibbles_of(blk[64 * h + 32 * (q % 2) + i]);
    crate::bits::lemma_fields2_of(blk[128 + 32 * h + i]);
    assert(0 <= field2_of(blk[128 + 32 * h + i], q) < 4);
    crate::bits::lemma_parts(nibble_of(blk[64 * h + 32 * (q % 2) + i], 2 <= q), field2_of(blk[128 + 32 * h + i], q));
}

/// A weight of a Q6_K block is raised by 32 to six bits: four in a nibble, 64 elements apart in one
/// byte, and two in a field of a byte that four elements 32 apart share. The scales are signed bytes.
pub proof fn law_q6k_block(blk: Seq<u8>, h: int, p: int, i: int, s: int, u: int)
    requires
        blk.len() == 210,
        0 <= h < 2,
        0 <= p < 2,
        0 <= i < 32,
        0 <= s < 16,
    ensures
        Q6K.shape().bytes == 210,
        Q6K.shape().elems == 256,
        Q6K.shape().sub == 16,
        Q6K.shape().unit == 256,
        0 <= (Q6K.code(blk, 128 * h + i) - Q6K.shape().offset + 32) < 64,
        0 <= (Q6K.code(blk, 128 * h + 32 + i) - Q6K.shape().offset + 32) < 64,
        0 <= (Q6K.code(blk, 128 * h + 64 + i) - Q6K.shape().offset + 32) < 64,
        0 <= (Q6K.code(blk, 128 * h + 96 + i) - Q6K.shape().offset + 32) < 64,
        blk[64 * h + 32 * p + i] == (Q6K.code(blk, 128 * h + 32 * p + i) - Q6K.shape().offset + 32) % 16
            + 16 * ((Q6K.code(blk, 128 * h + 64 + 32 * p + i) - Q6K.shape().offset + 32) % 16),
        blk[128 + 32 * h + i] == ((Q6K.code(blk, 128 * h + i) - Q6K.shape().offset + 32) / 16)
            + 4 * ((Q6K.code(blk, 128 * h + 32 + i) - Q6K.shape().offset + 32) / 16)
            + 16 * ((Q6K.code(blk, 128 * h + 64 + i) - Q6K.shape().offset + 32) / 16)
            + 64 * ((Q6K.code(blk, 128 * h + 96 + i) - Q6K.shape().offset + 32) / 16),
        -128 <= Q6K.scale(blk, s) < 128,
        (Q6K.scale(blk, s) - blk[192 + s]) % 256 == 0,
        Q6K.min(blk, s) == 0,
        Q6K.d(blk, u) % 256 == blk[208],
        Q6K.d(blk, u) / 256 == blk[209],
        Q6K.aux(blk, u) == 0,
{
    crate::bits::lemma_fields2_of(blk[128 + 32 * h + i]);
    crate::bits::lemma_nibbles_of(blk[64 * h + 32 * p + i]);
    lemma_q6k_code(blk, h, 0, i);
    lemma_q6k_code(blk, h, 1, i);
    lemma_q6k_code(blk, h, 2, i);
    lemma_q6k_code(blk, h, 3, i);
    if p == 0 {
        assert(128 * h + 32 * p + i == 128 * h + i && 128 * h + 64 + 32 * p + i == 128 * h + 32 * 2 + i);
    } else {
        assert(128 * h + 32 * p + i == 128 * h + 32 * 1 + i && 128 * h + 64 + 32 * p + i == 128 * h + 32 * 3 + i);
    }
}

/// The six-bit scales and mins of sub-blocks `j` and `j + 4`.
proof fn lemma_k4(blk: Seq<u8>, j: int)
    requires
        16 <= blk.len(),
        0 <= j < 4,
    ensures
        0 <= k4_scale(blk, j) < 64,
        0 <= k4_scale(blk, j + 4) < 64,
        0 <= k4_min(blk, j) < 64,
        0 <= k4_min(blk, j + 4) < 64,
        blk[4 + j] == k4_scale(blk, j) + 64 * (k4_scale(blk, j + 4) / 16),
        blk[8 + j] == k4_min(blk, j) + 64 * (k4_min(blk, j + 4) / 16),
        blk[12 + j] == k4_scale(blk, j + 4) % 16 + 16 * (k4_min(blk, j + 4) % 16),
{
}

/// The scale and the min that are read for a sub-block are those of both K formats.
pub proof fn law_k4_is_scale_and_min(j: usize, blk: &[u8], r: (u8, u8))
    requires
        call_ensures(k4, (j, blk), r),
        j < 8,
    ensures
        r.0 == Q4K.scale(blk@, j as int),
        r.1 == Q4K.min(blk@, j as int),
        r.0 == Q5K.scale(blk@, j as int),
        r.1 == Q5K.min(blk@, j as int),
{
}

/// The scales that are read together are those of the sub-blocks.
pub proof fn law_q3k_scales_are_read(blk: Seq<u8>, raw: &[u8], sc: [i16; 16], s: int)
    requires
        call_ensures(q3k_scales, (raw,), sc),
        blk.len() == 110,
        raw@ == blk.subrange(96, 108),
        0 <= s < 16,
    ensures
        sc@[s] == Q3K.scale(blk, s),
{
    assert(sc@[s] == q3k_scale6(raw@, s) - 32);
}

} // verus!
