//! Weight formats whose codes look weights up in a table of sixteen signed values.
use vstd::prelude::*;
use crate::bits::{field2_of, le16, le16_of, nibble, nibble_of, rdf16};
use crate::format::{Shape, WeightFormat};

verus! {

/// `4^ib` for the eight sub-blocks of an IQ4_XS block.
pub open spec fn four_pow(ib: int) -> int {
    if ib == 0 {
        1
    } else if ib == 1 {
        4
    } else if ib == 2 {
        16
    } else if ib == 3 {
        64
    } else if ib == 4 {
        256
    } else if ib == 5 {
        1024
    } else if ib == 6 {
        4096
    } else {
        16384
    }
}

/// The signed scale of sub-block `ib` of an IQ4_XS block: four low bits from a nibble of
/// `scales_l`, two high bits from `scales_h`, less 32.
pub open spec fn iq4xs_scale(scales_h: int, scales_l: Seq<u8>, ib: int) -> int {
    nibble_of(scales_l[ib / 2], ib % 2 == 1) + 16 * ((scales_h / four_pow(ib)) % 4) - 32
}

/// The 6-bit scale of sub-block `ib` of an IQ4_XS block, less 32.
pub fn iq4xs_ls_minus_32(scales_h: u16, scales_l: &[u8], ib: usize) -> (r: i32)
    requires
        ib < 8,
        ib / 2 < scales_l@.len(),
    ensures
        r == iq4xs_scale(scales_h as int, scales_l@, ib as int),
        -32 <= r < 32,
{
    let lo: i32 = nibble(scales_l[ib / 2], ib % 2 == 1) as i32;
    let shift: u16 = 2 * (ib as u16);
    let h: u16 = scales_h;
    assert((h >> 0u16) & 3 == h % 4 && (h >> 2u16) & 3 == (h / 4) % 4 && (h >> 4u16) & 3 == (h / 16) % 4 && (h >> 6u16)
        & 3 == (h / 64) % 4 && (h >> 8u16) & 3 == (h / 256) % 4 && (h >> 10u16) & 3 == (h / 1024) % 4 && (h >> 12u16) & 3
        == (h / 4096) % 4 && (h >> 14u16) & 3 == (h / 16384) % 4) by (bit_vector);
    let hi: i32 = ((scales_h >> shift) & 3) as i32;
    assert(lo < 16 && hi < 4 ==> (lo | (hi << 4)) == lo + 16 * hi) by (bit_vector)
        requires
            0 <= lo,
            0 <= hi,
    ;
    (lo | (hi << 4)) - 32
}

/// IQ4_XS: 136 bytes for 256 weights, `d*(ls - 32)*kv[code]` with a 6-bit scale `ls` for each 32
/// weights.
pub struct Iq4Xs {
    pub kv: [i8; 16],
}

impl WeightFormat for Iq4Xs {
    open spec fn shape(&self) -> Shape {
        Shape { bytes: 136, elems: 256, sub: 32, unit: 256, offset: 0 }
    }

    open spec fn valid(&self) -> bool {
        true
    }

    open spec fn code(&self, blk: Seq<u8>, e: int) -> int {
        self.kv@[nibble_of(blk[8 + 16 * (e / 32) + e % 16], 16 <= e % 32)] as int
    }

    open spec fn scale(&self, blk: Seq<u8>, s: int) -> int {
        iq4xs_scale(le16_of(blk, 2), blk.subrange(4, 8), s)
    }

    open spec fn min(&self, blk: Seq<u8>, s: int) -> int {
        0
    }

    open spec fn d(&self, blk: Seq<u8>, u: int) -> int {
        le16_of(blk, 0)
    }

    open spec fn aux(&self, blk: Seq<u8>, u: int) -> int {
        0
    }

    proof fn lemma_shape(&self) {
    }

    fn shape_of(&self) -> (r: Shape) {
        Shape { bytes: 136, elems: 256, sub: 32, unit: 256, offset: 0 }
    }

    fn code_at(&self, blk: &[u8], e: usize) -> (r: i8) {
        self.kv[nibble(blk[8 + 16 * (e / 32) + e % 16], 16 <= e % 32) as usize]
    }

    fn scale_at(&self, blk: &[u8], s: usize) -> (r: i32) {
        let scales_l: &[u8] = vstd::slice::slice_subrange(blk, 4, 8);
        iq4xs_ls_minus_32(le16(blk, 2), scales_l, s)
    }

    fn min_at(&self, blk: &[u8], s: usize) -> (r: i32) {
        0
    }

    fn d_at(&self, blk: &[u8], u: usize) -> (r: u16) {
        rdf16(blk, 0)
    }

    fn aux_at(&self, blk: &[u8], u: usize) -> (r: u16) {
        0
    }
}

/// IQ4_NL: 18 bytes for 32 weights, `d*kv[code]`.
pub struct Iq4Nl {
    pub kv: [i8; 16],
}

impl WeightFormat for Iq4Nl {
    open spec fn shape(&self) -> Shape {
        Shape { bytes: 18, elems: 32, sub: 32, unit: 32, offset: 0 }
    }

    open spec fn valid(&self) -> bool {
        true
    }

    open spec fn code(&self, blk: Seq<u8>, e: int) -> int {
        self.kv@[nibble_of(blk[2 + e % 16], 16 <= e)] as int
    }

    open spec fn scale(&self, blk: Seq<u8>, s: int) -> int {
        1
    }

    open spec fn min(&self, blk: Seq<u8>, s: int) -> int {
        0
    }

    open spec fn d(&self, blk: Seq<u8>, u: int) -> int {
        le16_of(blk, 0)
    }

    open spec fn aux(&self, blk: Seq<u8>, u: int) -> int {
        0
    }

    proof fn lemma_shape(&self) {
    }

    fn shape_of(&self) -> (r: Shape) {
        Shape { bytes: 18, elems: 32, sub: 32, unit: 32, offset: 0 }
    }

    fn code_at(&self, blk: &[u8], e: usize) -> (r: i8) {
        self.kv[nibble(blk[2 + e % 16], 16 <= e) as usize]
    }

    fn scale_at(&self, blk: &[u8], s: usize) -> (r: i32) {
        1
    }

    fn min_at(&self, blk: &[u8], s: usize) -> (r: i32) {
        0
    }

    fn d_at(&self, blk: &[u8], u: usize) -> (r: u16) {
        rdf16(blk, 0)
    }

    fn aux_at(&self, blk: &[u8], u: usize) -> (r: u16) {
        0
    }
}

/// MXFP4: 17 bytes for 32 weights, `2^(x - 128)*kv[code]` with an exponent byte `x`, which takes
/// the place of the half-precision scale.
pub struct Mxfp4 {
    pub kv: [i8; 16],
}

impl WeightFormat for Mxfp4 {
    open spec fn shape(&self) -> Shape {
        Shape { bytes: 17, elems: 32, sub: 32, unit: 32, offset: 0 }
    }

    open spec fn valid(&self) -> bool {
        true
    }

    open spec fn code(&self, blk: Seq<u8>, e: int) -> int {
        self.kv@[nibble_of(blk[1 + e % 16], 16 <= e)] as int
    }

    open spec fn scale(&self, blk: Seq<u8>, s: int) -> int {
        1
    }

    open spec fn min(&self, blk: Seq<u8>, s: int) -> int {
        0
    }

    open spec fn d(&self, blk: Seq<u8>, u: int) -> int {
        blk[0] as int
    }

    open spec fn aux(&self, blk: Seq<u8>, u: int) -> int {
        0
    }

    proof fn lemma_shape(&self) {
    }

    fn shape_of(&self) -> (r: Shape) {
        Shape { bytes: 17, elems: 32, sub: 32, unit: 32, offset: 0 }
    }

    fn code_at(&self, blk: &[u8], e: usize) -> (r: i8) {
        self.kv[nibble(blk[1 + e % 16], 16 <= e) as usize]
    }

    fn scale_at(&self, blk: &[u8], s: usize) -> (r: i32) {
        1
    }

    fn min_at(&self, blk: &[u8], s: usize) -> (r: i32) {
        0
    }

    fn d_at(&self, blk: &[u8], u: usize) -> (r: u16) {
        blk[0] as u16
    }

    fn aux_at(&self, blk: &[u8], u: usize) -> (r: u16) {
        0
    }
}

/// NVFP4: 36 bytes for 64 weights, `scale*kv[code]` with an 8-bit floating-point scale for each 16
/// weights. Byte `j` of a sub-block holds its elements `j` and `j + 8`.
pub struct Nvfp4 {
    pub kv: [i8; 16],
}

impl WeightFormat for Nvfp4 {
    open spec fn shape(&self) -> Shape {
        Shape { bytes: 36, elems: 64, sub: 16, unit: 16, offset: 0 }
    }

    open spec fn valid(&self) -> bool {
        true
    }

    open spec fn code(&self, blk: Seq<u8>, e: int) -> int {
        self.kv@[nibble_of(blk[4 + 8 * (e / 16) + e % 8], 8 <= e % 16)] as int
    }

    open spec fn scale(&self, blk: Seq<u8>, s: int) -> int {
        1
    }

    open spec fn min(&self, blk: Seq<u8>, s: int) -> int {
        0
    }

    open spec fn d(&self, blk: Seq<u8>, u: int) -> int {
        blk[u] as int
    }

    open spec fn aux(&self, blk: Seq<u8>, u: int) -> int {
        0
    }

    proof fn lemma_shape(&self) {
    }

    fn shape_of(&self) -> (r: Shape) {
        Shape { bytes: 36, elems: 64, sub: 16, unit: 16, offset: 0 }
    }

    fn code_at(&self, blk: &[u8], e: usize) -> (r: i8) {
        self.kv[nibble(blk[4 + 8 * (e / 16) + e % 8], 8 <= e % 16) as usize]
    }

    fn scale_at(&self, blk: &[u8], s: usize) -> (r: i32) {
        1
    }

    fn min_at(&self, blk: &[u8], s: usize) -> (r: i32) {
        0
    }

    fn d_at(&self, blk: &[u8], u: usize) -> (r: u16) {
        blk[u] as u16
    }

    fn aux_at(&self, blk: &[u8], u: usize) -> (r: u16) {
        0
    }
}

/// Every code byte of an IQ4_NL block is two places in the table: the lower for the first half of the
/// block, the upper for the second half.
pub proof fn law_iq4nl_block(f: &Iq4Nl, blk: Seq<u8>, i: int, lo: int, hi: int, s: int, u: int)
    requires
        blk.len() == 18,
        0 <= i < 16,
        0 <= lo < 16,
        0 <= hi < 16,
        blk[2 + i] == lo + 16 * hi,
    ensures
        f.shape().bytes == 18,
        f.shape().elems == 32,
        f.shape().sub == 32,
        f.shape().unit == 32,
        f.shape().offset == 0,
        f.code(blk, i) == f.kv@[lo],
        f.code(blk, i + 16) == f.kv@[hi],
        f.scale(blk, s) == 1,
        f.min(blk, s) == 0,
        f.d(blk, u) % 256 == blk[0],
        f.d(blk, u) / 256 == blk[1],
        f.aux(blk, u) == 0,
{
}

/// An MXFP4 block is as an IQ4_NL block behind a single exponent byte.
pub proof fn law_mxfp4_block(f: &Mxfp4, blk: Seq<u8>, i: int, lo: int, hi: int, s: int, u: int)
    requires
        blk.len() == 17,
        0 <= i < 16,
        0 <= lo < 16,
        0 <= hi < 16,
        blk[1 + i] == lo + 16 * hi,
    ensures
        f.shape().bytes == 17,
        f.shape().elems == 32,
        f.shape().sub == 32,
        f.shape().unit == 32,
        f.shape().offset == 0,
        f.code(blk, i) == f.kv@[lo],
        f.code(blk, i + 16) == f.kv@[hi],
        f.scale(blk, s) == 1,
        f.min(blk, s) == 0,
        f.d(blk, u) == blk[0],
        f.aux(blk, u) == 0,
{
}

/// An NVFP4 block is four runs of 16 behind a scale byte for each; a code byte of a run is two places
/// in the table, for its first and for its second eight.
pub proof fn law_nvfp4_block(f: &Nvfp4, blk: Seq<u8>, r: int, i: int, lo: int, hi: int, s: int)
    requires
        blk.len() == 36,
        0 <= r < 4,
        0 <= i < 8,
        0 <= lo < 16,
        0 <= hi < 16,
        blk[4 + 8 * r + i] == lo + 16 * hi,
    ensures
        f.shape().bytes == 36,
        f.shape().elems == 64,
        f.shape().sub == 16,
        f.shape().unit == 16,
        f.shape().offset == 0,
        f.code(blk, 16 * r + i) == f.kv@[lo],
        f.code(blk, 16 * r + 8 + i) == f.kv@[hi],
        f.scale(blk, s) == 1,
        f.min(blk, s) == 0,
        f.d(blk, r) == blk[r],
        f.aux(blk, s) == 0,
{
    assert((16 * r + i) / 16 == r && (16 * r + 8 + i) / 16 == r);
    assert((16 * r + i) % 8 == i && (16 * r + 8 + i) % 8 == i);
    assert((16 * r + i) % 16 == i && (16 * r + 8 + i) % 16 == i + 8);
}

/// Every run of 32 of an IQ4_XS block is as an IQ4_NL block.
pub proof fn law_iq4xs_block(f: &Iq4Xs, blk: Seq<u8>, r: int, i: int, lo: int, hi: int, s: int, u: int)
    requires
        blk.len() == 136,
        0 <= r < 8,
        0 <= i < 16,
        0 <= lo < 16,
        0 <= hi < 16,
        blk[8 + 16 * r + i] == lo + 16 * hi,
    ensures
        f.shape().bytes == 136,
        f.shape().elems == 256,
        f.shape().sub == 32,
        f.shape().unit == 256,
        f.shape().offset == 0,
        f.code(blk, 32 * r + i) == f.kv@[lo],
        f.code(blk, 32 * r + 16 + i) == f.kv@[hi],
        f.min(blk, s) == 0,
        f.d(blk, u) % 256 == blk[0],
        f.d(blk, u) / 256 == blk[1],
        f.aux(blk, u) == 0,
{
    assert((32 * r + i) / 32 == r && (32 * r + 16 + i) / 32 == r);
    assert((32 * r + i) % 16 == i && (32 * r + 16 + i) % 16 == i);
    assert((32 * r + i) % 32 == i && (32 * r + 16 + i) % 32 == i + 16);
}

/// The parts of an IQ4_XS scale.
proof fn lemma_iq4xs_scale(h: int, l: Seq<u8>, ib: int)
    requires
        0 <= h < 65536,
        0 <= ib < 8,
    ensures
        0 <= iq4xs_scale(h, l, ib) + 32 < 64,
        (iq4xs_scale(h, l, ib) + 32) % 16 == nibble_of(l[ib / 2], ib % 2 == 1),
        (iq4xs_scale(h, l, ib) + 32) / 16 == (h / four_pow(ib)) % 4,
{
    crate::bits::lemma_nibbles_of(l[ib / 2]);
    crate::bits::lemma_parts(nibble_of(l[ib / 2], ib % 2 == 1), (h / four_pow(ib)) % 4);
}

/// A scale of an IQ4_XS block is raised by 32 to six bits: four in a nibble of the four bytes before
/// the codes, and two in a field of the word before them, one sub-block after the other.
pub proof fn law_iq4xs_scales(f: &Iq4Xs, blk: Seq<u8>, k: int, s: int)
    requires
        blk.len() == 136,
        0 <= k < 4,
        0 <= s < 8,
    ensures
        0 <= (f.scale(blk, s) + 32) < 64,
        blk[4 + k] == (f.scale(blk, 2 * k) + 32) % 16 + 16 * ((f.scale(blk, 2 * k + 1) + 32) % 16),
        blk[2] == ((f.scale(blk, 0) + 32) / 16) + 4 * ((f.scale(blk, 1) + 32) / 16)
            + 16 * ((f.scale(blk, 2) + 32) / 16) + 64 * ((f.scale(blk, 3) + 32) / 16),
        blk[3] == ((f.scale(blk, 4) + 32) / 16) + 4 * ((f.scale(blk, 5) + 32) / 16)
            + 16 * ((f.scale(blk, 6) + 32) / 16) + 64 * ((f.scale(blk, 7) + 32) / 16),
{
    let h = le16_of(blk, 2);
    let l = blk.subrange(4, 8);
    assert(l[k] == blk[4 + k]);
    crate::bits::lemma_nibbles_of(l[k]);
    lemma_iq4xs_scale(h, l, s);
    lemma_iq4xs_scale(h, l, 2 * k);
    lemma_iq4xs_scale(h, l, 2 * k + 1);
    lemma_iq4xs_scale(h, l, 0);
    lemma_iq4xs_scale(h, l, 1);
    lemma_iq4xs_scale(h, l, 2);
    lemma_iq4xs_scale(h, l, 3);
    lemma_iq4xs_scale(h, l, 4);
    lemma_iq4xs_scale(h, l, 5);
    lemma_iq4xs_scale(h, l, 6);
    lemma_iq4xs_scale(h, l, 7);
    lemma_word_fields(blk[2], blk[3]);
}

/// The eight 2-bit fields of a word of two bytes.
proof fn lemma_word_fields(a: u8, b: u8)
    ensures
        a == (((a + 256 * b) / four_pow(0)) % 4) + 4 * (((a + 256 * b) / four_pow(1)) % 4)
            + 16 * (((a + 256 * b) / four_pow(2)) % 4) + 64 * (((a + 256 * b) / four_pow(3)) % 4),
        b == (((a + 256 * b) / four_pow(4)) % 4) + 4 * (((a + 256 * b) / four_pow(5)) % 4)
            + 16 * (((a + 256 * b) / four_pow(6)) % 4) + 64 * (((a + 256 * b) / four_pow(7)) % 4),
{
    let h = a + 256 * b;
    crate::bits::lemma_fields2_of(a);
    crate::bits::lemma_fields2_of(b);
    let (a0, a1, a2, a3) = (field2_of(a, 0), field2_of(a, 1), field2_of(a, 2), field2_of(a, 3));
    let (b0, b1, b2, b3) = (field2_of(b, 0), field2_of(b, 1), field2_of(b, 2), field2_of(b, 3));
    crate::bits::lemma_digit(h, 0, 1, a0, 4, a1 + 4 * a2 + 16 * a3 + 64 * b);
    crate::bits::lemma_digit(h, a0, 4, a1, 4, a2 + 4 * a3 + 16 * b);
    crate::bits::lemma_digit(h, a0 + 4 * a1, 16, a2, 4, a3 + 4 * b);
    crate::bits::lemma_digit(h, a0 + 4 * a1 + 16 * a2, 64, a3, 4, b as int);
    crate::bits::lemma_digit(h, a as int, 256, b0, 4, b1 + 4 * b2 + 16 * b3);
    crate::bits::lemma_digit(h, a + 256 * b0, 1024, b1, 4, b2 + 4 * b3);
    crate::bits::lemma_digit(h, a + 256 * b0 + 1024 * b1, 4096, b2, 4, b3);
    crate::bits::lemma_digit(h, a + 256 * b0 + 1024 * b1 + 4096 * b2, 16384, b3, 4, 0);
}

/// The scale that is read for a sub-block is that of the format.
pub proof fn law_iq4xs_scale_is_read(f: &Iq4Xs, blk: Seq<u8>, h: u16, l: &[u8], ib: usize, r: i32)
    requires
        call_ensures(iq4xs_ls_minus_32, (h, l, ib), r),
        blk.len() == 136,
        h as int % 256 == blk[2],
        h as int / 256 == blk[3],
        l@ == blk.subrange(4, 8),
        ib < 8,
    ensures
        r == f.scale(blk, ib as int),
{
}

} // verus!
