//! Grid weight formats: each group of eight weights is an entry of a lookup grid, packed as eight
//! signed bytes, with a sign byte that flips single weights. Every group is a unit of its own. The
//! grids and the sign table are handed in by the caller.
use vstd::prelude::*;
use crate::bits::{bit, bit_of, field2, field2_of, le16, le16_of, le32, le32_of, nibble, nibble_of, rdf16, signed};
use crate::format::{Shape, WeightFormat};

verus! {

/// `256^k` for the bytes of a 64-bit word.
pub open spec fn byte_weight(k: int) -> int {
    if k == 0 {
        1
    } else if k == 1 {
        0x100
    } else if k == 2 {
        0x1_0000
    } else if k == 3 {
        0x100_0000
    } else if k == 4 {
        0x1_0000_0000
    } else if k == 5 {
        0x100_0000_0000
    } else if k == 6 {
        0x1_0000_0000_0000
    } else {
        0x100_0000_0000_0000
    }
}

/// Byte `k` of a grid entry, as a signed number.
pub open spec fn grid_value(g: u64, k: int) -> int {
    let byte = (g as int / byte_weight(k)) % 256;
    if byte < 128 {
        byte
    } else {
        byte - 256
    }
}

/// Byte `k` of a grid entry.
fn grid_byte(g: u64, k: usize) -> (r: i8)
    requires
        k < 8,
    ensures
        r == grid_value(g, k as int),
{
    let shift: u64 = 8 * (k as u64);
    assert((g >> 0u64) & 0xff == g % 256 && (g >> 8u64) & 0xff == (g / 0x100) % 256 && (g >> 16u64) & 0xff == (g
        / 0x1_0000) % 256 && (g >> 24u64) & 0xff == (g / 0x100_0000) % 256 && (g >> 32u64) & 0xff == (g
        / 0x1_0000_0000) % 256 && (g >> 40u64) & 0xff == (g / 0x100_0000_0000) % 256 && (g >> 48u64) & 0xff == (g
        / 0x1_0000_0000_0000) % 256 && (g >> 56u64) & 0xff == (g / 0x100_0000_0000_0000) % 256) by (bit_vector);
    let byte: u8 = ((g >> shift) & 0xff) as u8;
    signed(byte)
}

/// A weight, negated where bit `k` of the sign byte is set. The negation wraps at -128.
pub open spec fn flip_of(w: int, signs: u8, k: int) -> int {
    if bit_of(signs, k) == 0 || w == -128 {
        w
    } else {
        -w
    }
}

/// A weight, negated where bit `k` of the sign byte is set.
fn flip(w: i8, signs: u8, k: usize) -> (r: i8)
    requires
        k < 8,
    ensures
        r == flip_of(w as int, signs, k as int),
{
    if bit(signs, k) == 0 || w == -128 {
        w
    } else {
        -w
    }
}

/// `128^l` for the four sign indices of a scale word.
pub open spec fn seven_bits(l: int) -> int {
    if l == 0 {
        1
    } else if l == 1 {
        128
    } else if l == 2 {
        16384
    } else {
        2097152
    }
}

/// The 7-bit sign index `l` of a scale word.
pub open spec fn sign_index(word: int, l: int) -> int {
    (word / seven_bits(l)) % 128
}

/// The 7-bit sign index `l` of a scale word.
fn sign_index_at(word: u32, l: usize) -> (r: usize)
    requires
        l < 4,
    ensures
        r == sign_index(word as int, l as int),
        r < 128,
{
    let div: u32 = if l == 0 {
        1
    } else if l == 1 {
        128
    } else if l == 2 {
        16384
    } else {
        2097152
    };
    ((word / div) % 128) as usize
}

/// `8^l` for the 3-bit fields of a 16-bit word.
pub open spec fn eight_pow(l: int) -> int {
    if l == 0 {
        1
    } else if l == 1 {
        8
    } else if l == 2 {
        64
    } else {
        512
    }
}

/// The 3-bit field `l` of a 16-bit word.
fn field3(word: u16, l: usize) -> (r: u16)
    requires
        l < 4,
    ensures
        r == (word as int / eight_pow(l as int)) % 8,
        r < 8,
{
    let div: u16 = if l == 0 {
        1
    } else if l == 1 {
        8
    } else if l == 2 {
        64
    } else {
        512
    };
    (word / div) % 8
}

/// The grid index of group `g` of an IQ2_S block: ten bits.
pub open spec fn iq2s_index(blk: Seq<u8>, g: int) -> int {
    blk[2 + g] + 256 * field2_of(blk[66 + g / 4], g % 4)
}

/// IQ2_S: 82 bytes for 256 weights; `d*(0.5 + s)/4` times the grid weight with a 4-bit scale `s`
/// for each two groups.
pub struct Iq2S<'a> {
    pub grid: &'a [u64],
}

impl<'a> WeightFormat for Iq2S<'a> {
    open spec fn shape(&self) -> Shape {
        Shape { bytes: 82, elems: 256, sub: 8, unit: 8, offset: 0 }
    }

    open spec fn valid(&self) -> bool {
        self.grid@.len() == 1024
    }

    open spec fn code(&self, blk: Seq<u8>, e: int) -> int {
        flip_of(grid_value(self.grid@[iq2s_index(blk, e / 8)], e % 8), blk[34 + e / 8], e % 8)
    }

    open spec fn scale(&self, blk: Seq<u8>, s: int) -> int {
        1
    }

    open spec fn min(&self, blk: Seq<u8>, s: int) -> int {
        0
    }

    open spec fn d(&self, blk: Seq<u8>, u: int) -> int {
        le16_of(blk, 0)
    }

    open spec fn aux(&self, blk: Seq<u8>, u: int) -> int {
        nibble_of(blk[74 + u / 4], 2 <= u % 4)
    }

    proof fn lemma_shape(&self) {
    }

    fn shape_of(&self) -> (r: Shape) {
        Shape { bytes: 82, elems: 256, sub: 8, unit: 8, offset: 0 }
    }

    fn code_at(&self, blk: &[u8], e: usize) -> (r: i8) {
        let g: usize = e / 8;
        let idx: usize = blk[2 + g] as usize + 256 * (field2(blk[66 + g / 4], g % 4) as usize);
        flip(grid_byte(self.grid[idx], e % 8), blk[34 + g], e % 8)
    }

    fn scale_at(&self, blk: &[u8], s: usize) -> (r: i32) {
        1
    }

    fn min_at(&self, blk: &[u8], s: usize) -> (r: i32) {
        0
    }

    fn d_at(&self, blk: &[u8], u: usize) -> (r: u16) {
        rdf16(blk, 0)
    }

    fn aux_at(&self, blk: &[u8], u: usize) -> (r: u16) {
        nibble(blk[74 + u / 4], 2 <= u % 4) as u16
    }
}

/// IQ2_XXS: 66 bytes for 256 weights; `d*(0.5 + s)/4` times the grid weight. Every four groups
/// have four grid index bytes and a word with four 7-bit sign indices and the 4-bit scale `s`.
pub struct Iq2Xxs<'a> {
    pub grid: &'a [u64],
    pub signs: &'a [u8],
}

impl<'a> WeightFormat for Iq2Xxs<'a> {
    open spec fn shape(&self) -> Shape {
        Shape { bytes: 66, elems: 256, sub: 8, unit: 8, offset: 0 }
    }

    open spec fn valid(&self) -> bool {
        self.grid@.len() == 256 && self.signs@.len() == 128
    }

    open spec fn code(&self, blk: Seq<u8>, e: int) -> int {
        flip_of(
            grid_value(self.grid@[blk[2 + 8 * (e / 32) + (e / 8) % 4] as int], e % 8),
            self.signs@[sign_index(le32_of(blk, 6 + 8 * (e / 32)), (e / 8) % 4)],
            e % 8,
        )
    }

    open spec fn scale(&self, blk: Seq<u8>, s: int) -> int {
        1
    }

    open spec fn min(&self, blk: Seq<u8>, s: int) -> int {
        0
    }

    open spec fn d(&self, blk: Seq<u8>, u: int) -> int {
        le16_of(blk, 0)
    }

    open spec fn aux(&self, blk: Seq<u8>, u: int) -> int {
        le32_of(blk, 6 + 8 * (u / 4)) / 0x1000_0000
    }

    proof fn lemma_shape(&self) {
    }

    fn shape_of(&self) -> (r: Shape) {
        Shape { bytes: 66, elems: 256, sub: 8, unit: 8, offset: 0 }
    }

    fn code_at(&self, blk: &[u8], e: usize) -> (r: i8) {
        let word: u32 = le32(blk, 6 + 8 * (e / 32));
        let l: usize = (e / 8) % 4;
        let entry: u64 = self.grid[blk[2 + 8 * (e / 32) + l] as usize];
        flip(grid_byte(entry, e % 8), self.signs[sign_index_at(word, l)], e % 8)
    }

    fn scale_at(&self, blk: &[u8], s: usize) -> (r: i32) {
        1
    }

    fn min_at(&self, blk: &[u8], s: usize) -> (r: i32) {
        0
    }

    fn d_at(&self, blk: &[u8], u: usize) -> (r: u16) {
        rdf16(blk, 0)
    }

    fn aux_at(&self, blk: &[u8], u: usize) -> (r: u16) {
        (le32(blk, 6 + 8 * (u / 4)) / 0x1000_0000) as u16
    }
}

/// IQ2_XS: 74 bytes for 256 weights; `d*(0.5 + s)/4` times the grid weight. Every group has a
/// 16-bit word: nine bits of grid index below a 7-bit sign index.
pub struct Iq2Xs<'a> {
    pub grid: &'a [u64],
    pub signs: &'a [u8],
}

impl<'a> WeightFormat for Iq2Xs<'a> {
    open spec fn shape(&self) -> Shape {
        Shape { bytes: 74, elems: 256, sub: 8, unit: 8, offset: 0 }
    }

    open spec fn valid(&self) -> bool {
        self.grid@.len() == 512 && self.signs@.len() == 128
    }

    open spec fn code(&self, blk: Seq<u8>, e: int) -> int {
        flip_of(
            grid_value(self.grid@[le16_of(blk, 2 + 2 * (e / 8)) % 512], e % 8),
            self.signs@[le16_of(blk, 2 + 2 * (e / 8)) / 512],
            e % 8,
        )
    }

    open spec fn scale(&self, blk: Seq<u8>, s: int) -> int {
        1
    }

    open spec fn min(&self, blk: Seq<u8>, s: int) -> int {
        0
    }

    open spec fn d(&self, blk: Seq<u8>, u: int) -> int {
        le16_of(blk, 0)
    }

    open spec fn aux(&self, blk: Seq<u8>, u: int) -> int {
        nibble_of(blk[66 + u / 4], 2 <= u % 4)
    }

    proof fn lemma_shape(&self) {
    }

    fn shape_of(&self) -> (r: Shape) {
        Shape { bytes: 74, elems: 256, sub: 8, unit: 8, offset: 0 }
    }

    fn code_at(&self, blk: &[u8], e: usize) -> (r: i8) {
        let word: u16 = le16(blk, 2 + 2 * (e / 8));
        let entry: u64 = self.grid[(word % 512) as usize];
        flip(grid_byte(entry, e % 8), self.signs[(word / 512) as usize], e % 8)
    }

    fn scale_at(&self, blk: &[u8], s: usize) -> (r: i32) {
        1
    }

    fn min_at(&self, blk: &[u8], s: usize) -> (r: i32) {
        0
    }

    fn d_at(&self, blk: &[u8], u: usize) -> (r: u16) {
        rdf16(blk, 0)
    }

    fn aux_at(&self, blk: &[u8], u: usize) -> (r: u16) {
        nibble(blk[66 + u / 4], 2 <= u % 4) as u16
    }
}

/// The grid index of half `h` of group `g` of an IQ3_S block: nine bits.
pub open spec fn iq3s_index(blk: Seq<u8>, g: int, h: int) -> int {
    blk[2 + 2 * g + h] + 256 * bit_of(blk[66 + g / 4], 2 * (g % 4) + h)
}

/// IQ3_S: 110 bytes for 256 weights; `d*(1 + 2*s)` times the grid weight. A group takes four
/// weights from each of two grid entries.
pub struct Iq3S<'a> {
    pub grid: &'a [u32],
}

impl<'a> WeightFormat for Iq3S<'a> {
    open spec fn shape(&self) -> Shape {
        Shape { bytes: 110, elems: 256, sub: 8, unit: 8, offset: 0 }
    }

    open spec fn valid(&self) -> bool {
        self.grid@.len() == 512
    }

    open spec fn code(&self, blk: Seq<u8>, e: int) -> int {
        flip_of(
            grid_value(self.grid@[iq3s_index(blk, e / 8, (e % 8) / 4)] as u64, e % 4),
            blk[74 + e / 8],
            e % 8,
        )
    }

    open spec fn scale(&self, blk: Seq<u8>, s: int) -> int {
        1
    }

    open spec fn min(&self, blk: Seq<u8>, s: int) -> int {
        0
    }

    open spec fn d(&self, blk: Seq<u8>, u: int) -> int {
        le16_of(blk, 0)
    }

    open spec fn aux(&self, blk: Seq<u8>, u: int) -> int {
        nibble_of(blk[106 + u / 8], (u / 4) % 2 == 1)
    }

    proof fn lemma_shape(&self) {
    }

    fn shape_of(&self) -> (r: Shape) {
        Shape { bytes: 110, elems: 256, sub: 8, unit: 8, offset: 0 }
    }

    fn code_at(&self, blk: &[u8], e: usize) -> (r: i8) {
        let g: usize = e / 8;
        let h: usize = (e % 8) / 4;
        let idx: usize = blk[2 + 2 * g + h] as usize + 256 * (bit(blk[66 + g / 4], 2 * (g % 4) + h) as usize);
        flip(grid_byte(self.grid[idx] as u64, e % 4), blk[74 + g], e % 8)
    }

    fn scale_at(&self, blk: &[u8], s: usize) -> (r: i32) {
        1
    }

    fn min_at(&self, blk: &[u8], s: usize) -> (r: i32) {
        0
    }

    fn d_at(&self, blk: &[u8], u: usize) -> (r: u16) {
        rdf16(blk, 0)
    }

    fn aux_at(&self, blk: &[u8], u: usize) -> (r: u16) {
        nibble(blk[106 + u / 8], (u / 4) % 2 == 1) as u16
    }
}

/// IQ3_XXS: 98 bytes for 256 weights; `d*(0.5 + s)/2` times the grid weight. A group takes four
/// weights from each of two grid entries; signs and scale as in IQ2_XXS.
pub struct Iq3Xxs<'a> {
    pub grid: &'a [u32],
    pub signs: &'a [u8],
}

impl<'a> WeightFormat for Iq3Xxs<'a> {
    open spec fn shape(&self) -> Shape {
        Shape { bytes: 98, elems: 256, sub: 8, unit: 8, offset: 0 }
    }

    open spec fn valid(&self) -> bool {
        self.grid@.len() == 256 && self.signs@.len() == 128
    }

    open spec fn code(&self, blk: Seq<u8>, e: int) -> int {
        flip_of(
            grid_value(self.grid@[blk[2 + 2 * (e / 8) + (e % 8) / 4] as int] as u64, e % 4),
            self.signs@[sign_index(le32_of(blk, 66 + 4 * (e / 32)), (e / 8) % 4)],
            e % 8,
        )
    }

    open spec fn scale(&self, blk: Seq<u8>, s: int) -> int {
        1
    }

    open spec fn min(&self, blk: Seq<u8>, s: int) -> int {
        0
    }

    open spec fn d(&self, blk: Seq<u8>, u: int) -> int {
        le16_of(blk, 0)
    }

    open spec fn aux(&self, blk: Seq<u8>, u: int) -> int {
        le32_of(blk, 66 + 4 * (u / 4)) / 0x1000_0000
    }

    proof fn lemma_shape(&self) {
    }

    fn shape_of(&self) -> (r: Shape) {
        Shape { bytes: 98, elems: 256, sub: 8, unit: 8, offset: 0 }
    }

    fn code_at(&self, blk: &[u8], e: usize) -> (r: i8) {
        let word: u32 = le32(blk, 66 + 4 * (e / 32));
        let entry: u64 = self.grid[blk[2 + 2 * (e / 8) + (e % 8) / 4] as usize] as u64;
        flip(grid_byte(entry, e % 4), self.signs[sign_index_at(word, (e / 8) % 4)], e % 8)
    }

    fn scale_at(&self, blk: &[u8], s: usize) -> (r: i32) {
        1
    }

    fn min_at(&self, blk: &[u8], s: usize) -> (r: i32) {
        0
    }

    fn d_at(&self, blk: &[u8], u: usize) -> (r: u16) {
        rdf16(blk, 0)
    }

    fn aux_at(&self, blk: &[u8], u: usize) -> (r: u16) {
        (le32(blk, 66 + 4 * (u / 4)) / 0x1000_0000) as u16
    }
}

/// The grid index of group `g` of an IQ1_S block: eleven bits.
pub open spec fn iq1s_index(blk: Seq<u8>, g: int) -> int {
    blk[2 + g] + 256 * ((le16_of(blk, 34 + 2 * (g / 4)) / eight_pow(g % 4)) % 8)
}

/// IQ1_S: 50 bytes for 256 weights; `d*(2*s + 1)` times the grid weight plus or minus an eighth.
/// The sum of the activation codes carries the eighth. The second number of a unit is the 3-bit
/// scale `s`, with 8 added where the eighth is taken off.
pub struct Iq1S<'a> {
    pub grid: &'a [u64],
}

impl<'a> WeightFormat for Iq1S<'a> {
    open spec fn shape(&self) -> Shape {
        Shape { bytes: 50, elems: 256, sub: 8, unit: 8, offset: 0 }
    }

    open spec fn valid(&self) -> bool {
        self.grid@.len() == 2048
    }

    open spec fn code(&self, blk: Seq<u8>, e: int) -> int {
        grid_value(self.grid@[iq1s_index(blk, e / 8)], e % 8)
    }

    open spec fn scale(&self, blk: Seq<u8>, s: int) -> int {
        1
    }

    open spec fn min(&self, blk: Seq<u8>, s: int) -> int {
        1
    }

    open spec fn d(&self, blk: Seq<u8>, u: int) -> int {
        le16_of(blk, 0)
    }

    open spec fn aux(&self, blk: Seq<u8>, u: int) -> int {
        le16_of(blk, 34 + 2 * (u / 4)) / 4096
    }

    proof fn lemma_shape(&self) {
    }

    fn shape_of(&self) -> (r: Shape) {
        Shape { bytes: 50, elems: 256, sub: 8, unit: 8, offset: 0 }
    }

    fn code_at(&self, blk: &[u8], e: usize) -> (r: i8) {
        let g: usize = e / 8;
        let word: u16 = le16(blk, 34 + 2 * (g / 4));
        let idx: usize = blk[2 + g] as usize + 256 * (field3(word, g % 4) as usize);
        grid_byte(self.grid[idx], e % 8)
    }

    fn scale_at(&self, blk: &[u8], s: usize) -> (r: i32) {
        1
    }

    fn min_at(&self, blk: &[u8], s: usize) -> (r: i32) {
        1
    }

    fn d_at(&self, blk: &[u8], u: usize) -> (r: u16) {
        rdf16(blk, 0)
    }

    fn aux_at(&self, blk: &[u8], u: usize) -> (r: u16) {
        le16(blk, 34 + 2 * (u / 4)) / 4096
    }
}

/// The grid index of group `g` of an IQ1_M block: eleven bits.
pub open spec fn iq1m_index(blk: Seq<u8>, g: int) -> int {
    blk[g] + 256 * (nibble_of(blk[32 + g / 2], g % 2 == 1) % 8)
}

/// The 3-bit scale of group `g` of an IQ1_M block, with 8 added where the eighth is taken off.
pub open spec fn iq1m_scale(blk: Seq<u8>, g: int) -> int {
    (le16_of(blk, 48 + 2 * (g / 8)) / eight_pow((g % 8) / 2)) % 8 + 8 * (nibble_of(blk[32 + g / 2], g % 2 == 1) / 8)
}

/// The bit pattern of the scale of an IQ1_M block: the top nibbles of its four scale words.
pub open spec fn iq1m_d(blk: Seq<u8>) -> int {
    nibble_of(blk[49], true) + 16 * nibble_of(blk[51], true) + 256 * nibble_of(blk[53], true) + 4096 * nibble_of(
        blk[55],
        true,
    )
}

/// IQ1_M: 56 bytes for 256 weights; IQ1_S with a scale for each two groups, a sign of the eighth
/// for each group, and the block scale spread over the scale words.
pub struct Iq1M<'a> {
    pub grid: &'a [u64],
}

impl<'a> WeightFormat for Iq1M<'a> {
    open spec fn shape(&self) -> Shape {
        Shape { bytes: 56, elems: 256, sub: 8, unit: 8, offset: 0 }
    }

    open spec fn valid(&self) -> bool {
        self.grid@.len() == 2048
    }

    open spec fn code(&self, blk: Seq<u8>, e: int) -> int {
        grid_value(self.grid@[iq1m_index(blk, e / 8)], e % 8)
    }

    open spec fn scale(&self, blk: Seq<u8>, s: int) -> int {
        1
    }

    open spec fn min(&self, blk: Seq<u8>, s: int) -> int {
        1
    }

    open spec fn d(&self, blk: Seq<u8>, u: int) -> int {
        iq1m_d(blk)
    }

    open spec fn aux(&self, blk: Seq<u8>, u: int) -> int {
        iq1m_scale(blk, u)
    }

    proof fn lemma_shape(&self) {
    }

    fn shape_of(&self) -> (r: Shape) {
        Shape { bytes: 56, elems: 256, sub: 8, unit: 8, offset: 0 }
    }

    fn code_at(&self, blk: &[u8], e: usize) -> (r: i8) {
        let g: usize = e / 8;
        let idx: usize = blk[g] as usize + 256 * ((nibble(blk[32 + g / 2], g % 2 == 1) % 8) as usize);
        grid_byte(self.grid[idx], e % 8)
    }

    fn scale_at(&self, blk: &[u8], s: usize) -> (r: i32) {
        1
    }

    fn min_at(&self, blk: &[u8], s: usize) -> (r: i32) {
        1
    }

    fn d_at(&self, blk: &[u8], u: usize) -> (r: u16) {
        nibble(blk[49], true) as u16 + 16 * (nibble(blk[51], true) as u16) + 256 * (nibble(blk[53], true) as u16) + 4096 * (
        nibble(blk[55], true) as u16)
    }

    fn aux_at(&self, blk: &[u8], u: usize) -> (r: u16) {
        let word: u16 = le16(blk, 48 + 2 * (u / 8));
        let delta: u8 = nibble(blk[32 + u / 2], u % 2 == 1) / 8;
        field3(word, (u % 8) / 2) + 8 * (delta as u16)
    }
}

/// `sb` are the bits of a byte, the lowest first.
pub open spec fn is_bits(x: u8, sb: Seq<int>) -> bool {
    &&& sb.len() == 8
    &&& forall|k: int| 0 <= k < 8 ==> 0 <= #[trigger] sb[k] < 2
    &&& x == sb[0] + 2 * sb[1] + 4 * sb[2] + 8 * sb[3] + 16 * sb[4] + 32 * sb[5] + 64 * sb[6] + 128 * sb[7]
}

/// `b` are the bytes of a grid entry, the lowest first.
pub open spec fn is_entry(g: int, b: Seq<u8>) -> bool {
    ||| b.len() == 8 && g == b[0] + 0x100 * b[1] + 0x10000 * b[2] + 0x1000000 * b[3] + 0x100000000 * b[4]
        + 0x10000000000 * b[5] + 0x1000000000000 * b[6] + 0x100000000000000 * b[7]
    ||| b.len() == 4 && g == b[0] + 0x100 * b[1] + 0x10000 * b[2] + 0x1000000 * b[3]
}

/// A weight is a byte of a grid entry as a signed number, negated where its sign bit is set.
pub open spec fn is_signed_byte(w: int, byte: u8, negative: int) -> bool {
    &&& -128 <= w < 128
    &&& negative == 0 ==> (w - byte) % 256 == 0
    &&& negative == 1 ==> (w + byte) % 256 == 0
}

/// Byte `k` of a grid entry that is put together from bytes.
proof fn lemma_grid_byte(g: u64, b: Seq<u8>, k: int)
    requires
        b.len() == 8,
        g == b[0] + 0x100 * b[1] + 0x10000 * b[2] + 0x1000000 * b[3] + 0x100000000 * b[4] + 0x10000000000 * b[5]
            + 0x1000000000000 * b[6] + 0x100000000000000 * b[7],
        0 <= k < 8,
    ensures
        (grid_value(g, k) - b[k]) % 256 == 0,
        -128 <= grid_value(g, k) < 128,
{
    if k == 0 {
        crate::bits::lemma_digit(g as int, 0, 1, b[0] as int, 256, b[1] as int + 256 * b[2] as int
            + 65536 * b[3] as int + 16777216 * b[4] as int + 4294967296 * b[5] as int + 1099511627776 * b[6] as int
            + 281474976710656 * b[7] as int);
    } else if k == 1 {
        crate::bits::lemma_digit(g as int, b[0] as int, 256, b[1] as int, 256, b[2] as int + 256 * b[3] as int
            + 65536 * b[4] as int + 16777216 * b[5] as int + 4294967296 * b[6] as int + 1099511627776 * b[7] as int);
    } else if k == 2 {
        crate::bits::lemma_digit(g as int, b[0] as int + 256 * b[1] as int, 65536, b[2] as int, 256, b[3] as int
            + 256 * b[4] as int + 65536 * b[5] as int + 16777216 * b[6] as int + 4294967296 * b[7] as int);
    } else if k == 3 {
        crate::bits::lemma_digit(g as int, b[0] as int + 256 * b[1] as int + 65536 * b[2] as int, 16777216,
            b[3] as int, 256, b[4] as int + 256 * b[5] as int + 65536 * b[6] as int + 16777216 * b[7] as int);
    } else if k == 4 {
        crate::bits::lemma_digit(g as int, b[0] as int + 256 * b[1] as int + 65536 * b[2] as int
            + 16777216 * b[3] as int, 4294967296, b[4] as int, 256, b[5] as int + 256 * b[6] as int
            + 65536 * b[7] as int);
    } else if k == 5 {
        crate::bits::lemma_digit(g as int, b[0] as int + 256 * b[1] as int + 65536 * b[2] as int
            + 16777216 * b[3] as int + 4294967296 * b[4] as int, 1099511627776, b[5] as int, 256, b[6] as int
            + 256 * b[7] as int);
    } else if k == 6 {
        crate::bits::lemma_digit(g as int, b[0] as int + 256 * b[1] as int + 65536 * b[2] as int
            + 16777216 * b[3] as int + 4294967296 * b[4] as int + 1099511627776 * b[5] as int, 281474976710656,
            b[6] as int, 256, b[7] as int);
    } else {
        crate::bits::lemma_digit(g as int, b[0] as int + 256 * b[1] as int + 65536 * b[2] as int
            + 16777216 * b[3] as int + 4294967296 * b[4] as int + 1099511627776 * b[5] as int
            + 281474976710656 * b[6] as int, 72057594037927936, b[7] as int, 256, 0);
    }
}

/// Bit `k` of a sign byte that is put together from bits.
proof fn lemma_sign_bit(x: u8, sb: Seq<int>, k: int)
    requires
        is_bits(x, sb),
        0 <= k < 8,
    ensures
        bit_of(x, k) == sb[k],
{
    assert(0 <= sb[0] < 2 && 0 <= sb[1] < 2 && 0 <= sb[2] < 2 && 0 <= sb[3] < 2);
    assert(0 <= sb[4] < 2 && 0 <= sb[5] < 2 && 0 <= sb[6] < 2 && 0 <= sb[7] < 2);
    if k == 0 {
        crate::bits::lemma_digit(x as int, 0, 1, sb[0], 2, sb[1] + 2 * sb[2] + 4 * sb[3] + 8 * sb[4] + 16 * sb[5]
            + 32 * sb[6] + 64 * sb[7]);
    } else if k == 1 {
        crate::bits::lemma_digit(x as int, sb[0], 2, sb[1], 2, sb[2] + 2 * sb[3] + 4 * sb[4] + 8 * sb[5] + 16 * sb[6]
            + 32 * sb[7]);
    } else if k == 2 {
        crate::bits::lemma_digit(x as int, sb[0] + 2 * sb[1], 4, sb[2], 2, sb[3] + 2 * sb[4] + 4 * sb[5] + 8 * sb[6]
            + 16 * sb[7]);
    } else if k == 3 {
        crate::bits::lemma_digit(x as int, sb[0] + 2 * sb[1] + 4 * sb[2], 8, sb[3], 2, sb[4] + 2 * sb[5] + 4 * sb[6]
            + 8 * sb[7]);
    } else if k == 4 {
        crate::bits::lemma_digit(x as int, sb[0] + 2 * sb[1] + 4 * sb[2] + 8 * sb[3], 16, sb[4], 2, sb[5] + 2 * sb[6]
            + 4 * sb[7]);
    } else if k == 5 {
        crate::bits::lemma_digit(x as int, sb[0] + 2 * sb[1] + 4 * sb[2] + 8 * sb[3] + 16 * sb[4], 32, sb[5], 2,
            sb[6] + 2 * sb[7]);
    } else if k == 6 {
        crate::bits::lemma_digit(x as int, sb[0] + 2 * sb[1] + 4 * sb[2] + 8 * sb[3] + 16 * sb[4] + 32 * sb[5], 64,
            sb[6], 2, sb[7]);
    } else {
        crate::bits::lemma_digit(x as int, sb[0] + 2 * sb[1] + 4 * sb[2] + 8 * sb[3] + 16 * sb[4] + 32 * sb[5]
            + 64 * sb[6], 128, sb[7], 2, 0);
    }
}

/// The four 7-bit places of a word and what stands above them.
proof fn lemma_sign_word(w: int, tl: Seq<int>, sc: int, k: int)
    requires
        tl.len() == 4,
        forall|n: int| 0 <= n < 4 ==> 0 <= #[trigger] tl[n] < 128,
        0 <= sc,
        w == tl[0] + 128 * tl[1] + 16384 * tl[2] + 2097152 * tl[3] + 0x1000_0000 * sc,
        0 <= k < 4,
    ensures
        sign_index(w, k) == tl[k],
        w / 0x1000_0000 == sc,
{
    assert(0 <= tl[0] < 128 && 0 <= tl[1] < 128 && 0 <= tl[2] < 128 && 0 <= tl[3] < 128);
    crate::bits::lemma_digit(w, tl[0] + 128 * tl[1] + 16384 * tl[2], 2097152, tl[3], 128, sc);
    vstd::arithmetic::div_mod::lemma_fundamental_div_mod_converse(w, 0x1000_0000, sc, w - 0x1000_0000 * sc);
    if k == 0 {
        crate::bits::lemma_digit(w, 0, 1, tl[0], 128, tl[1] + 128 * tl[2] + 16384 * tl[3] + 2097152 * sc);
    } else if k == 1 {
        crate::bits::lemma_digit(w, tl[0], 128, tl[1], 128, tl[2] + 128 * tl[3] + 16384 * sc);
    } else if k == 2 {
        crate::bits::lemma_digit(w, tl[0] + 128 * tl[1], 16384, tl[2], 128, tl[3] + 128 * sc);
    } else {
        crate::bits::lemma_digit(w, tl[0] + 128 * tl[1] + 16384 * tl[2], 2097152, tl[3], 128, sc);
    }
}

/// The four 3-bit fields of a word and what stands above them.
proof fn lemma_three_bits(w: int, hl: Seq<int>, top: int, k: int)
    requires
        hl.len() == 4,
        forall|n: int| 0 <= n < 4 ==> 0 <= #[trigger] hl[n] < 8,
        0 <= top,
        w == hl[0] + 8 * hl[1] + 64 * hl[2] + 512 * hl[3] + 4096 * top,
        0 <= k < 4,
    ensures
        (w / eight_pow(k)) % 8 == hl[k],
        w / 4096 == top,
{
    assert(0 <= hl[0] < 8 && 0 <= hl[1] < 8 && 0 <= hl[2] < 8 && 0 <= hl[3] < 8);
    vstd::arithmetic::div_mod::lemma_fundamental_div_mod_converse(w, 4096, top, w - 4096 * top);
    if k == 0 {
        crate::bits::lemma_digit(w, 0, 1, hl[0], 8, hl[1] + 8 * hl[2] + 64 * hl[3] + 512 * top);
    } else if k == 1 {
        crate::bits::lemma_digit(w, hl[0], 8, hl[1], 8, hl[2] + 8 * hl[3] + 64 * top);
    } else if k == 2 {
        crate::bits::lemma_digit(w, hl[0] + 8 * hl[1], 64, hl[2], 8, hl[3] + 8 * top);
    } else {
        crate::bits::lemma_digit(w, hl[0] + 8 * hl[1] + 64 * hl[2], 512, hl[3], 8, top);
    }
}

/// Byte `k` of an entry under its sign.
proof fn lemma_entry(g: u64, b: Seq<u8>, k: int, x: u8, sb: Seq<int>, j: int)
    requires
        is_entry(g as int, b),
        is_bits(x, sb),
        0 <= k < b.len(),
        0 <= j < 8,
    ensures
        is_signed_byte(flip_of(grid_value(g, k), x, j), b[k], sb[j]),
        is_signed_byte(grid_value(g, k), b[k], 0),
{
    lemma_sign_bit(x, sb, j);
    assert(0 <= sb[j] < 2);
    if b.len() == 8 {
        lemma_grid_byte(g, b, k);
    } else {
        let c = b + seq![0u8, 0u8, 0u8, 0u8];
        assert(c[0] == b[0] && c[1] == b[1] && c[2] == b[2] && c[3] == b[3]);
        lemma_grid_byte(g, c, k);
        assert(c[k] == b[k]);
    }
}

/// Where element `k` of half `h` of group `g` stands.
proof fn lemma_half_place(g: int, q: int, l: int, h: int, k: int)
    requires
        g == 4 * q + l,
        0 <= q < 8,
        0 <= l < 4,
        0 <= h < 2,
        0 <= k < 4,
    ensures
        (8 * g + 4 * h + k) / 8 == g,
        (8 * g + 4 * h + k) % 8 == 4 * h + k,
        (4 * h + k) / 4 == h,
        (8 * g + 4 * h + k) % 4 == k,
        (8 * g + 4 * h + k) / 32 == q,
        g / 4 == q,
        g % 4 == l,
{
}

/// A group of an IQ2_S block is the grid entry whose number is the group's byte and, above it, its 2-bit
/// field of the byte that four groups share; the signs are the group's own byte.
pub proof fn law_iq2s_block(
    f: &Iq2S,
    blk: Seq<u8>,
    g: int,
    q: int,
    l: int,
    fl: Seq<int>,
    b: Seq<u8>,
    sb: Seq<int>,
    k: int,
    s: int,
    u: int,
)
    requires
        blk.len() == 82,
        f.valid(),
        g == 4 * q + l,
        0 <= q < 8,
        0 <= l < 4,
        fl.len() == 4,
        forall|n: int| 0 <= n < 4 ==> 0 <= #[trigger] fl[n] < 4,
        blk[66 + q] == fl[0] + 4 * fl[1] + 16 * fl[2] + 64 * fl[3],
        b.len() == 8,
        is_entry(f.grid@[blk[2 + g] + 256 * fl[l]] as int, b),
        is_bits(blk[34 + g], sb),
        0 <= k < 8,
    ensures
        f.shape().bytes == 82,
        f.shape().elems == 256,
        f.shape().sub == 8,
        f.shape().unit == 8,
        f.shape().offset == 0,
        is_signed_byte(f.code(blk, 8 * g + k), b[k], sb[k]),
        f.scale(blk, s) == 1,
        f.min(blk, s) == 0,
        f.d(blk, u) % 256 == blk[0],
        f.d(blk, u) / 256 == blk[1],
{
    let e = 8 * g + k;
    assert(e / 8 == g && e % 8 == k && g / 4 == q && g % 4 == l);
    crate::bits::lemma_fields2_of(blk[66 + q]);
    assert(field2_of(blk[66 + q], l) == fl[l]) by {
        let x = blk[66 + q] as int;
        assert(0 <= fl[0] < 4 && 0 <= fl[1] < 4 && 0 <= fl[2] < 4 && 0 <= fl[3] < 4);
        assert(x % 4 == fl[0] && (x / 4) % 4 == fl[1] && (x / 16) % 4 == fl[2] && (x / 64) % 4 == fl[3]);
    }
    lemma_entry(f.grid@[blk[2 + g] + 256 * fl[l]], b, k, blk[34 + g], sb, k);
}

/// Two groups share a scale: a scale byte is the scale of its first two groups and that of its other
/// two.
pub proof fn law_iq2s_scales(f: &Iq2S, blk: Seq<u8>, q: int)
    requires
        blk.len() == 82,
        0 <= q < 8,
    ensures
        0 <= f.aux(blk, 4 * q) < 16,
        0 <= f.aux(blk, 4 * q + 2) < 16,
        blk[74 + q] == f.aux(blk, 4 * q) + 16 * f.aux(blk, 4 * q + 2),
        f.aux(blk, 4 * q + 1) == f.aux(blk, 4 * q),
        f.aux(blk, 4 * q + 3) == f.aux(blk, 4 * q + 2),
{
    assert((4 * q) / 4 == q && (4 * q) % 4 == 0);
    assert((4 * q + 1) / 4 == q && (4 * q + 1) % 4 == 1);
    assert((4 * q + 2) / 4 == q && (4 * q + 2) % 4 == 2);
    assert((4 * q + 3) / 4 == q && (4 * q + 3) % 4 == 3);
}

/// A run of 32 of an IQ2_XXS block is four grid entries, by their bytes, and a word of four 7-bit places
/// in the sign table below the scale of the run.
pub proof fn law_iq2xxs_block(
    f: &Iq2Xxs,
    blk: Seq<u8>,
    g: int,
    q: int,
    l: int,
    tl: Seq<int>,
    sc: int,
    b: Seq<u8>,
    sb: Seq<int>,
    k: int,
    s: int,
    u: int,
)
    requires
        blk.len() == 66,
        f.valid(),
        g == 4 * q + l,
        0 <= q < 8,
        0 <= l < 4,
        tl.len() == 4,
        forall|n: int| 0 <= n < 4 ==> 0 <= #[trigger] tl[n] < 128,
        0 <= sc < 16,
        blk[6 + 8 * q] + 256 * blk[6 + 8 * q + 1] + 65536 * blk[6 + 8 * q + 2] + 16777216 * blk[6 + 8 * q + 3]
            == tl[0] + 128 * tl[1] + 16384 * tl[2] + 2097152 * tl[3] + 0x1000_0000 * sc,
        b.len() == 8,
        is_entry(f.grid@[blk[2 + 8 * q + l] as int] as int, b),
        is_bits(f.signs@[tl[l]], sb),
        0 <= k < 8,
    ensures
        f.shape().bytes == 66,
        f.shape().elems == 256,
        f.shape().sub == 8,
        f.shape().unit == 8,
        f.shape().offset == 0,
        is_signed_byte(f.code(blk, 8 * g + k), b[k], sb[k]),
        f.aux(blk, g) == sc,
        f.scale(blk, s) == 1,
        f.min(blk, s) == 0,
        f.d(blk, u) % 256 == blk[0],
        f.d(blk, u) / 256 == blk[1],
{
    let e = 8 * g + k;
    assert(e / 8 == g && e % 8 == k && g / 4 == q && g % 4 == l && e / 32 == q);
    lemma_sign_word(le32_of(blk, 6 + 8 * q), tl, sc, l);
    lemma_entry(f.grid@[blk[2 + 8 * q + l] as int], b, k, f.signs@[tl[l]], sb, k);
}

/// A group of an IQ2_XS block is a word: nine bits of the number of a grid entry below a place in the
/// sign table.
pub proof fn law_iq2xs_block(
    f: &Iq2Xs,
    blk: Seq<u8>,
    g: int,
    n: int,
    t: int,
    b: Seq<u8>,
    sb: Seq<int>,
    k: int,
    s: int,
    u: int,
)
    requires
        blk.len() == 74,
        f.valid(),
        0 <= g < 32,
        0 <= n < 512,
        0 <= t < 128,
        blk[2 + 2 * g] + 256 * blk[2 + 2 * g + 1] == n + 512 * t,
        b.len() == 8,
        is_entry(f.grid@[n] as int, b),
        is_bits(f.signs@[t], sb),
        0 <= k < 8,
    ensures
        f.shape().bytes == 74,
        f.shape().elems == 256,
        f.shape().sub == 8,
        f.shape().unit == 8,
        f.shape().offset == 0,
        is_signed_byte(f.code(blk, 8 * g + k), b[k], sb[k]),
        f.scale(blk, s) == 1,
        f.min(blk, s) == 0,
        f.d(blk, u) % 256 == blk[0],
        f.d(blk, u) / 256 == blk[1],
{
    let e = 8 * g + k;
    assert(e / 8 == g && e % 8 == k);
    let w = le16_of(blk, 2 + 2 * g);
    assert(w % 512 == n && w / 512 == t);
    lemma_entry(f.grid@[n], b, k, f.signs@[t], sb, k);
}

/// Two groups share a scale: a scale byte is the scale of its first two groups and that of its other
/// two.
pub proof fn law_iq2xs_scales(f: &Iq2Xs, blk: Seq<u8>, q: int)
    requires
        blk.len() == 74,
        0 <= q < 8,
    ensures
        0 <= f.aux(blk, 4 * q) < 16,
        0 <= f.aux(blk, 4 * q + 2) < 16,
        blk[66 + q] == f.aux(blk, 4 * q) + 16 * f.aux(blk, 4 * q + 2),
        f.aux(blk, 4 * q + 1) == f.aux(blk, 4 * q),
        f.aux(blk, 4 * q + 3) == f.aux(blk, 4 * q + 2),
{
    assert((4 * q) / 4 == q && (4 * q) % 4 == 0);
    assert((4 * q + 1) / 4 == q && (4 * q + 1) % 4 == 1);
    assert((4 * q + 2) / 4 == q && (4 * q + 2) % 4 == 2);
    assert((4 * q + 3) / 4 == q && (4 * q + 3) % 4 == 3);
}

/// Half `h` of a group of an IQ3_S block is the grid entry of four whose number is the half's byte and,
/// above it, its bit of the byte that four groups share; the signs are the group's own byte.
pub proof fn law_iq3s_block(
    f: &Iq3S,
    blk: Seq<u8>,
    g: int,
    q: int,
    l: int,
    h: int,
    hb: Seq<int>,
    b: Seq<u8>,
    sb: Seq<int>,
    k: int,
    s: int,
    u: int,
)
    requires
        blk.len() == 110,
        f.valid(),
        g == 4 * q + l,
        0 <= q < 8,
        0 <= l < 4,
        0 <= h < 2,
        is_bits(blk[66 + q], hb),
        b.len() == 4,
        is_entry(f.grid@[blk[2 + 2 * g + h] + 256 * hb[2 * l + h]] as int, b),
        is_bits(blk[74 + g], sb),
        0 <= k < 4,
    ensures
        f.shape().bytes == 110,
        f.shape().elems == 256,
        f.shape().sub == 8,
        f.shape().unit == 8,
        f.shape().offset == 0,
        is_signed_byte(f.code(blk, 8 * g + 4 * h + k), b[k], sb[4 * h + k]),
        f.scale(blk, s) == 1,
        f.min(blk, s) == 0,
        f.d(blk, u) % 256 == blk[0],
        f.d(blk, u) / 256 == blk[1],
{
    lemma_half_place(g, q, l, h, k);
    lemma_sign_bit(blk[66 + q], hb, 2 * l + h);
    lemma_entry(f.grid@[blk[2 + 2 * g + h] + 256 * hb[2 * l + h]] as u64, b, k, blk[74 + g], sb, 4 * h + k);
}

/// Four groups share a scale: a scale byte is that of its first four groups and that of its other four.
pub proof fn law_iq3s_scales(f: &Iq3S, blk: Seq<u8>, q: int, n: int)
    requires
        blk.len() == 110,
        0 <= q < 4,
        0 <= n < 4,
    ensures
        0 <= f.aux(blk, 8 * q) < 16,
        0 <= f.aux(blk, 8 * q + 4) < 16,
        blk[106 + q] == f.aux(blk, 8 * q) + 16 * f.aux(blk, 8 * q + 4),
        f.aux(blk, 8 * q + n) == f.aux(blk, 8 * q),
        f.aux(blk, 8 * q + 4 + n) == f.aux(blk, 8 * q + 4),
{
    assert((8 * q + n) / 8 == q && (8 * q + n) / 4 == 2 * q && (8 * q + 4 + n) / 8 == q && (8 * q + 4 + n) / 4
        == 2 * q + 1);
    assert((8 * q) / 8 == q && (8 * q) / 4 == 2 * q && (8 * q + 4) / 8 == q && (8 * q + 4) / 4 == 2 * q + 1);
}

/// Half `h` of a group of an IQ3_XXS block is the grid entry of four by its byte; a run of 32 has a word
/// of four 7-bit places in the sign table below its scale.
pub proof fn law_iq3xxs_block(
    f: &Iq3Xxs,
    blk: Seq<u8>,
    g: int,
    q: int,
    l: int,
    h: int,
    tl: Seq<int>,
    sc: int,
    b: Seq<u8>,
    sb: Seq<int>,
    k: int,
    s: int,
    u: int,
)
    requires
        blk.len() == 98,
        f.valid(),
        g == 4 * q + l,
        0 <= q < 8,
        0 <= l < 4,
        0 <= h < 2,
        tl.len() == 4,
        forall|n: int| 0 <= n < 4 ==> 0 <= #[trigger] tl[n] < 128,
        0 <= sc < 16,
        blk[66 + 4 * q] + 256 * blk[66 + 4 * q + 1] + 65536 * blk[66 + 4 * q + 2] + 16777216 * blk[66 + 4 * q + 3]
            == tl[0] + 128 * tl[1] + 16384 * tl[2] + 2097152 * tl[3] + 0x1000_0000 * sc,
        b.len() == 4,
        is_entry(f.grid@[blk[2 + 2 * g + h] as int] as int, b),
        is_bits(f.signs@[tl[l]], sb),
        0 <= k < 4,
    ensures
        f.shape().bytes == 98,
        f.shape().elems == 256,
        f.shape().sub == 8,
        f.shape().unit == 8,
        f.shape().offset == 0,
        is_signed_byte(f.code(blk, 8 * g + 4 * h + k), b[k], sb[4 * h + k]),
        f.aux(blk, g) == sc,
        f.scale(blk, s) == 1,
        f.min(blk, s) == 0,
        f.d(blk, u) % 256 == blk[0],
        f.d(blk, u) / 256 == blk[1],
{
    lemma_half_place(g, q, l, h, k);
    lemma_sign_word(le32_of(blk, 66 + 4 * q), tl, sc, l);
    lemma_entry(f.grid@[blk[2 + 2 * g + h] as int] as u64, b, k, f.signs@[tl[l]], sb, 4 * h + k);
}

/// A group of an IQ1_S block is the grid entry whose number is the group's byte and, above it, its three
/// bits of the word that four groups share; the four bits above those are the scale of the four.
/// The shift of the weights counts once for each.
pub proof fn law_iq1s_block(
    f: &Iq1S,
    blk: Seq<u8>,
    g: int,
    q: int,
    l: int,
    hl: Seq<int>,
    top: int,
    b: Seq<u8>,
    k: int,
    s: int,
    u: int,
)
    requires
        blk.len() == 50,
        f.valid(),
        g == 4 * q + l,
        0 <= q < 8,
        0 <= l < 4,
        hl.len() == 4,
        forall|n: int| 0 <= n < 4 ==> 0 <= #[trigger] hl[n] < 8,
        0 <= top < 16,
        blk[34 + 2 * q] + 256 * blk[34 + 2 * q + 1] == hl[0] + 8 * hl[1] + 64 * hl[2] + 512 * hl[3] + 4096 * top,
        b.len() == 8,
        is_entry(f.grid@[blk[2 + g] + 256 * hl[l]] as int, b),
        0 <= k < 8,
    ensures
        f.shape().bytes == 50,
        f.shape().elems == 256,
        f.shape().sub == 8,
        f.shape().unit == 8,
        f.shape().offset == 0,
        is_signed_byte(f.code(blk, 8 * g + k), b[k], 0),
        f.aux(blk, g) == top,
        f.scale(blk, s) == 1,
        f.min(blk, s) == 1,
        f.d(blk, u) % 256 == blk[0],
        f.d(blk, u) / 256 == blk[1],
{
    let e = 8 * g + k;
    assert(e / 8 == g && e % 8 == k && g / 4 == q && g % 4 == l);
    lemma_three_bits(le16_of(blk, 34 + 2 * q), hl, top, l);
    lemma_entry(f.grid@[blk[2 + g] + 256 * hl[l]], b, k, 0, seq![0int, 0int, 0int, 0int, 0int, 0int, 0int, 0int], 0);
}

/// A group of an IQ1_M block is the grid entry whose number is the group's byte and, above it, three bits
/// of its nibble; the fourth is the sign of its shift. Two groups share three bits of scale, of the
/// word that eight groups share.
pub proof fn law_iq1m_block(
    f: &Iq1M,
    blk: Seq<u8>,
    g: int,
    q: int,
    l: int,
    p: int,
    nb: Seq<int>,
    hl: Seq<int>,
    top: int,
    b: Seq<u8>,
    k: int,
    s: int,
)
    requires
        blk.len() == 56,
        f.valid(),
        g == 8 * q + 2 * l + p,
        0 <= q < 4,
        0 <= l < 4,
        0 <= p < 2,
        nb.len() == 2,
        0 <= nb[0] < 16,
        0 <= nb[1] < 16,
        blk[32 + 4 * q + l] == nb[0] + 16 * nb[1],
        hl.len() == 4,
        forall|n: int| 0 <= n < 4 ==> 0 <= #[trigger] hl[n] < 8,
        0 <= top < 16,
        blk[48 + 2 * q] + 256 * blk[48 + 2 * q + 1] == hl[0] + 8 * hl[1] + 64 * hl[2] + 512 * hl[3] + 4096 * top,
        b.len() == 8,
        is_entry(f.grid@[blk[g] + 256 * (nb[p] % 8)] as int, b),
        0 <= k < 8,
    ensures
        f.shape().bytes == 56,
        f.shape().elems == 256,
        f.shape().sub == 8,
        f.shape().unit == 8,
        f.shape().offset == 0,
        is_signed_byte(f.code(blk, 8 * g + k), b[k], 0),
        f.aux(blk, g) == hl[l] + 8 * (nb[p] / 8),
        f.scale(blk, s) == 1,
        f.min(blk, s) == 1,
{
    let e = 8 * g + k;
    assert(e / 8 == g && e % 8 == k && g / 2 == 4 * q + l && g % 2 == p && g / 8 == q && (g % 8) / 2 == l);
    assert(nibble_of(blk[32 + 4 * q + l], p == 1) == nb[p]);
    lemma_three_bits(le16_of(blk, 48 + 2 * q), hl, top, l);
    lemma_entry(f.grid@[blk[g] + 256 * (nb[p] % 8)], b, k, 0, seq![0int, 0int, 0int, 0int, 0int, 0int, 0int, 0int], 0);
}

/// The scale of an IQ1_M block is the upper nibbles of its four scale words, the first lowest.
pub proof fn law_iq1m_scale(f: &Iq1M, blk: Seq<u8>, u: int, lo: Seq<int>)
    requires
        blk.len() == 56,
        lo.len() == 4,
        forall|n: int| 0 <= n < 4 ==> 0 <= #[trigger] lo[n] < 16,
        lo[0] == blk[49] as int % 16,
        lo[1] == blk[51] as int % 16,
        lo[2] == blk[53] as int % 16,
        lo[3] == blk[55] as int % 16,
    ensures
        blk[49] == lo[0] + 16 * ((f.d(blk, u) / 1) % 16),
        blk[51] == lo[1] + 16 * ((f.d(blk, u) / 16) % 16),
        blk[53] == lo[2] + 16 * ((f.d(blk, u) / 256) % 16),
        blk[55] == lo[3] + 16 * ((f.d(blk, u) / 4096) % 16),
        0 <= f.d(blk, u) < 65536,
{
    let d = iq1m_d(blk);
    let (a, b, c, e) = (blk[49] as int / 16, blk[51] as int / 16, blk[53] as int / 16, blk[55] as int / 16);
    assert(d == a + 16 * b + 256 * c + 4096 * e);
    crate::bits::lemma_digit(d, 0, 1, a, 16, b + 16 * c + 256 * e);
    crate::bits::lemma_digit(d, a, 16, b, 16, c + 16 * e);
    crate::bits::lemma_digit(d, a + 16 * b, 256, c, 16, e);
    crate::bits::lemma_digit(d, a + 16 * b + 256 * c, 4096, e, 16, 0);
}

} // verus!
