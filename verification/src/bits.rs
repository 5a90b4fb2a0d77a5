//! Reading packed fields out of block bytes.
use vstd::prelude::*;

verus! {

/// `2^k` for the bit positions of a byte.
pub open spec fn bit_weight(k: int) -> int {
    if k == 0 {
        1
    } else if k == 1 {
        2
    } else if k == 2 {
        4
    } else if k == 3 {
        8
    } else if k == 4 {
        16
    } else if k == 5 {
        32
    } else if k == 6 {
        64
    } else {
        128
    }
}

/// Bit `k` of the byte `x`, as 0 or 1.
pub open spec fn bit_of(x: u8, k: int) -> int {
    (x as int / bit_weight(k)) % 2
}

/// The 2-bit field `j` of the byte `x` (field 0 is the low one).
pub open spec fn field2_of(x: u8, j: int) -> int {
    (x as int / bit_weight(2 * j)) % 4
}

/// The nibble of `x`: the low one, or the high one if `high`.
pub open spec fn nibble_of(x: u8, high: bool) -> int {
    if high {
        x as int / 16
    } else {
        x as int % 16
    }
}

/// The two's-complement reading of a byte.
pub open spec fn signed_of(x: u8) -> int {
    if x < 128 {
        x as int
    } else {
        x - 256
    }
}

/// The 16-bit little-endian word at `i`.
pub open spec fn le16_of(s: Seq<u8>, i: int) -> int {
    s[i] + 256 * s[i + 1]
}

/// The 32-bit little-endian word at `i`.
pub open spec fn le32_of(s: Seq<u8>, i: int) -> int {
    s[i] + 256 * s[i + 1] + 65536 * s[i + 2] + 16777216 * s[i + 3]
}

/// The bytes of block `b` in a row of blocks of `bytes` bytes.
pub open spec fn block_of(row: Seq<u8>, bytes: int, b: int) -> Seq<u8> {
    row.subrange(b * bytes, b * bytes + bytes)
}

/// The nibble of `x`, low or high.
pub fn nibble(x: u8, high: bool) -> (r: u8)
    ensures
        r == nibble_of(x, high),
        r < 16,
{
    assert(x & 0xF == x % 16 && x >> 4 == x / 16) by (bit_vector);
    if high {
        x >> 4
    } else {
        x & 0xF
    }
}

/// The 2-bit field `j` of `x`.
pub fn field2(x: u8, j: usize) -> (r: u8)
    requires
        j < 4,
    ensures
        r == field2_of(x, j as int),
        r < 4,
{
    let shift: u8 = 2 * (j as u8);
    assert(shift == 0 || shift == 2 || shift == 4 || shift == 6);
    assert((x >> 0u8) & 3 == (x / 1) % 4 && (x >> 2u8) & 3 == (x / 4) % 4 && (x >> 4u8) & 3 == (x / 16) % 4
        && (x >> 6u8) & 3 == (x / 64) % 4) by (bit_vector);
    (x >> shift) & 3
}

/// Bit `k` of `x`.
pub fn bit(x: u8, k: usize) -> (r: u8)
    requires
        k < 8,
    ensures
        r == bit_of(x, k as int),
        r < 2,
{
    let shift: u8 = k as u8;
    assert((x >> 0u8) & 1 == (x / 1) % 2 && (x >> 1u8) & 1 == (x / 2) % 2 && (x >> 2u8) & 1 == (x / 4) % 2
        && (x >> 3u8) & 1 == (x / 8) % 2 && (x >> 4u8) & 1 == (x / 16) % 2 && (x >> 5u8) & 1 == (x / 32) % 2
        && (x >> 6u8) & 1 == (x / 64) % 2 && (x >> 7u8) & 1 == (x / 128) % 2) by (bit_vector);
    (x >> shift) & 1
}

/// The byte `x` read as a signed number.
pub fn signed(x: u8) -> (r: i8)
    ensures
        r == signed_of(x),
{
    let r: i8 = x as i8;
    assert(x < 128 ==> x as i8 == x) by (bit_vector);
    assert(x >= 128 ==> x as i8 == x - 256) by (bit_vector);
    r
}

/// The bit pattern of the half-precision scale stored at byte `i` of a block.
pub fn rdf16(blk: &[u8], i: usize) -> (r: u16)
    requires
        i + 1 < blk@.len(),
    ensures
        r == le16_of(blk@, i as int),
{
    le16(blk, i)
}

/// The 16-bit little-endian word at byte `i`.
pub fn le16(blk: &[u8], i: usize) -> (r: u16)
    requires
        i + 1 < blk@.len(),
    ensures
        r == le16_of(blk@, i as int),
{
    blk[i] as u16 + 256 * (blk[i + 1] as u16)
}

/// The 32-bit little-endian word at byte `i`.
pub fn le32(blk: &[u8], i: usize) -> (r: u32)
    requires
        i + 3 < blk@.len(),
    ensures
        r == le32_of(blk@, i as int),
{
    blk[i] as u32 + 256 * (blk[i + 1] as u32) + 65536 * (blk[i + 2] as u32) + 16777216 * (blk[i + 3] as u32)
}

/// The bytes of block `b`.
pub fn block(row: &[u8], bytes: usize, b: usize) -> (blk: &[u8])
    requires
        b * bytes + bytes <= row@.len(),
    ensures
        blk@ == block_of(row@, bytes as int, b as int),
        blk@.len() == bytes,
{
    proof {
        assert(0 <= b * bytes) by (nonlinear_arith)
            requires
                0 <= b,
                0 <= bytes,
        ;
    }
    let len: usize = row.len();
    let start: usize = b * bytes;
    assert(start + bytes <= len);
    vstd::slice::slice_subrange(row, start, start + bytes)
}

/// A byte is its low nibble and sixteen times its high nibble.
pub proof fn law_nibbles(x: u8, lo: u8, hi: u8)
    requires
        call_ensures(nibble, (x, false), lo),
        call_ensures(nibble, (x, true), hi),
    ensures
        lo < 16,
        hi < 16,
        x == lo + 16 * hi,
{
}

/// A byte is its four 2-bit fields, the lowest first.
pub proof fn law_fields2(x: u8, a: u8, b: u8, c: u8, d: u8)
    requires
        call_ensures(field2, (x, 0), a),
        call_ensures(field2, (x, 1), b),
        call_ensures(field2, (x, 2), c),
        call_ensures(field2, (x, 3), d),
    ensures
        a < 4 && b < 4 && c < 4 && d < 4,
        x == a + 4 * b + 16 * c + 64 * d,
{
}

/// A byte is its eight bits, the lowest first.
pub proof fn law_bits(x: u8, b: Seq<u8>)
    requires
        b.len() == 8,
        forall|k: usize| k < 8 ==> #[trigger] call_ensures(bit, (x, k), b[k as int]),
    ensures
        forall|k: int| 0 <= k < 8 ==> #[trigger] b[k] < 2,
        x == b[0] + 2 * b[1] + 4 * b[2] + 8 * b[3] + 16 * b[4] + 32 * b[5] + 64 * b[6] + 128 * b[7],
{
    assert forall|k: int| 0 <= k < 8 implies #[trigger] b[k] == bit_of(x, k) by {
        assert(call_ensures(bit, (x, k as usize), b[(k as usize) as int]));
    }
    lemma_bits_of(x);
    assert(b[0] == bit_of(x, 0) && b[1] == bit_of(x, 1) && b[2] == bit_of(x, 2) && b[3] == bit_of(x, 3) && b[4]
        == bit_of(x, 4) && b[5] == bit_of(x, 5) && b[6] == bit_of(x, 6) && b[7] == bit_of(x, 7));
}

/// The eight bits of a byte.
pub proof fn lemma_bits_of(x: u8)
    ensures
        x == bit_of(x, 0) + 2 * bit_of(x, 1) + 4 * bit_of(x, 2) + 8 * bit_of(x, 3) + 16 * bit_of(x, 4)
            + 32 * bit_of(x, 5)
            + 64 * bit_of(x, 6) + 128 * bit_of(x, 7),
        forall|k: int| 0 <= k < 8 ==> 0 <= #[trigger] bit_of(x, k) < 2,
{
    assert(x == x % 2 + 2 * ((x / 2) % 2) + 4 * ((x / 4) % 2) + 8 * ((x / 8) % 2) + 16 * ((x / 16) % 2) + 32 * ((x / 32)
        % 2) + 64 * ((x / 64) % 2) + 128 * ((x / 128) % 2)) by (bit_vector);
}

/// The signed reading of a byte differs from the byte by nothing or by 256.
pub proof fn law_signed(x: u8, r: i8)
    requires
        call_ensures(signed, (x,), r),
    ensures
        (x - r) % 256 == 0,
{
}

/// A word is its bytes, the low one first.
pub proof fn law_words_of_bytes(blk: &[u8], i: usize, h: u16, w: u16, d: u32)
    requires
        call_ensures(rdf16, (blk, i), h),
        call_ensures(le16, (blk, i), w),
        call_ensures(le32, (blk, i), d),
    ensures
        h == w,
        w as int % 256 == blk@[i as int],
        w as int / 256 == blk@[i + 1],
        d as int % 256 == blk@[i as int],
        (d as int / 256) % 256 == blk@[i + 1],
        (d as int / 65536) % 256 == blk@[i + 2],
        d as int / 16777216 == blk@[i + 3],
{
}

/// Block `b` starts behind the blocks before it.
pub proof fn law_block_of_row(row: &[u8], bytes: usize, b: usize, blk: &[u8], i: int)
    requires
        call_ensures(block, (row, bytes, b), blk),
        b * bytes + bytes <= row@.len(),
        0 <= i < bytes,
    ensures
        blk@.len() == bytes,
        blk@[i] == row@[b * bytes + i],
{
    assert(0 <= b * bytes) by (nonlinear_arith);
}

/// The two nibbles of a byte.
pub proof fn lemma_nibbles_of(x: u8)
    ensures
        0 <= nibble_of(x, false) < 16,
        0 <= nibble_of(x, true) < 16,
        x == nibble_of(x, false) + 16 * nibble_of(x, true),
{
}

/// The four 2-bit fields of a byte.
pub proof fn lemma_fields2_of(x: u8)
    ensures
        x == field2_of(x, 0) + 4 * field2_of(x, 1) + 16 * field2_of(x, 2) + 64 * field2_of(x, 3),
        forall|k: int| 0 <= k < 4 ==> 0 <= #[trigger] field2_of(x, k) < 4,
{
}

/// A number that is put together from a low part and a high part comes apart into them.
pub proof fn lemma_parts(lo: int, hi: int)
    ensures
        0 <= lo < 16 ==> (lo + 16 * hi) % 16 == lo && (lo + 16 * hi) / 16 == hi,
        0 <= lo < 4 ==> (lo + 4 * hi) % 4 == lo && (lo + 4 * hi) / 4 == hi,
{
}

/// A digit of a number: what stands below it is less than its weight `w`, and it is less than the
/// base `m` of what stands above it.
pub proof fn lemma_digit(x: int, lo: int, w: int, mid: int, m: int, hi: int)
    requires
        0 <= lo < w,
        0 <= mid < m,
        x == lo + w * (mid + m * hi),
    ensures
        x / w == mid + m * hi,
        (x / w) % m == mid,
        (x / w) / m == hi,
{
    let y = mid + m * hi;
    assert(w * y == y * w && m * hi == hi * m) by (nonlinear_arith);
    vstd::arithmetic::div_mod::lemma_fundamental_div_mod_converse(x, w, y, lo);
    vstd::arithmetic::div_mod::lemma_fundamental_div_mod_converse(y, m, hi, mid);
}

} // verus!
