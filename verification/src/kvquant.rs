//! Packing quantized activations into the blocks of a key/value cache.
//!
//! The caller scales and rounds a run of 32 activations to integers; this module turns the
//! integers into codes and lays the codes out in the block formats that the weight kernels read.
use vstd::prelude::*;
use vstd::arithmetic::div_mod::lemma_mod_bound;
use crate::bits::{bit_of, block_of, le16_of, nibble_of, signed_of};
use crate::dtype::DType;
use crate::format::WeightFormat;
use crate::kv::{cache_kind_of, is_ring_write, law_write_lands_at_ring_row, ring_row_of, write_kv};
use crate::legacy::{q5_code, Q4_0, Q4_1, Q5_0, Q5_1};
use crate::ops::at;

verus! {

/// A run of 32 rounded activations with the bit patterns of its half-precision scale `d` and,
/// for the affine formats, its half-precision min `m`.
#[derive(Clone, Copy)]
pub struct KvBlock {
    pub d: u16,
    pub m: u16,
    pub q: [i32; 32],
}

/// The low byte of `v` as a signed number, clamped to `0..=top`.
pub open spec fn clamped(v: i32, top: int) -> int {
    let x = v as i8;
    if x < 0 {
        0
    } else if x > top {
        top
    } else {
        x as int
    }
}

/// The code that a format stores for the rounded activation `v`.
pub open spec fn kv_code(dt: DType, v: i32) -> int {
    match dt {
        DType::Q4_0 | DType::Q4_1 => clamped(v, 15),
        DType::Q5_0 => clamped(v, 31),
        DType::Q5_1 => (v as u8) as int % 32,
        _ => (v as u8) as int % 16,
    }
}

/// Whether activations can be packed into blocks of the type.
pub open spec fn is_supported(dt: DType) -> bool {
    dt is Q4_0 || dt is Q4_1 || dt is Q5_0 || dt is Q5_1 || dt is Iq4Nl
}

/// Which types activations can be packed into.
pub fn supported(dt: DType) -> (r: bool)
    ensures
        r == is_supported(dt),
{
    matches!(dt, DType::Q4_0 | DType::Q4_1 | DType::Q5_0 | DType::Q5_1 | DType::Iq4Nl)
}

/// The code that a block of the type holds for element `e`. A codebook block holds table indices.
pub open spec fn stored_code(dt: DType, blk: Seq<u8>, e: int) -> int {
    match dt {
        DType::Q4_0 => Q4_0.code(blk, e),
        DType::Q4_1 => Q4_1.code(blk, e),
        DType::Q5_0 => Q5_0.code(blk, e),
        DType::Q5_1 => Q5_1.code(blk, e),
        _ => nibble_of(blk[2 + e % 16], 16 <= e),
    }
}

/// `blk` is the packed form of `x`: it holds the scale, the min where the type has one, and the
/// code of every activation. This fixes every byte of the block.
pub open spec fn is_packed(dt: DType, blk: Seq<u8>, x: KvBlock) -> bool {
    &&& blk.len() == dt.bytes()
    &&& le16_of(blk, 0) == x.d
    &&& (dt is Q4_1 || dt is Q5_1) ==> le16_of(blk, 2) == x.m
    &&& forall|e: int| 0 <= e < 32 ==> #[trigger] stored_code(dt, blk, e) == kv_code(dt, x.q@[e])
}

/// The code that a format stores for the rounded activation `v`.
fn code_of(dt: DType, v: i32) -> (r: u8)
    ensures
        r == kv_code(dt, v),
        r < 32,
        !(dt is Q5_0 || dt is Q5_1) ==> r < 16,
{
    match dt {
        DType::Q4_0 | DType::Q4_1 => clamp(v, 15),
        DType::Q5_0 => clamp(v, 31),
        DType::Q5_1 => #[verifier::truncate] (v as u8) % 32,
        _ => #[verifier::truncate] (v as u8) % 16,
    }
}

/// The low byte of `v` as a signed number, clamped to `0..=top`.
fn clamp(v: i32, top: i8) -> (r: u8)
    requires
        0 <= top,
    ensures
        r == clamped(v, top as int),
        r <= top,
{
    let x: i8 = #[verifier::truncate] (v as i8);
    if x < 0 {
        0
    } else if x > top {
        top as u8
    } else {
        x as u8
    }
}

/// Two nibbles in a byte.
fn nibble_pair(lo: u8, hi: u8) -> (r: u8)
    requires
        lo < 16,
        hi < 16,
    ensures
        nibble_of(r, false) == lo,
        nibble_of(r, true) == hi,
{
    lo + 16 * hi
}

/// Eight bits in a byte are the bits of the byte.
proof fn lemma_bits(b0: u8, b1: u8, b2: u8, b3: u8, b4: u8, b5: u8, b6: u8, b7: u8, x: u8)
    by (bit_vector)
    requires
        b0 < 2 && b1 < 2 && b2 < 2 && b3 < 2 && b4 < 2 && b5 < 2 && b6 < 2 && b7 < 2,
        x == b0 | (b1 << 1u8) | (b2 << 2u8) | (b3 << 3u8) | (b4 << 4u8) | (b5 << 5u8) | (b6 << 6u8) | (b7 << 7u8),
    ensures
        x % 2 == b0,
        (x / 2) % 2 == b1,
        (x / 4) % 2 == b2,
        (x / 8) % 2 == b3,
        (x / 16) % 2 == b4,
        (x / 32) % 2 == b5,
        (x / 64) % 2 == b6,
        (x / 128) % 2 == b7,
{
}

/// The fifth bits of eight codes, packed in a byte.
fn high_bits(codes: &Vec<u8>, at: usize) -> (r: u8)
    requires
        at + 8 <= codes@.len(),
        forall|i: int| 0 <= i < codes@.len() ==> #[trigger] codes@[i] < 32,
    ensures
        forall|t: int| 0 <= t < 8 ==> #[trigger] bit_of(r, t) == codes@[at + t] as int / 16,
{
    let len: usize = codes.len();
    let b0: u8 = codes[at] / 16;
    let b1: u8 = codes[at + 1] / 16;
    let b2: u8 = codes[at + 2] / 16;
    let b3: u8 = codes[at + 3] / 16;
    let b4: u8 = codes[at + 4] / 16;
    let b5: u8 = codes[at + 5] / 16;
    let b6: u8 = codes[at + 6] / 16;
    let b7: u8 = codes[at + 7] / 16;
    let x: u8 = b0 | (b1 << 1u8) | (b2 << 2u8) | (b3 << 3u8) | (b4 << 4u8) | (b5 << 5u8) | (b6 << 6u8) | (b7 << 7u8);
    proof {
        lemma_bits(b0, b1, b2, b3, b4, b5, b6, b7, x);
    }
    x
}

/// The codes of a run.
fn codes_of(dt: DType, x: &KvBlock) -> (codes: Vec<u8>)
    ensures
        codes@.len() == 32,
        forall|e: int|
            0 <= e < 32 ==> #[trigger] codes@[e] == kv_code(dt, x.q@[e]) && codes@[e] < 32 && (!(dt is Q5_0 || dt
                is Q5_1) ==> codes@[e] < 16),
{
    let mut codes: Vec<u8> = Vec::new();
    let mut e: usize = 0;
    while e < 32
        invariant
            e <= 32,
            codes@.len() == e,
            forall|k: int|
                0 <= k < e ==> #[trigger] codes@[k] == kv_code(dt, x.q@[k]) && codes@[k] < 32 && (!(dt is Q5_0 || dt
                    is Q5_1) ==> codes@[k] < 16),
        decreases 32 - e,
    {
        codes.push(code_of(dt, x.q[e]));
        e = e + 1;
    }
    codes
}

/// Appends a half-precision bit pattern, low byte first.
fn push_half(out: &mut Vec<u8>, v: u16)
    ensures
        final(out)@ == old(out)@.push((v % 256) as u8).push((v / 256) as u8),
{
    out.push((v % 256) as u8);
    out.push((v / 256) as u8);
}

/// The packed block of a run.
pub fn pack_block(dt: DType, x: &KvBlock) -> (out: Vec<u8>)
    requires
        is_supported(dt),
    ensures
        is_packed(dt, out@, *x),
{
    let codes: Vec<u8> = codes_of(dt, x);
    let affine: bool = matches!(dt, DType::Q4_1 | DType::Q5_1);
    let five: bool = matches!(dt, DType::Q5_0 | DType::Q5_1);
    let mut out: Vec<u8> = Vec::new();
    push_half(&mut out, x.d);
    if affine {
        push_half(&mut out, x.m);
    }
    let ghost qh: int = if affine {
        4int
    } else {
        2int
    };
    if five {
        let mut k: usize = 0;
        while k < 4
            invariant
                k <= 4,
                qh == 2 || qh == 4,
                codes@.len() == 32,
                forall|e: int| 0 <= e < 32 ==> #[trigger] codes@[e] < 32,
                out@.len() == qh + k,
                le16_of(out@, 0) == x.d,
                qh == 4 ==> le16_of(out@, 2) == x.m,
                forall|e: int| 0 <= e < 8 * k ==> bit_of(out@[qh + e / 8], e % 8) == #[trigger] codes@[e] as int / 16,
            decreases 4 - k,
        {
            let b: u8 = high_bits(&codes, 8 * k);
            let ghost before = out@;
            out.push(b);
            proof {
                assert forall|e: int| 0 <= e < 8 * k + 8 implies bit_of(out@[qh + e / 8], e % 8)
                    == #[trigger] codes@[e] as int / 16 by {
                    if e < 8 * k {
                        assert(out@[qh + e / 8] == before[qh + e / 8]);
                    } else {
                        let t = e - 8 * k;
                        assert(e / 8 == k && e % 8 == t);
                        assert(bit_of(b, t) == codes@[8 * k + t] as int / 16);
                    }
                }
            }
            k = k + 1;
        }
    }
    let ghost qs: int = if five {
        qh + 4
    } else {
        qh
    };
    let mut j: usize = 0;
    while j < 16
        invariant
            j <= 16,
            qh == 2 || qh == 4,
            qs == if five {
                qh + 4
            } else {
                qh
            },
            codes@.len() == 32,
            forall|e: int| 0 <= e < 32 ==> #[trigger] codes@[e] < 32,
            out@.len() == qs + j,
            le16_of(out@, 0) == x.d,
            qh == 4 ==> le16_of(out@, 2) == x.m,
            five ==> forall|e: int|
                0 <= e < 32 ==> bit_of(out@[qh + e / 8], e % 8) == #[trigger] codes@[e] as int / 16,
            forall|i: int| 0 <= i < j ==> nibble_of(out@[qs + i], false) == #[trigger] codes@[i] as int % 16,
            forall|i: int| 0 <= i < j ==> nibble_of(out@[qs + i], true) == #[trigger] codes@[i + 16] as int % 16,
        decreases 16 - j,
    {
        let byte: u8 = nibble_pair(codes[j] % 16, codes[j + 16] % 16);
        let ghost before = out@;
        out.push(byte);
        proof {
            assert(forall|i: int| 0 <= i < before.len() ==> out@[i] == before[i]);
            assert forall|i: int| 0 <= i < j + 1 implies nibble_of(out@[qs + i], false) == #[trigger] codes@[i] as int
                % 16 by {
                if i < j {
                    assert(out@[qs + i] == before[qs + i]);
                }
            }
            assert forall|i: int| 0 <= i < j + 1 implies nibble_of(out@[qs + i], true) == #[trigger] codes@[i
                + 16] as int % 16 by {
                if i < j {
                    assert(out@[qs + i] == before[qs + i]);
                }
            }
        }
        j = j + 1;
    }
    proof {
        assert forall|e: int| 0 <= e < 32 implies #[trigger] stored_code(dt, out@, e) == kv_code(dt, x.q@[e]) by {
            assert(codes@[e] == kv_code(dt, x.q@[e]));
            if e < 16 {
                assert(nibble_of(out@[qs + e], false) == codes@[e] as int % 16);
            } else {
                assert(nibble_of(out@[qs + (e - 16)], true) == codes@[(e - 16) + 16] as int % 16);
                assert(e % 16 == e - 16);
            }
            assert(codes@[e] as int == codes@[e] as int % 16 + 16 * (codes@[e] as int / 16));
        }
    }
    out
}

/// Packs runs into consecutive blocks at the start of `dst`; the bytes behind them stay as they
/// are.
pub fn quantize_row(dt: DType, src: &[KvBlock], dst: &mut Vec<u8>)
    requires
        is_supported(dt),
        src@.len() * dt.bytes() <= old(dst)@.len(),
    ensures
        final(dst)@.len() == old(dst)@.len(),
        forall|b: int|
            0 <= b < src@.len() ==> is_packed(dt, #[trigger] block_of(final(dst)@, dt.bytes(), b), src@[b]),
        forall|i: int| src@.len() * dt.bytes() <= i < old(dst)@.len() ==> #[trigger] final(dst)@[i] == old(dst)@[i],
{
    let bb: usize = dt.block_bytes();
    let ghost bytes = dt.bytes();
    let ghost first = dst@;
    let n: usize = src.len();
    let len: usize = dst.len();
    let mut b: usize = 0;
    while b < n
        invariant
            b <= n,
            n == src@.len(),
            len == dst@.len(),
            is_supported(dt),
            bb == bytes,
            bytes == dt.bytes(),
            0 < bytes <= 34,
            n * bytes <= len,
            first.len() == len,
            forall|k: int| 0 <= k < b ==> is_packed(dt, #[trigger] block_of(dst@, bytes, k), src@[k]),
            forall|i: int| b * bytes <= i < len ==> #[trigger] dst@[i] == first[i],
        decreases n - b,
    {
        let blk: Vec<u8> = pack_block(dt, &src[b]);
        proof {
            assert(b * bytes + bytes <= n * bytes) by (nonlinear_arith)
                requires
                    b + 1 <= n,
                    0 < bytes,
            ;
            assert(0 <= b * bytes) by (nonlinear_arith)
                requires
                    0 <= b,
                    0 < bytes,
            ;
            assert((b + 1) * bytes == b * bytes + bytes) by (nonlinear_arith);
        }
        let base: usize = b * bb;
        let ghost before = dst@;
        let mut i: usize = 0;
        while i < bb
            invariant
                i <= bb,
                bb == bytes,
                blk@.len() == bb,
                base + bb <= len,
                len == dst@.len(),
                before.len() == len,
                forall|k: int| 0 <= k < i ==> #[trigger] dst@[base + k] == blk@[k],
                forall|k: int| 0 <= k < base ==> #[trigger] dst@[k] == before[k],
                forall|k: int| base + i <= k < len ==> #[trigger] dst@[k] == before[k],
            decreases bb - i,
        {
            dst.set(base + i, blk[i]);
            i = i + 1;
        }
        proof {
            assert forall|k: int| 0 <= k < b + 1 implies is_packed(dt, #[trigger] block_of(dst@, bytes, k), src@[k]) by {
                if k < b {
                    assert(0 <= k * bytes && k * bytes + bytes <= b * bytes) by (nonlinear_arith)
                        requires
                            0 <= k,
                            k + 1 <= b,
                            0 < bytes,
                    ;
                    assert(block_of(dst@, bytes, k) =~= block_of(before, bytes, k));
                    assert(is_packed(dt, block_of(before, bytes, k), src@[k]));
                } else {
                    assert forall|j: int| 0 <= j < bytes implies block_of(dst@, bytes, k)[j] == blk@[j] by {
                        assert(dst@[base + j] == blk@[j]);
                    }
                    assert(block_of(dst@, bytes, k) =~= blk@);
                }
            }
        }
        b = b + 1;
    }
}

/// A rounded activation in a format's range is stored as it is.
pub proof fn law_in_range_codes_survive(dt: DType, v: i32)
    requires
        is_supported(dt),
        0 <= v <= 31,
        !(dt is Q5_0 || dt is Q5_1) ==> v <= 15,
    ensures
        kv_code(dt, v) == v,
{
    assert(0 <= v <= 31 ==> v as i8 == v && v as u8 == v) by (bit_vector);
}

/// A byte is the sum of its bits.
proof fn lemma_byte_of_bits(x: u8)
    ensures
        x == bit_of(x, 0) + 2 * bit_of(x, 1) + 4 * bit_of(x, 2) + 8 * bit_of(x, 3) + 16 * bit_of(x, 4) + 32 * bit_of(
            x,
            5,
        ) + 64 * bit_of(x, 6) + 128 * bit_of(x, 7),
{
    assert(x == (x / 1) % 2 + 2 * ((x / 2) % 2) + 4 * ((x / 4) % 2) + 8 * ((x / 8) % 2) + 16 * ((x / 16) % 2) + 32 * ((x
        / 32) % 2) + 64 * ((x / 64) % 2) + 128 * ((x / 128) % 2)) by (bit_vector);
}

/// Bytes with the same bits are the same.
proof fn lemma_same_bits(x: u8, y: u8)
    requires
        forall|t: int| 0 <= t < 8 ==> #[trigger] bit_of(x, t) == bit_of(y, t),
    ensures
        x == y,
{
    lemma_byte_of_bits(x);
    lemma_byte_of_bits(y);
    assert(bit_of(x, 0) == bit_of(y, 0) && bit_of(x, 1) == bit_of(y, 1) && bit_of(x, 2) == bit_of(y, 2) && bit_of(x, 3)
        == bit_of(y, 3) && bit_of(x, 4) == bit_of(y, 4) && bit_of(x, 5) == bit_of(y, 5) && bit_of(x, 6) == bit_of(y, 6)
        && bit_of(x, 7) == bit_of(y, 7));
}

/// A 5-bit code fixes its nibble and its bit.
proof fn lemma_q5_parts(a: Seq<u8>, b: Seq<u8>, qh: int, qs: int, e: int)
    requires
        q5_code(a, qh, qs, e) == q5_code(b, qh, qs, e),
    ensures
        nibble_of(a[qs + e % 16], 16 <= e) == nibble_of(b[qs + e % 16], 16 <= e),
        bit_of(a[qh + e / 8], e % 8) == bit_of(b[qh + e / 8], e % 8),
{
}

/// Blocks of 5-bit codes with the same codes have the same code bytes.
proof fn lemma_same_q5(a: Seq<u8>, b: Seq<u8>, qh: int, qs: int)
    requires
        qs == qh + 4,
        forall|e: int| 0 <= e < 32 ==> #[trigger] q5_code(a, qh, qs, e) == q5_code(b, qh, qs, e),
    ensures
        forall|i: int| qh <= i < qs + 16 ==> #[trigger] a[i] == b[i],
{
    assert forall|i: int| qh <= i < qs implies #[trigger] a[i] == b[i] by {
        let k = i - qh;
        assert forall|t: int| 0 <= t < 8 implies #[trigger] bit_of(a[qh + k], t) == bit_of(b[qh + k], t) by {
            let e = 8 * k + t;
            assert(q5_code(a, qh, qs, e) == q5_code(b, qh, qs, e));
            lemma_q5_parts(a, b, qh, qs, e);
            assert(e / 8 == k && e % 8 == t);
        }
        lemma_same_bits(a[qh + k], b[qh + k]);
    }
    assert forall|i: int| qs <= i < qs + 16 implies #[trigger] a[i] == b[i] by {
        let j = i - qs;
        assert(q5_code(a, qh, qs, j) == q5_code(b, qh, qs, j));
        assert(q5_code(a, qh, qs, j + 16) == q5_code(b, qh, qs, j + 16));
        lemma_q5_parts(a, b, qh, qs, j);
        lemma_q5_parts(a, b, qh, qs, j + 16);
    }
}

/// A run has one packed form.
pub proof fn law_packed_block_unique(dt: DType, a: Seq<u8>, b: Seq<u8>, x: KvBlock)
    requires
        is_supported(dt),
        is_packed(dt, a, x),
        is_packed(dt, b, x),
    ensures
        a == b,
{
    assert forall|e: int| 0 <= e < 32 implies #[trigger] stored_code(dt, a, e) == stored_code(dt, b, e) by {
        assert(stored_code(dt, a, e) == kv_code(dt, x.q@[e]));
        assert(stored_code(dt, b, e) == kv_code(dt, x.q@[e]));
    }
    let qh = if dt is Q4_1 || dt is Q5_1 {
        4int
    } else {
        2
    };
    assert(forall|i: int| 0 <= i < qh ==> a[i] == b[i]);
    if dt is Q5_0 || dt is Q5_1 {
        assert forall|e: int| 0 <= e < 32 implies #[trigger] q5_code(a, qh, qh + 4, e) == q5_code(b, qh, qh + 4, e) by {
            assert(stored_code(dt, a, e) == stored_code(dt, b, e));
        }
        lemma_same_q5(a, b, qh, qh + 4);
    } else {
        assert forall|i: int| 0 <= i < a.len() implies a[i] == b[i] by {
            if qh <= i {
                let j = i - qh;
                assert(stored_code(dt, a, j) == stored_code(dt, b, j));
                assert(stored_code(dt, a, j + 16) == stored_code(dt, b, j + 16));
                assert(j % 16 == j && (j + 16) % 16 == j);
                assert(nibble_of(a[i], false) == nibble_of(b[i], false));
                assert(nibble_of(a[i], true) == nibble_of(b[i], true));
            }
        }
    }
    assert(a =~= b);
}

/// `blk` is the run packed as signed bytes: the scale, then the low byte of every activation.
pub open spec fn is_packed_q8_0(blk: Seq<u8>, x: KvBlock) -> bool {
    &&& blk.len() == 34
    &&& le16_of(blk, 0) == x.d
    &&& forall|e: int| 0 <= e < 32 ==> signed_of(#[trigger] blk[2 + e]) == x.q@[e] as i8
}

/// The run packed as signed bytes.
pub fn pack_q8_0(x: &KvBlock) -> (out: Vec<u8>)
    ensures
        is_packed_q8_0(out@, *x),
{
    let mut out: Vec<u8> = Vec::new();
    push_half(&mut out, x.d);
    let mut e: usize = 0;
    while e < 32
        invariant
            e <= 32,
            out@.len() == 2 + e,
            le16_of(out@, 0) == x.d,
            forall|i: int| 2 <= i < 2 + e ==> signed_of(#[trigger] out@[i]) == x.q@[i - 2] as i8,
        decreases 32 - e,
    {
        let v: i8 = #[verifier::truncate] (x.q[e] as i8);
        let byte: u8 = #[verifier::truncate] (v as u8);
        assert(0 <= v ==> v as u8 == v) by (bit_vector);
        assert(v < 0 ==> v as u8 == v + 256) by (bit_vector);
        out.push(byte);
        e = e + 1;
    }
    out
}

/// What a cache of signed bytes gives back of element `n`, which lies in block `n / 32`: the scale
/// of the run and the rounded activation, where that fits in a signed byte.
pub proof fn law_q8_0_reads_back(bytes: Seq<u8>, n: int, run: KvBlock)
    requires
        0 <= n,
        34 * (n / 32) + 34 <= bytes.len(),
        is_packed_q8_0(block_of(bytes, 34, n / 32), run),
        -128 <= run.q@[n % 32] <= 127,
    ensures
        le16_of(bytes, 34 * (n / 32)) == run.d,
        signed_of(bytes[34 * (n / 32) + 2 + n % 32]) == run.q@[n % 32],
{
    let b = n / 32;
    let e = n % 32;
    let blk = block_of(bytes, 34, b);
    assert(blk[2 + e] == bytes[34 * b + 2 + e]);
    let v = run.q@[e];
    assert(-128 <= v <= 127 ==> v as i8 == v) by (bit_vector);
}

/// The types that a cache stores in blocks of 32.
pub open spec fn is_block_cache(dt: DType) -> bool {
    dt is Q8_0 || is_supported(dt)
}

/// Those are the types whose caches hold packed blocks.
pub proof fn law_block_caches(dt: DType)
    ensures
        is_block_cache(dt) <==> cache_kind_of(dt) is Blocks,
{
}

/// `blk` is the stored form of `x` in a cache of the given type.
pub open spec fn is_stored(dt: DType, blk: Seq<u8>, x: KvBlock) -> bool {
    if dt is Q8_0 {
        is_packed_q8_0(blk, x)
    } else {
        is_packed(dt, blk, x)
    }
}

/// Block `b` of `bytes` is the stored form of run `b`, for all the runs.
pub open spec fn are_stored(dt: DType, bytes: Seq<u8>, runs: Seq<KvBlock>) -> bool {
    &&& bytes.len() == runs.len() * dt.bytes()
    &&& forall|b: int| 0 <= b < runs.len() ==> is_stored(dt, #[trigger] block_of(bytes, dt.bytes(), b), runs[b])
}

/// The stored form of a list of runs.
pub fn pack_runs(dt: DType, runs: &[KvBlock]) -> (out: Vec<u8>)
    requires
        is_block_cache(dt),
    ensures
        are_stored(dt, out@, runs@),
{
    let mut out: Vec<u8> = Vec::new();
    let ghost bytes = dt.bytes();
    let n: usize = runs.len();
    let mut b: usize = 0;
    while b < n
        invariant
            b <= n,
            n == runs@.len(),
            is_block_cache(dt),
            bytes == dt.bytes(),
            0 < bytes,
            out@.len() == b * bytes,
            forall|k: int| 0 <= k < b ==> is_stored(dt, #[trigger] block_of(out@, bytes, k), runs@[k]),
        decreases n - b,
    {
        let mut blk: Vec<u8> = if matches!(dt, DType::Q8_0) {
            pack_q8_0(&runs[b])
        } else {
            pack_block(dt, &runs[b])
        };
        let ghost one = blk@;
        let ghost before = out@;
        out.append(&mut blk);
        proof {
            assert((b + 1) * bytes == b * bytes + bytes) by (nonlinear_arith);
            assert forall|k: int| 0 <= k < b + 1 implies is_stored(dt, #[trigger] block_of(out@, bytes, k), runs@[k]) by {
                if k < b {
                    assert(0 <= k * bytes && k * bytes + bytes <= b * bytes) by (nonlinear_arith)
                        requires
                            0 <= k,
                            k + 1 <= b,
                            0 < bytes,
                    ;
                    assert(block_of(out@, bytes, k) =~= block_of(before, bytes, k));
                    assert(is_stored(dt, block_of(before, bytes, k), runs@[k]));
                } else {
                    assert(block_of(out@, bytes, k) =~= one);
                }
            }
        }
        b = b + 1;
    }
    out
}

/// Writes `rows` rows of runs into a ring cache of `cap` rows, the first at position `pos`. A row
/// is `row_runs` runs.
pub fn write_kv_runs(
    cache: &mut Vec<u8>,
    dt: DType,
    runs: &[KvBlock],
    row_runs: usize,
    cap: usize,
    pos: usize,
    rows: usize,
)
    requires
        is_block_cache(dt),
        0 < cap,
        row_runs * dt.bytes() <= usize::MAX,
        cap * (row_runs * dt.bytes()) <= old(cache)@.len(),
        rows * row_runs <= runs@.len(),
        pos + rows <= usize::MAX,
        pos % cap + rows <= 2 * cap,
    ensures
        exists|b: Seq<u8>|
            #![trigger are_stored(dt, b, runs@)]
            are_stored(dt, b, runs@) && is_ring_write(
                old(cache)@,
                final(cache)@,
                b,
                row_runs * dt.bytes(),
                cap as int,
                pos as int,
                rows as int,
            ),
{
    let packed: Vec<u8> = pack_runs(dt, runs);
    let bb: usize = dt.block_bytes();
    proof {
        assert(rows * (row_runs * bb) == (rows * row_runs) * bb) by (nonlinear_arith);
        assert((rows * row_runs) * bb <= runs@.len() * bb) by (nonlinear_arith)
            requires
                rows * row_runs <= runs@.len(),
        ;
    }
    write_kv(cache, &packed, row_runs * bb, cap, pos, rows);
    assert(are_stored(dt, packed@, runs@));
}

/// What was written is found: run `b` of source row `i` of a write stands, in its stored form, in
/// the block of the cache row of position `pos + i` that the run's place in its row gives.
pub proof fn law_written_runs_are_found(
    dt: DType,
    old_cache: Seq<u8>,
    new: Seq<u8>,
    packed: Seq<u8>,
    runs: Seq<KvBlock>,
    row_runs: int,
    cap: int,
    pos: int,
    rows: int,
    i: int,
    b: int,
)
    requires
        is_block_cache(dt),
        are_stored(dt, packed, runs),
        rows * row_runs <= runs.len(),
        cap * (row_runs * dt.bytes()) <= new.len(),
        is_ring_write(old_cache, new, packed, row_runs * dt.bytes(), cap, pos, rows),
        0 <= pos,
        0 <= i < rows <= cap,
        0 <= b < row_runs,
    ensures
        is_stored(
            dt,
            block_of(new, dt.bytes(), ring_row_of(cap, pos + i) * row_runs + b),
            runs[i * row_runs + b],
        ),
{
    let bytes = dt.bytes();
    let rs = row_runs * bytes;
    let c = ring_row_of(cap, pos + i);
    lemma_mod_bound(pos + i, cap);
    law_write_lands_at_ring_row(cap, pos, rows, i);
    let src = i * row_runs + b;
    lemma_block_in_rows(row_runs, bytes, i, b, rows);
    lemma_block_in_rows(row_runs, bytes, c, b, cap);
    assert(0 <= src < runs.len()) by {
        assert(i * row_runs + row_runs <= rows * row_runs && 0 <= i * row_runs) by (nonlinear_arith)
            requires
                0 <= i,
                i + 1 <= rows,
                0 <= row_runs,
        ;
    }
    assert(src * bytes + bytes <= runs.len() * bytes) by (nonlinear_arith)
        requires
            src + 1 <= runs.len(),
            0 <= bytes,
    ;
    let there = block_of(new, bytes, c * row_runs + b);
    let here = block_of(packed, bytes, src);
    assert forall|j: int| 0 <= j < bytes implies there[j] == here[j] by {
        let k = b * bytes + j;
        assert(at(new, rs, c, k) == at(packed, rs, i, k));
    }
    assert(there =~= here);
    assert(is_stored(dt, block_of(packed, bytes, src), runs[src]));
}

/// Block `b` of row `c` starts at byte `b * bytes` of that row.
proof fn lemma_block_in_rows(row_runs: int, bytes: int, c: int, b: int, rows: int)
    requires
        0 <= b < row_runs,
        0 < bytes,
        0 <= c < rows,
    ensures
        (c * row_runs + b) * bytes == c * (row_runs * bytes) + b * bytes,
        0 <= b * bytes,
        b * bytes + bytes <= row_runs * bytes,
        0 <= c * (row_runs * bytes),
        c * (row_runs * bytes) + row_runs * bytes <= rows * (row_runs * bytes),
{
    assert((c * row_runs + b) * bytes == c * (row_runs * bytes) + b * bytes) by (nonlinear_arith);
    assert(0 <= b * bytes && b * bytes + bytes <= row_runs * bytes) by (nonlinear_arith)
        requires
            0 <= b,
            b + 1 <= row_runs,
            0 < bytes,
    ;
    let rs = row_runs * bytes;
    assert(0 <= c * rs && c * rs + rs <= rows * rs) by (nonlinear_arith)
        requires
            0 <= c,
            c + 1 <= rows,
            0 <= rs,
    ;
}

/// The low byte of a number, signed and not: it differs from the number by a multiple of 256.
proof fn lemma_low_byte(v: i32)
    ensures
        (v - (v as i8)) % 256 == 0,
        (v - (v as u8)) % 256 == 0,
{
    assert((v - (v as i8)) % 256 == 0 && (v - (v as u8)) % 256 == 0) by (bit_vector);
}

/// What a code becomes: the low byte `w` of the number, kept between 0 and the greatest code, or its
/// lowest bits.
proof fn lemma_kv_code(v: i32, w: int)
    requires
        (v - w) % 256 == 0,
        -128 <= w < 128,
    ensures
        kv_code(DType::Q4_0, v) == (if w < 0 { 0 } else if w > 15 { 15 } else { w }),
        kv_code(DType::Q4_1, v) == (if w < 0 { 0 } else if w > 15 { 15 } else { w }),
        kv_code(DType::Q5_0, v) == (if w < 0 { 0 } else if w > 31 { 31 } else { w }),
        kv_code(DType::Q5_1, v) == w % 32,
        kv_code(DType::Iq4Nl, v) == w % 16,
{
    lemma_low_byte(v);
    assert(v as i8 == w);
    assert((w - (v as u8)) % 256 == 0);
    let u = (v as u8) as int;
    assert(u == w || u == w + 256);
}

/// A packed Q4_0 block is the scale and, of every two codes half a block apart, one byte. A code is the
/// low byte of its number, kept between 0 and 15.
pub proof fn law_q4_0_is_packed(x: &KvBlock, out: Vec<u8>, w: Seq<int>, i: int)
    requires
        call_ensures(pack_block, (DType::Q4_0, x), out),
        w.len() == 32,
        forall|e: int| 0 <= e < 32 ==> (x.q@[e] - #[trigger] w[e]) % 256 == 0 && -128 <= w[e] < 128,
        0 <= i < 16,
    ensures
        out@.len() == 18,
        out@[0] + 256 * out@[1] == x.d,
        out@[2 + i] == (if w[i] < 0 { 0 } else if w[i] > 15 { 15 } else { w[i] })
            + 16 * (if w[i + 16] < 0 { 0 } else if w[i + 16] > 15 { 15 } else { w[i + 16] }),
{
    let blk = out@;
    assert(stored_code(DType::Q4_0, blk, i) == kv_code(DType::Q4_0, x.q@[i]));
    assert(stored_code(DType::Q4_0, blk, i + 16) == kv_code(DType::Q4_0, x.q@[i + 16]));
    lemma_kv_code(x.q@[i], w[i]);
    lemma_kv_code(x.q@[i + 16], w[i + 16]);
    crate::bits::lemma_nibbles_of(blk[2 + i]);
}

/// A packed Q4_1 block is the scale, the min and the codes, packed as those of a Q4_0 block.
pub proof fn law_q4_1_is_packed(x: &KvBlock, out: Vec<u8>, w: Seq<int>, i: int)
    requires
        call_ensures(pack_block, (DType::Q4_1, x), out),
        w.len() == 32,
        forall|e: int| 0 <= e < 32 ==> (x.q@[e] - #[trigger] w[e]) % 256 == 0 && -128 <= w[e] < 128,
        0 <= i < 16,
    ensures
        out@.len() == 20,
        out@[0] + 256 * out@[1] == x.d,
        out@[2] + 256 * out@[3] == x.m,
        out@[4 + i] == (if w[i] < 0 { 0 } else if w[i] > 15 { 15 } else { w[i] })
            + 16 * (if w[i + 16] < 0 { 0 } else if w[i + 16] > 15 { 15 } else { w[i + 16] }),
{
    let blk = out@;
    assert(stored_code(DType::Q4_1, blk, i) == kv_code(DType::Q4_1, x.q@[i]));
    assert(stored_code(DType::Q4_1, blk, i + 16) == kv_code(DType::Q4_1, x.q@[i + 16]));
    lemma_kv_code(x.q@[i], w[i]);
    lemma_kv_code(x.q@[i + 16], w[i + 16]);
    crate::bits::lemma_nibbles_of(blk[4 + i]);
}

/// A packed IQ4_NL block is the scale and the places in the table, packed as the codes of a Q4_0 block;
/// of a number the four lowest bits count.
pub proof fn law_iq4nl_is_packed(x: &KvBlock, out: Vec<u8>, w: Seq<int>, i: int)
    requires
        call_ensures(pack_block, (DType::Iq4Nl, x), out),
        w.len() == 32,
        forall|e: int| 0 <= e < 32 ==> (x.q@[e] - #[trigger] w[e]) % 256 == 0 && -128 <= w[e] < 128,
        0 <= i < 16,
    ensures
        out@.len() == 18,
        out@[0] + 256 * out@[1] == x.d,
        out@[2 + i] == (w[i] % 16) + 16 * (w[i + 16] % 16),
{
    let blk = out@;
    assert(stored_code(DType::Iq4Nl, blk, i) == kv_code(DType::Iq4Nl, x.q@[i]));
    assert(stored_code(DType::Iq4Nl, blk, i + 16) == kv_code(DType::Iq4Nl, x.q@[i + 16]));
    lemma_kv_code(x.q@[i], w[i]);
    lemma_kv_code(x.q@[i + 16], w[i + 16]);
    crate::bits::lemma_nibbles_of(blk[2 + i]);
}

/// A packed Q5_0 block is the scale and the codes, the low byte of each number kept between 0 and 31: four
/// bits of every two codes half a block apart in one byte.
pub proof fn law_q5_0_is_packed(x: &KvBlock, out: Vec<u8>, w: Seq<int>, i: int)
    requires
        call_ensures(pack_block, (DType::Q5_0, x), out),
        w.len() == 32,
        forall|e: int| 0 <= e < 32 ==> (x.q@[e] - #[trigger] w[e]) % 256 == 0 && -128 <= w[e] < 128,
        0 <= i < 16,
    ensures
        out@.len() == 22,
        out@[0] + 256 * out@[1] == x.d,
        out@[6 + i] == (if w[i] < 0 { 0 } else if w[i] > 31 { 31 } else { w[i] }) % 16
            + 16 * ((if w[i + 16] < 0 { 0 } else if w[i + 16] > 31 { 31 } else { w[i + 16] }) % 16),
{
    let blk = out@;
    assert(stored_code(DType::Q5_0, blk, i) == kv_code(DType::Q5_0, x.q@[i]));
    assert(stored_code(DType::Q5_0, blk, i + 16) == kv_code(DType::Q5_0, x.q@[i + 16]));
    lemma_kv_code(x.q@[i], w[i]);
    lemma_kv_code(x.q@[i + 16], w[i + 16]);
    crate::legacy::law_q5_0_block(blk, i, 0, 0);
}

/// The fifth bits of the codes of a Q5_0 block stand one after the other before the nibbles.
pub proof fn law_q5_0_fifth_bits_are_packed(x: &KvBlock, out: Vec<u8>, w: Seq<int>, k: int)
    requires
        call_ensures(pack_block, (DType::Q5_0, x), out),
        w.len() == 32,
        forall|e: int| 0 <= e < 32 ==> (x.q@[e] - #[trigger] w[e]) % 256 == 0 && -128 <= w[e] < 128,
        0 <= k < 4,
    ensures
        out@[2 + k] == ((if w[8 * k] < 0 { 0 } else if w[8 * k] > 31 { 31 } else { w[8 * k] }) / 16)
            + 2 * ((if w[8 * k + 1] < 0 { 0 } else if w[8 * k + 1] > 31 { 31 } else { w[8 * k + 1] }) / 16)
            + 4 * ((if w[8 * k + 2] < 0 { 0 } else if w[8 * k + 2] > 31 { 31 } else { w[8 * k + 2] }) / 16)
            + 8 * ((if w[8 * k + 3] < 0 { 0 } else if w[8 * k + 3] > 31 { 31 } else { w[8 * k + 3] }) / 16)
            + 16 * ((if w[8 * k + 4] < 0 { 0 } else if w[8 * k + 4] > 31 { 31 } else { w[8 * k + 4] }) / 16)
            + 32 * ((if w[8 * k + 5] < 0 { 0 } else if w[8 * k + 5] > 31 { 31 } else { w[8 * k + 5] }) / 16)
            + 64 * ((if w[8 * k + 6] < 0 { 0 } else if w[8 * k + 6] > 31 { 31 } else { w[8 * k + 6] }) / 16)
            + 128 * ((if w[8 * k + 7] < 0 { 0 } else if w[8 * k + 7] > 31 { 31 } else { w[8 * k + 7] }) / 16),
{
    let blk = out@;
    crate::legacy::law_q5_0_fifth_bits(blk, k);
    assert(stored_code(DType::Q5_0, blk, 8 * k) == kv_code(DType::Q5_0, x.q@[8 * k]));
    lemma_kv_code(x.q@[8 * k], w[8 * k]);
    assert(stored_code(DType::Q5_0, blk, 8 * k + 1) == kv_code(DType::Q5_0, x.q@[8 * k + 1]));
    lemma_kv_code(x.q@[8 * k + 1], w[8 * k + 1]);
    assert(stored_code(DType::Q5_0, blk, 8 * k + 2) == kv_code(DType::Q5_0, x.q@[8 * k + 2]));
    lemma_kv_code(x.q@[8 * k + 2], w[8 * k + 2]);
    assert(stored_code(DType::Q5_0, blk, 8 * k + 3) == kv_code(DType::Q5_0, x.q@[8 * k + 3]));
    lemma_kv_code(x.q@[8 * k + 3], w[8 * k + 3]);
    assert(stored_code(DType::Q5_0, blk, 8 * k + 4) == kv_code(DType::Q5_0, x.q@[8 * k + 4]));
    lemma_kv_code(x.q@[8 * k + 4], w[8 * k + 4]);
    assert(stored_code(DType::Q5_0, blk, 8 * k + 5) == kv_code(DType::Q5_0, x.q@[8 * k + 5]));
    lemma_kv_code(x.q@[8 * k + 5], w[8 * k + 5]);
    assert(stored_code(DType::Q5_0, blk, 8 * k + 6) == kv_code(DType::Q5_0, x.q@[8 * k + 6]));
    lemma_kv_code(x.q@[8 * k + 6], w[8 * k + 6]);
    assert(stored_code(DType::Q5_0, blk, 8 * k + 7) == kv_code(DType::Q5_0, x.q@[8 * k + 7]));
    lemma_kv_code(x.q@[8 * k + 7], w[8 * k + 7]);
}

/// A packed Q5_1 block is the scale, the min and the five lowest bits of each number: four bits of every
/// two codes half a block apart in one byte.
pub proof fn law_q5_1_is_packed(x: &KvBlock, out: Vec<u8>, w: Seq<int>, i: int)
    requires
        call_ensures(pack_block, (DType::Q5_1, x), out),
        w.len() == 32,
        forall|e: int| 0 <= e < 32 ==> (x.q@[e] - #[trigger] w[e]) % 256 == 0 && -128 <= w[e] < 128,
        0 <= i < 16,
    ensures
        out@.len() == 24,
        out@[0] + 256 * out@[1] == x.d,
        out@[2] + 256 * out@[3] == x.m,
        out@[8 + i] == (w[i] % 32) % 16 + 16 * ((w[i + 16] % 32) % 16),
{
    let blk = out@;
    assert(stored_code(DType::Q5_1, blk, i) == kv_code(DType::Q5_1, x.q@[i]));
    assert(stored_code(DType::Q5_1, blk, i + 16) == kv_code(DType::Q5_1, x.q@[i + 16]));
    lemma_kv_code(x.q@[i], w[i]);
    lemma_kv_code(x.q@[i + 16], w[i + 16]);
    crate::legacy::law_q5_1_block(blk, i, 0, 0);
}

/// The fifth bits of the codes of a Q5_1 block stand one after the other before the nibbles.
pub proof fn law_q5_1_fifth_bits_are_packed(x: &KvBlock, out: Vec<u8>, w: Seq<int>, k: int)
    requires
        call_ensures(pack_block, (DType::Q5_1, x), out),
        w.len() == 32,
        forall|e: int| 0 <= e < 32 ==> (x.q@[e] - #[trigger] w[e]) % 256 == 0 && -128 <= w[e] < 128,
        0 <= k < 4,
    ensures
        out@[4 + k] == ((w[8 * k] % 32) / 16) + 2 * ((w[8 * k + 1] % 32) / 16) + 4 * ((w[8 * k + 2] % 32) / 16)
            + 8 * ((w[8 * k + 3] % 32) / 16) + 16 * ((w[8 * k + 4] % 32) / 16) + 32 * ((w[8 * k + 5] % 32) / 16)
            + 64 * ((w[8 * k + 6] % 32) / 16) + 128 * ((w[8 * k + 7] % 32) / 16),
{
    let blk = out@;
    crate::legacy::law_q5_1_fifth_bits(blk, k);
    assert(stored_code(DType::Q5_1, blk, 8 * k) == kv_code(DType::Q5_1, x.q@[8 * k]));
    lemma_kv_code(x.q@[8 * k], w[8 * k]);
    assert(stored_code(DType::Q5_1, blk, 8 * k + 1) == kv_code(DType::Q5_1, x.q@[8 * k + 1]));
    lemma_kv_code(x.q@[8 * k + 1], w[8 * k + 1]);
    assert(stored_code(DType::Q5_1, blk, 8 * k + 2) == kv_code(DType::Q5_1, x.q@[8 * k + 2]));
    lemma_kv_code(x.q@[8 * k + 2], w[8 * k + 2]);
    assert(stored_code(DType::Q5_1, blk, 8 * k + 3) == kv_code(DType::Q5_1, x.q@[8 * k + 3]));
    lemma_kv_code(x.q@[8 * k + 3], w[8 * k + 3]);
    assert(stored_code(DType::Q5_1, blk, 8 * k + 4) == kv_code(DType::Q5_1, x.q@[8 * k + 4]));
    lemma_kv_code(x.q@[8 * k + 4], w[8 * k + 4]);
    assert(stored_code(DType::Q5_1, blk, 8 * k + 5) == kv_code(DType::Q5_1, x.q@[8 * k + 5]));
    lemma_kv_code(x.q@[8 * k + 5], w[8 * k + 5]);
    assert(stored_code(DType::Q5_1, blk, 8 * k + 6) == kv_code(DType::Q5_1, x.q@[8 * k + 6]));
    lemma_kv_code(x.q@[8 * k + 6], w[8 * k + 6]);
    assert(stored_code(DType::Q5_1, blk, 8 * k + 7) == kv_code(DType::Q5_1, x.q@[8 * k + 7]));
    lemma_kv_code(x.q@[8 * k + 7], w[8 * k + 7]);
}

/// A packed Q8_0 block is the scale and the low byte of every number.
pub proof fn law_q8_0_is_packed(x: &KvBlock, out: Vec<u8>, e: int)
    requires
        call_ensures(pack_q8_0, (x,), out),
        0 <= e < 32,
    ensures
        out@.len() == 34,
        out@[0] + 256 * out@[1] == x.d,
        (x.q@[e] - out@[2 + e]) % 256 == 0,
{
    lemma_low_byte(x.q@[e]);
    assert(signed_of(out@[2 + e]) == x.q@[e] as i8);
}

/// What is packed is read back: a block gives its scale, and every code that is in range.
pub proof fn law_packed_block_reads_back(dt: DType, x: &KvBlock, out: Vec<u8>, e: int)
    requires
        call_ensures(pack_block, (dt, x), out),
        0 <= e < 32,
        0 <= x.q@[e] < 16,
    ensures
        dt is Q4_0 ==> Q4_0.d(out@, 0) == x.d && Q4_0.code(out@, e) == x.q@[e],
        dt is Q4_1 ==> Q4_1.d(out@, 0) == x.d && Q4_1.aux(out@, 0) == x.m && Q4_1.code(out@, e) == x.q@[e],
        dt is Q5_0 ==> Q5_0.d(out@, 0) == x.d && Q5_0.code(out@, e) == x.q@[e],
        dt is Q5_1 ==> Q5_1.d(out@, 0) == x.d && Q5_1.aux(out@, 0) == x.m && Q5_1.code(out@, e) == x.q@[e],
{
    if is_supported(dt) {
        law_in_range_codes_survive(dt, x.q@[e]);
        assert(stored_code(dt, out@, e) == kv_code(dt, x.q@[e]));
    }
}

/// A row is its blocks packed one after the other; what stands behind them stays.
pub proof fn law_row_is_packed_blocks(
    dt: DType,
    src: &[KvBlock],
    dst: &mut Vec<u8>,
    one: Vec<u8>,
    bytes: usize,
    b: int,
    i: int,
    k: int,
)
    requires
        is_supported(dt),
        call_ensures(quantize_row, (dt, src, dst), ()),
        call_ensures(DType::block_bytes, (dt,), bytes),
        src@.len() * bytes <= old(dst)@.len(),
        0 <= b < src@.len(),
        call_ensures(pack_block, (dt, &src@[b]), one),
        0 <= i < bytes,
    ensures
        final(dst)@.len() == old(dst)@.len(),
        final(dst)@[b * bytes + i] == one@[i],
        src@.len() * bytes <= k < old(dst)@.len() ==> final(dst)@[k] == old(dst)@[k],
{
    assert(0 <= b * bytes && b * bytes + bytes <= src@.len() * bytes) by (nonlinear_arith)
        requires
            0 <= b,
            b + 1 <= src@.len(),
    ;
    let blk = block_of(final(dst)@, dt.bytes(), b);
    law_packed_block_unique(dt, blk, one@, src@[b]);
    assert(blk[i] == final(dst)@[b * bytes + i]);
}

/// The stored form of a list of runs is that of each run, one after the other.
pub proof fn law_runs_are_packed_in_order(
    dt: DType,
    runs: &[KvBlock],
    out: Vec<u8>,
    bytes: usize,
    one: Vec<u8>,
    eight: Vec<u8>,
    b: int,
    i: int,
)
    requires
        is_block_cache(dt),
        call_ensures(pack_runs, (dt, runs), out),
        call_ensures(DType::block_bytes, (dt,), bytes),
        0 <= b < runs@.len(),
        !(dt is Q8_0) ==> call_ensures(pack_block, (dt, &runs@[b]), one),
        dt is Q8_0 ==> call_ensures(pack_q8_0, (&runs@[b],), eight),
        0 <= i < bytes,
    ensures
        out@.len() == runs@.len() * bytes,
        !(dt is Q8_0) ==> out@[b * bytes + i] == one@[i],
        dt is Q8_0 ==> out@[b * bytes + i] == eight@[i],
{
    assert(0 <= b * bytes && b * bytes + bytes <= runs@.len() * bytes) by (nonlinear_arith)
        requires
            0 <= b,
            b + 1 <= runs@.len(),
    ;
    let blk = block_of(out@, dt.bytes(), b);
    assert(is_stored(dt, blk, runs@[b]));
    assert(blk[i] == out@[b * bytes + i]);
    if dt is Q8_0 {
        lemma_q8_0_unique(blk, eight@, runs@[b]);
    } else {
        law_packed_block_unique(dt, blk, one@, runs@[b]);
    }
}

/// A run has one Q8_0 block.
proof fn lemma_q8_0_unique(a: Seq<u8>, b: Seq<u8>, x: KvBlock)
    requires
        is_packed_q8_0(a, x),
        is_packed_q8_0(b, x),
    ensures
        a == b,
{
    assert forall|i: int| 0 <= i < 34 implies a[i] == b[i] by {
        if 2 <= i {
            let e = i - 2;
            assert(signed_of(a[2 + e]) == x.q@[e] as i8);
            assert(signed_of(b[2 + e]) == x.q@[e] as i8);
        }
    }
    assert(a =~= b);
}

/// What is written to a cache of blocks: run `b` of source row `s` stands in its place of the row of
/// position `pos + s`, in its stored form.
pub proof fn law_cache_runs(
    cache: &mut Vec<u8>,
    dt: DType,
    runs: &[KvBlock],
    row_runs: usize,
    cap: usize,
    pos: usize,
    rows: usize,
    bytes: usize,
    one: Vec<u8>,
    eight: Vec<u8>,
    s: int,
    turns: int,
    c: int,
    b: int,
    i: int,
)
    requires
        is_block_cache(dt),
        call_ensures(write_kv_runs, (cache, dt, runs, row_runs, cap, pos, rows), ()),
        call_ensures(DType::block_bytes, (dt,), bytes),
        rows * row_runs <= runs@.len(),
        cap * (row_runs * bytes) <= old(cache)@.len(),
        0 <= s < rows <= cap,
        0 <= b < row_runs,
        0 <= c < cap,
        pos + s == turns * cap + c,
        !(dt is Q8_0) ==> call_ensures(pack_block, (dt, &runs@[s * row_runs + b]), one),
        dt is Q8_0 ==> call_ensures(pack_q8_0, (&runs@[s * row_runs + b],), eight),
        0 <= i < bytes,
    ensures
        final(cache)@.len() == old(cache)@.len(),
        !(dt is Q8_0) ==> final(cache)@[(c * row_runs + b) * bytes + i] == one@[i],
        dt is Q8_0 ==> final(cache)@[(c * row_runs + b) * bytes + i] == eight@[i],
{
    let packed = choose|p: Seq<u8>|
        #![trigger are_stored(dt, p, runs@)]
        are_stored(dt, p, runs@) && is_ring_write(
            old(cache)@,
            final(cache)@,
            p,
            row_runs * dt.bytes(),
            cap as int,
            pos as int,
            rows as int,
        );
    let n = bytes as int;
    let rs = row_runs * n;
    vstd::arithmetic::div_mod::lemma_fundamental_div_mod_converse(pos + s, cap as int, turns, c);
    crate::kv::law_write_lands_at_ring_row(cap as int, pos as int, rows as int, s);
    lemma_block_in_rows(row_runs as int, n, c, b, cap as int);
    lemma_block_in_rows(row_runs as int, n, s, b, rows as int);
    let j = b * n + i;
    assert(at(final(cache)@, rs, c, j) == at(packed, rs, s, j));
    let run = s * row_runs + b;
    assert(0 <= run < runs@.len()) by (nonlinear_arith)
        requires
            run == s * row_runs + b,
            0 <= s,
            s + 1 <= rows,
            0 <= b < row_runs,
            rows * row_runs <= runs@.len(),
    ;
    assert(run * n + n <= runs@.len() * n && 0 <= run * n) by (nonlinear_arith)
        requires
            0 <= run,
            run + 1 <= runs@.len(),
            0 <= n,
    ;
    let blk = block_of(packed, dt.bytes(), run);
    assert(is_stored(dt, blk, runs@[run]));
    assert(blk[i] == packed[run * n + i]);
    if dt is Q8_0 {
        lemma_q8_0_unique(blk, eight@, runs@[run]);
    } else {
        law_packed_block_unique(dt, blk, one@, runs@[run]);
    }
}

/// Rows can be packed to the four- and five-bit types and to the table type.
pub proof fn law_supported(dt: DType, r: bool)
    requires
        call_ensures(supported, (dt,), r),
    ensures
        r <==> dt is Q4_0 || dt is Q4_1 || dt is Q5_0 || dt is Q5_1 || dt is Iq4Nl,
{
}

} // verus!
