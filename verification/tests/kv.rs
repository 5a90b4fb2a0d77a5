//! The key/value cache: packed blocks, ring writes, attention ranges.
use half::f16;
use infr_cpu::bytes::{write_kv_halves, write_kv_words};
use infr_cpu::dtype::DType;
use infr_cpu::kv::{
    attn_range, cache_kind, cap_rows, dequant_prefix_q8_0, head_plan, key_at, key_places, kv_need, read_heads, ring_row, write_kv,
    write_segments, AttnMask, CacheKind,
};
use infr_cpu::kvquant::{pack_block, pack_q8_0, pack_runs, quantize_row, supported, write_kv_runs, KvBlock};
use infr_cpu::select::{abs_max, bracket, order_key, Bracket};

const QK: usize = 32;
const KVALUES_IQ4NL: [i8; 16] = [-127, -104, -83, -65, -49, -35, -22, -10, 1, 13, 25, 38, 53, 69, 89, 113];

fn half_of(x: f32) -> u16 {
    f16::from_f32(x).to_bits()
}

fn bits(x: &[f32]) -> Vec<u32> {
    x.iter().map(|v| v.to_bits()).collect()
}

/// The nearest table index of a value that is not a NaN.
fn best_index(x: f32) -> usize {
    let table: Vec<i64> = KVALUES_IQ4NL.iter().map(|&v| order_key((v as f32).to_bits())).collect();
    match bracket(&table, order_key(x.to_bits())) {
        Bracket::Low => 0,
        Bracket::High => 15,
        Bracket::Between { mu } => {
            if x - (KVALUES_IQ4NL[mu - 1] as f32) < KVALUES_IQ4NL[mu] as f32 - x {
                mu - 1
            } else {
                mu
            }
        }
    }
}

/// Scales and rounds a run of activations for a cache type.
fn run_of(dt: DType, x: &[f32]) -> KvBlock {
    let mut q = [0i32; 32];
    let max = f32::from_bits(abs_max(&bits(x)));
    let inv = |d: f32| if d != 0.0 { 1.0 / d } else { 0.0 };
    match dt {
        DType::Q4_0 | DType::Q5_0 => {
            let half = if dt == DType::Q4_0 { 8.0f32 } else { 16.0 };
            let d = max / -half;
            let id = inv(d);
            for (q, &v) in q.iter_mut().zip(x) {
                *q = (v * id + half + 0.5) as i32;
            }
            KvBlock { d: half_of(d), m: 0, q }
        }
        DType::Q4_1 | DType::Q5_1 => {
            let top = if dt == DType::Q4_1 { 15.0f32 } else { 31.0 };
            let min = x.iter().fold(f32::MAX, |m, &v| m.min(v));
            let mx = x.iter().fold(f32::MIN, |m, &v| m.max(v));
            let d = (mx - min) / top;
            let id = inv(d);
            for (q, &v) in q.iter_mut().zip(x) {
                *q = ((v - min) * id + 0.5) as i32;
            }
            KvBlock { d: half_of(d), m: half_of(min), q }
        }
        DType::Q8_0 => {
            let d = max.abs() / 127.0;
            let id = inv(d);
            for (q, &v) in q.iter_mut().zip(x) {
                *q = (v * id).round_ties_even() as i32;
            }
            KvBlock { d: half_of(d), m: 0, q }
        }
        _ => {
            let mut d = 0f32;
            if max.abs() >= 1e-15 {
                let id = 1.0 / (max / KVALUES_IQ4NL[0] as f32);
                let (mut sumqx, mut sumq2) = (0f32, 0f32);
                for (q, &v) in q.iter_mut().zip(x) {
                    let li = best_index(id * v);
                    *q = li as i32;
                    let (k, w) = (KVALUES_IQ4NL[li] as f32, v * v);
                    sumqx += w * k * v;
                    sumq2 += w * k * k;
                }
                d = if sumq2 > 0.0 { sumqx / sumq2 } else { 0.0 };
            }
            KvBlock { d: half_of(d), m: 0, q }
        }
    }
}

/// The numbers that a packed block stands for.
fn dequant(dt: DType, b: &[u8]) -> Vec<f32> {
    let d = f16::from_le_bytes([b[0], b[1]]).to_f32();
    let m = f16::from_le_bytes([b[2], b[3]]).to_f32();
    let nib = |qs: &[u8], j: usize| if j < 16 { qs[j] & 0xf } else { qs[j - 16] >> 4 };
    let fifth = |qh: &[u8], j: usize| ((qh[j / 8] >> (j % 8)) & 1) << 4;
    (0..QK)
        .map(|j| match dt {
            DType::Q4_0 => d * (nib(&b[2..], j) as f32 - 8.0),
            DType::Q4_1 => d * nib(&b[4..], j) as f32 + m,
            DType::Q5_0 => d * ((nib(&b[6..], j) | fifth(&b[2..], j)) as f32 - 16.0),
            DType::Q5_1 => d * (nib(&b[8..], j) | fifth(&b[4..], j)) as f32 + m,
            _ => d * KVALUES_IQ4NL[nib(&b[2..], j) as usize] as f32,
        })
        .collect()
}

/// Packing a run and reading it back recovers it within the tolerance of the format.
#[test]
fn quantize_dequant_roundtrip() {
    let mut s: u64 = 0xC0FFEE;
    let mut rnd = || {
        s = s
            .wrapping_mul(6364136223846793005)
            .wrapping_add(1442695040888963407);
        ((s >> 33) as f32 / (1u32 << 31) as f32) - 1.0
    };
    let mut src = [0f32; QK];
    for v in src.iter_mut() {
        *v = (rnd() + rnd() + rnd()) * 4.0;
    }
    for (dt, tol) in [
        (DType::Q4_0, 0.10),
        (DType::Q4_1, 0.09),
        (DType::Q5_0, 0.05),
        (DType::Q5_1, 0.05),
        (DType::Iq4Nl, 0.08),
    ] {
        let mut blk = vec![0u8; dt.block_bytes()];
        quantize_row(dt, &[run_of(dt, &src)], &mut blk);
        let got = dequant(dt, &blk);
        let (mut num, mut den) = (0f32, 0f32);
        for i in 0..QK {
            num += (got[i] - src[i]).powi(2);
            den += src[i].powi(2);
        }
        let rel = (num / den).sqrt();
        assert!(rel < tol, "{dt:?} rel L2 err {rel} >= {tol}");
    }
}

#[test]
fn supported_types_are_the_five_low_bit_ones() {
    let yes = [DType::Q4_0, DType::Q4_1, DType::Q5_0, DType::Q5_1, DType::Iq4Nl];
    for dt in yes {
        assert!(supported(dt));
        assert_eq!(cache_kind(dt), CacheKind::Blocks);
    }
    for dt in [DType::F32, DType::F16, DType::Bf16, DType::Q2_0, DType::Q4K, DType::Mxfp4, DType::Turbo3] {
        assert!(!supported(dt));
        assert_ne!(cache_kind(dt), CacheKind::Blocks);
    }
    assert!(!supported(DType::Q8_0));
    assert_eq!(cache_kind(DType::Q8_0), CacheKind::Blocks);
    assert_eq!(cache_kind(DType::F16), CacheKind::Half);
    assert_eq!(cache_kind(DType::Bf16), CacheKind::Brain);
    assert_eq!(cache_kind(DType::Turbo2), CacheKind::Rotated);
    assert_eq!(cache_kind(DType::F32), CacheKind::Plain);
}

/// Codes outside a format's range: the signed formats clamp the low byte, the others keep its low
/// bits.
#[test]
fn packed_codes_clamp_or_wrap() {
    let mut x = KvBlock { d: 0x3c00, m: 0x4000, q: [0; 32] };
    x.q[0] = 15;
    x.q[1] = 16;
    x.q[2] = -1;
    x.q[16] = 200;
    let b = pack_block(DType::Q4_0, &x);
    assert_eq!(b.len(), 18);
    assert_eq!(&b[..5], &[0x00, 0x3c, 0x0f, 0x0f, 0x00]);
    let b = pack_block(DType::Q4_1, &x);
    assert_eq!(&b[..6], &[0x00, 0x3c, 0x00, 0x40, 0x0f, 0x0f]);
    let b = pack_block(DType::Q5_0, &x);
    assert_eq!(&b[..9], &[0x00, 0x3c, 0b10, 0, 0, 0, 0x0f, 0x00, 0x00]);
    let b = pack_block(DType::Q5_1, &x);
    assert_eq!(&b[4..11], &[0b110, 0, 0, 0, 0x8f, 0x00, 0x0f]);
    let b = pack_block(DType::Iq4Nl, &x);
    assert_eq!(&b[2..5], &[0x8f, 0x00, 0x0f]);
}

#[test]
fn packing_leaves_the_bytes_behind_alone() {
    let x = KvBlock { d: 1, m: 2, q: [3; 32] };
    let mut dst = vec![0xaau8; 2 * 18 + 5];
    quantize_row(DType::Q4_0, &[x, x], &mut dst);
    assert_eq!(&dst[..18], pack_block(DType::Q4_0, &x).as_slice());
    assert_eq!(&dst[18..36], pack_block(DType::Q4_0, &x).as_slice());
    assert_eq!(&dst[36..], &[0xaa; 5]);
    assert_eq!(pack_runs(DType::Q4_0, &[x, x]), dst[..36].to_vec());
}

#[test]
fn signed_bytes_read_back() {
    let src: Vec<f32> = (0..64).map(|i| (i as f32 - 31.5) / 7.0).collect();
    let runs: Vec<KvBlock> = src.chunks(32).map(|c| run_of(DType::Q8_0, c)).collect();
    let bytes = pack_runs(DType::Q8_0, &runs);
    assert_eq!(bytes.len(), 68);
    assert_eq!(bytes[..34].to_vec(), pack_q8_0(&runs[0]));
    let got = dequant_prefix_q8_0(&bytes, 40);
    assert_eq!(got.len(), 40);
    for (i, &(d, q)) in got.iter().enumerate() {
        assert_eq!(d, runs[i / 32].d);
        assert_eq!(q as i32, runs[i / 32].q[i % 32]);
        assert!((f16::from_bits(d).to_f32() * q as f32 - src[i]).abs() < 0.03);
    }
    assert!(dequant_prefix_q8_0(&bytes, 0).is_empty());
    let wide = KvBlock { d: 0, m: 0, q: [130; 32] };
    assert_eq!(dequant_prefix_q8_0(&pack_q8_0(&wide), 1), vec![(0, -126)]);
}

#[test]
fn ring_writes_wrap() {
    assert_eq!((ring_row(4, 6), ring_row(0, 6)), (2, 6));
    let (a, b) = write_segments(4, 6, 3);
    assert_eq!((a.src, a.dst, a.n, b.src, b.dst, b.n), (0, 2, 2, 2, 0, 1));
    let (a, b) = write_segments(4, 5, 2);
    assert_eq!((a.src, a.dst, a.n, b.n), (0, 1, 2, 0));
    let mut cache = vec![0u32; 8];
    write_kv(&mut cache, &[10, 11, 20, 21, 30, 31], 2, 4, 6, 3);
    assert_eq!(cache, vec![30, 31, 0, 0, 10, 11, 20, 21]);
}

/// Whatever the lengths of the writes, the ring holds the last rows, each in the row of its
/// position.
#[test]
fn ring_holds_the_last_rows() {
    let (cap, rs) = (5usize, 3usize);
    let mut cache = vec![0u32; cap * rs];
    let mut written: Vec<u32> = Vec::new();
    for rows in [2usize, 5, 1, 4, 3, 3, 5] {
        let pos = written.len() / rs;
        let src: Vec<u32> = (0..rows * rs).map(|i| (pos * rs + i) as u32 + 100).collect();
        write_kv(&mut cache, &src, rs, cap, pos, rows);
        written.extend(&src);
        let total = written.len() / rs;
        for p in total.saturating_sub(cap)..total {
            for j in 0..rs {
                assert_eq!(cache[ring_row(cap, p) * rs + j], written[p * rs + j]);
            }
        }
    }
}

#[test]
fn ring_caches_of_numbers() {
    let (rs, cap) = (2usize, 3usize);
    let mut cache = vec![0u8; cap * rs * 4];
    write_kv_words(&mut cache, &[1, 2, 3, 0x01020304], rs, cap, 2, 2);
    let want: Vec<u8> = [3u32, 0x01020304, 0, 0, 1, 2].iter().flat_map(|w| w.to_ne_bytes()).collect();
    assert_eq!(cache, want);
    let mut cache = vec![0u8; cap * rs * 2];
    write_kv_halves(&mut cache, &[1, 2, 3, 0x0102], rs, cap, 2, 2);
    let want: Vec<u8> = [3u16, 0x0102, 0, 0, 1, 2].iter().flat_map(|w| w.to_ne_bytes()).collect();
    assert_eq!(cache, want);
}

#[test]
fn ring_caches_of_blocks() {
    let run = |v: i32| KvBlock { d: v as u16, m: 0, q: [v; 32] };
    let mut cache = vec![0u8; 2 * 2 * 18];
    write_kv_runs(&mut cache, DType::Q4_0, &[run(1), run(2), run(3), run(4)], 2, 2, 1, 2);
    let want = pack_runs(DType::Q4_0, &[run(3), run(4), run(1), run(2)]);
    assert_eq!(cache, want);
    let mut cache = vec![0u8; 34];
    write_kv_runs(&mut cache, DType::Q8_0, &[run(-7)], 1, 1, 9, 1);
    assert_eq!(cache, pack_q8_0(&run(-7)));
}

#[test]
fn attention_ranges() {
    assert_eq!(attn_range(AttnMask::Causal, 99, 4), (0, 5));
    assert_eq!(attn_range(AttnMask::SlidingWindow(3), 99, 4), (2, 5));
    assert_eq!(attn_range(AttnMask::SlidingWindow(8), 99, 4), (0, 5));
    assert_eq!(attn_range(AttnMask::SlidingWindow(0), 99, 4), (0, 5));
    assert_eq!(attn_range(AttnMask::Canvas { lo: 7 }, 99, 4), (7, 99));
}

#[test]
fn attention_places() {
    let p = head_plan(11, 4, 2, 8, 100);
    assert_eq!((p.row, p.head, p.kv_head, p.q_at, p.abs), (2, 3, 1, 88, 102));
    assert_eq!(key_at(4, 6, 2, 1, 8), (2 * 2 + 1) * 8);
    assert_eq!(key_at(0, 6, 2, 1, 8), (6 * 2 + 1) * 8);
    assert_eq!((cap_rows(50, 8), cap_rows(50, 0)), (6, 50));
    assert_eq!((kv_need(3, 5, 10), kv_need(9, 5, 10)), (30, 50));
}

#[test]
fn a_cache_with_room_is_written_in_place() {
    let (a, b) = write_segments(8, 3, 5);
    assert_eq!((a.src, a.dst, a.n, b.n), (0, 3, 5, 0));
    let mut cache = vec![0u8; 8];
    write_kv(&mut cache, &[7, 8], 1, 8, 6, 2);
    assert_eq!(cache, vec![0, 0, 0, 0, 0, 0, 7, 8]);
}

/// A ring with room for the window and the rows of a write: every query reads, through the ring,
/// the rows that a full cache would give it.
#[test]
fn window_reads_are_exact() {
    let (window, ubatch, rs) = (4usize, 3usize, 2usize);
    let cap = window + ubatch - 1;
    let mut ring = vec![0u32; cap * rs];
    let mut full: Vec<u32> = Vec::new();
    for rows in [3usize, 1, 3, 2, 3, 3] {
        let pos = full.len() / rs;
        let src: Vec<u32> = (0..rows * rs).map(|i| (pos * rs + i) as u32 + 7).collect();
        write_kv(&mut ring, &src, rs, cap, pos, rows);
        full.extend(&src);
        let kv_len = full.len() / rs;
        for abs in pos..pos + rows {
            let (lo, hi) = attn_range(AttnMask::SlidingWindow(window), kv_len, abs);
            assert!(hi - lo <= window && lo <= abs && abs < hi);
            let places = key_places(lo, hi, kv_len, cap, 1, 0, rs);
            assert_eq!(places.len(), hi - lo);
            for (k, &at) in places.iter().enumerate() {
                assert!(at + rs <= kv_need(kv_len, cap, rs));
                assert_eq!(&ring[at..at + rs], &full[(lo + k) * rs..(lo + k + 1) * rs]);
            }
        }
    }
}

#[test]
fn codes_in_range_survive() {
    for (dt, top) in [(DType::Q4_0, 15), (DType::Q4_1, 15), (DType::Q5_0, 31), (DType::Q5_1, 31), (DType::Iq4Nl, 15)] {
        let mut x = KvBlock { d: 0x3c00, m: 0, q: [0; 32] };
        for (i, q) in x.q.iter_mut().enumerate() {
            *q = (i as i32 * 7 + 3) % (top + 1);
        }
        let b = pack_block(dt, &x);
        let (qh, qs) = match dt {
            DType::Q4_0 | DType::Iq4Nl => (0, 2),
            DType::Q4_1 => (0, 4),
            DType::Q5_0 => (2, 6),
            _ => (4, 8),
        };
        for j in 0..32 {
            let low = if j < 16 { b[qs + j] & 0xf } else { b[qs + j - 16] >> 4 };
            let high = if qh > 0 { (b[qh + j / 8] >> (j % 8)) & 1 } else { 0 };
            assert_eq!((low | high << 4) as i32, x.q[j]);
        }
    }
}

/// Whatever stands outside the mask, a query is handed the same keys.
#[test]
fn masked_keys_are_not_read() {
    let (n_kv, hd, kv_len, cap) = (2usize, 3usize, 7usize, 8usize);
    let rs = n_kv * hd;
    let full: Vec<u32> = (0..(cap * rs) as u32).collect();
    for mask in [AttnMask::Causal, AttnMask::SlidingWindow(3), AttnMask::Canvas { lo: 2 }] {
        for abs in 0..kv_len {
            let (lo, hi) = attn_range(mask, kv_len, abs);
            let mut other = vec![u32::MAX; cap * rs];
            other[lo * rs..hi * rs].copy_from_slice(&full[lo * rs..hi * rs]);
            for kv_head in 0..n_kv {
                let places = key_places(lo, hi, kv_len, cap, n_kv, kv_head, hd);
                let keys = read_heads(&full, &places, hd);
                assert_eq!(keys, read_heads(&other, &places, hd));
                assert_eq!(keys.len(), hi - lo);
                let first = ((lo * n_kv + kv_head) * hd) as u32;
                assert_eq!(keys[0], vec![first, first + 1, first + 2]);
            }
        }
    }
}

/// Once the ring is full, every row of it can be read, also by a query behind the written positions.
#[test]
fn a_full_ring_is_read_on() {
    let (cap, rs) = (4usize, 2usize);
    let ring: Vec<u32> = (0..(cap * rs) as u32).collect();
    let (lo, hi) = attn_range(AttnMask::SlidingWindow(3), 4, 5);
    assert_eq!((lo, hi), (3, 6));
    let places = key_places(lo, hi, 4, cap, 1, 0, rs);
    assert_eq!(places, vec![6, 0, 2]);
    assert_eq!(read_heads(&ring, &places, rs), vec![vec![6, 7], vec![0, 1], vec![2, 3]]);
    assert!(key_places(4, 4, 4, 0, 1, 0, rs).is_empty());
}
