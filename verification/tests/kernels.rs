//! The dot kernels: against an element-by-element reference, against the formulas of each format,
//! and one entry point against another.
use half::f16;
use infr_cpu::backend::{CpuBackend, CpuBuffer};
use infr_cpu::bytes::{read_words, write_words};
use infr_cpu::codebook::{Iq4Nl, Iq4Xs, Mxfp4, Nvfp4};
use infr_cpu::dispatch::{linear_route, ActsKind, Tables};
use infr_cpu::dtype::DType;
use infr_cpu::format::Term;
use infr_cpu::gemm::{linear_blk32, linear_super};
use infr_cpu::grid::{Iq1M, Iq1S, Iq2S, Iq2Xs, Iq2Xxs, Iq3S, Iq3Xxs};
use infr_cpu::kquants::Q4K;
use infr_cpu::linear::weight_window;
use infr_cpu::ops::transpose;
use infr_cpu::quant::{Q8, Q8x32};
use infr_cpu::rowdot::{decode_row, Decoded};
use infr_cpu::{batch, kernels};

const KVALUES_IQ4NL: [i8; 16] = [-127, -104, -83, -65, -49, -35, -22, -10, 1, 13, 25, 38, 53, 69, 89, 113];
const KVALUES_MXFP4: [i8; 16] = [0, 1, 2, 3, 4, 6, 8, 12, 0, -1, -2, -3, -4, -6, -8, -12];
const IQ1S_DELTA: f32 = 0.125;

fn lcg(seed: &mut u64) -> u64 {
    *seed = seed
        .wrapping_mul(6364136223846793005)
        .wrapping_add(1442695040888963407);
    *seed
}

fn det_bytes(n: usize, mut seed: u64) -> Vec<u8> {
    (0..n).map(|_| (lcg(&mut seed) >> 33) as u8).collect()
}

fn det_x(n: usize, mut seed: u64) -> Vec<f32> {
    (0..n)
        .map(|_| ((lcg(&mut seed) >> 40) as f32 / (1u64 << 24) as f32) * 2.0 - 1.0)
        .collect()
}

fn put_f16(b: &mut [u8], v: f32) {
    b.copy_from_slice(&f16::from_f32(v).to_le_bytes());
}

fn rdf16(b: &[u8]) -> f32 {
    f16::from_le_bytes([b[0], b[1]]).to_f32()
}

fn half_bits(bits: u16) -> f32 {
    f16::from_bits(bits).to_f32()
}

/// The scale `2^(e - 128)`.
fn e8m0_half(e: u16) -> f32 {
    if e < 2 {
        f32::from_bits(0x0020_0000 << e)
    } else {
        f32::from_bits((e as u32 - 1) << 23)
    }
}

/// Half of an unsigned 4-bit-exponent, 3-bit-mantissa number.
fn ue4m3(x: u16) -> f32 {
    if x == 0 || x == 0x7f {
        return 0.0;
    }
    let (exp, man) = (((x >> 3) & 0xf) as i32, (x & 7) as f32);
    let raw = if exp == 0 {
        man * (2f32).powi(-9)
    } else {
        (1.0 + man / 8.0) * (2f32).powi(exp - 7)
    };
    raw * 0.5
}

fn dot(a: &[f32], b: &[f32]) -> f32 {
    let n = a.len().min(b.len());
    let chunks = n / 8;
    let mut acc = [0f32; 8];
    for c in 0..chunks {
        for (j, ac) in acc.iter_mut().enumerate() {
            *ac = a[c * 8 + j].mul_add(b[c * 8 + j], *ac);
        }
    }
    let mut s: f32 = acc.iter().sum();
    for i in chunks * 8..n {
        s = a[i].mul_add(b[i], s);
    }
    s
}

fn rel_err(got: f32, want: f32) -> f32 {
    (got - want).abs() / want.abs().max(1.0)
}

/// Codes and scale bits of runs of `n` activations: the greatest magnitude becomes 127.
fn quantize_runs(x: &[f32], n: usize) -> (Vec<i8>, Vec<u32>) {
    let mut qs = Vec::new();
    let mut d = Vec::new();
    for run in x.chunks_exact(n) {
        let amax = run.iter().fold(0f32, |m, &v| m.max(v.abs()));
        let dq = amax / 127.0;
        let id = if dq != 0.0 { 1.0 / dq } else { 0.0 };
        d.push(dq.to_bits());
        qs.extend(run.iter().map(|&v| (v * id).round() as i32 as i8));
    }
    (qs, d)
}

fn quantize_q8(x: &[f32]) -> Q8 {
    let (qs, d) = quantize_runs(x, 256);
    Q8::new(qs, d).unwrap()
}

fn quantize_q8_32(x: &[f32]) -> Q8x32 {
    let (qs, d) = quantize_runs(x, 32);
    Q8x32::new(qs, d).unwrap()
}

/// The activations that the kernels see: scale times code.
fn dequant_q8(q8: &Q8) -> Vec<f32> {
    q8.qs.iter().enumerate().map(|(i, &q)| f32::from_bits(q8.d[i / 256]) * q as f32).collect()
}

/// The activations that the kernels see: scale times code.
fn dequant_q8_32(q8: &Q8x32) -> Vec<f32> {
    q8.qs.iter().enumerate().map(|(i, &q)| f32::from_bits(q8.d[i / 32]) * q as f32).collect()
}

/// Lookup tables with the value ranges of the formats' own.
struct Grids {
    iq2s: Vec<u64>,
    iq2xs: Vec<u64>,
    iq2xxs: Vec<u64>,
    iq3s: Vec<u32>,
    iq3xxs: Vec<u32>,
    iq1: Vec<u64>,
    signs: Vec<u8>,
}

fn grid(n: usize, per: usize, values: &[i8], mut seed: u64) -> Vec<u64> {
    (0..n)
        .map(|_| {
            (0..per).fold(0u64, |w, k| {
                let v = values[(lcg(&mut seed) >> 40) as usize % values.len()];
                w | ((v as u8 as u64) << (8 * k))
            })
        })
        .collect()
}

impl Grids {
    fn new() -> Grids {
        let narrow = |g: Vec<u64>| -> Vec<u32> { g.into_iter().map(|v| v as u32).collect() };
        Grids {
            iq2s: grid(1024, 8, &[8, 25, 43], 1001),
            iq2xs: grid(512, 8, &[8, 25, 43], 1002),
            iq2xxs: grid(256, 8, &[8, 25, 43], 1003),
            iq3s: narrow(grid(512, 4, &[1, 3, 5, 7, 9, 11, 13, 15], 1004)),
            iq3xxs: narrow(grid(256, 4, &[4, 12, 20, 28, 36, 44, 52, 62], 1095)),
            iq1: grid(2048, 8, &[-1, 0, 1], 1006),
            signs: (0..128u8).map(|i| i | (((i.count_ones() & 1) as u8) << 7)).collect(),
        }
    }

    fn tables(&self) -> Tables<'_> {
        Tables {
            kv_iq4nl: KVALUES_IQ4NL,
            kv_mxfp4: KVALUES_MXFP4,
            grid_iq2s: &self.iq2s,
            grid_iq2xs: &self.iq2xs,
            grid_iq2xxs: &self.iq2xxs,
            grid_iq3s: &self.iq3s,
            grid_iq3xxs: &self.iq3xxs,
            grid_iq1: &self.iq1,
            signs: &self.signs,
        }
    }
}

/// The dot of a row of the given type against super-block activations, from its terms.
fn fold_super(dt: DType, terms: &[Term], q8: &Q8) -> f32 {
    let d8 = |b: usize| f32::from_bits(q8.d[b]);
    let mut sumf = 0f32;
    match dt {
        DType::Q4K | DType::Q5K | DType::Q2K => {
            for (b, t) in terms.iter().enumerate() {
                sumf += d8(b) * (half_bits(t.d) * t.sd as f32 - half_bits(t.aux) * t.sm as f32);
            }
        }
        DType::Q6K | DType::Q3K | DType::Iq4Xs | DType::Tq1_0 | DType::Tq2_0 => {
            for (b, t) in terms.iter().enumerate() {
                sumf += half_bits(t.d) * d8(b) * t.sd as f32;
            }
        }
        DType::Q8_0 => {
            for (u, t) in terms.iter().enumerate() {
                sumf += d8(u / 8) * half_bits(t.d) * t.sd as f32;
            }
        }
        _ => {
            for (b, block) in terms.chunks_exact(32).enumerate() {
                let mut block_sum = 0f32;
                for t in block {
                    let d = half_bits(t.d);
                    let s = (t.aux & 7) as f32;
                    block_sum += match dt {
                        DType::Iq2S | DType::Iq2Xs | DType::Iq2Xxs => {
                            d * (0.5 + t.aux as f32) * 0.25 * t.sd as f32
                        }
                        DType::Iq3S => d * (1.0 + 2.0 * t.aux as f32) * t.sd as f32,
                        DType::Iq3Xxs => d * (0.5 + t.aux as f32) * 0.5 * t.sd as f32,
                        _ => {
                            let delta = if t.aux >= 8 { -IQ1S_DELTA } else { IQ1S_DELTA };
                            d * (2.0 * s + 1.0) * (t.sd as f32 + delta * t.sm as f32)
                        }
                    };
                }
                sumf += d8(b) * block_sum;
            }
        }
    }
    sumf
}

/// The dot of a row of the given type against 32-code blocks, from its terms.
fn fold_blk32(dt: DType, terms: &[Term], q8: &Q8x32) -> f32 {
    let d8 = |b: usize| f32::from_bits(q8.d[b]);
    let mut sumf = 0f32;
    for (u, t) in terms.iter().enumerate() {
        sumf += match dt {
            DType::Q4_1 | DType::Q5_1 => {
                d8(u) * (half_bits(t.d) * t.sd as f32 + half_bits(t.aux) * t.sm as f32)
            }
            DType::Mxfp4 => e8m0_half(t.d) * d8(u) * t.sd as f32,
            DType::Nvfp4 => ue4m3(t.d) * d8(u / 2) * t.sd as f32,
            _ => half_bits(t.d) * d8(u) * t.sd as f32,
        };
    }
    sumf
}

fn put_super(dt: DType, all: Vec<Vec<Term>>, q8s: &[Q8], out: &mut [f32]) {
    assert_eq!(all.len(), q8s.len());
    for (r, terms) in all.iter().enumerate() {
        out[r] = fold_super(dt, terms, &q8s[r]);
    }
}

fn put_blk32(dt: DType, all: Vec<Vec<Term>>, q8s: &[Q8x32], out: &mut [f32]) {
    assert_eq!(all.len(), q8s.len());
    for (r, terms) in all.iter().enumerate() {
        out[r] = fold_blk32(dt, terms, &q8s[r]);
    }
}

fn vec_dot_q4k(row: &[u8], q8: &Q8, in_f: usize) -> f32 {
    fold_super(DType::Q4K, &kernels::vec_dot_q4k(row, q8, in_f), q8)
}

fn vec_dot_q4k_batch(row: &[u8], q8s: &[Q8], in_f: usize, out: &mut [f32]) {
    put_super(DType::Q4K, kernels::vec_dot_q4k_batch(row, q8s, in_f), q8s, out);
}

fn vec_dot_q5k(row: &[u8], q8: &Q8, in_f: usize) -> f32 {
    fold_super(DType::Q5K, &kernels::vec_dot_q5k(row, q8, in_f), q8)
}

fn vec_dot_q5k_batch(row: &[u8], q8s: &[Q8], in_f: usize, out: &mut [f32]) {
    put_super(DType::Q5K, kernels::vec_dot_q5k_batch(row, q8s, in_f), q8s, out);
}

fn vec_dot_q6k(row: &[u8], q8: &Q8, in_f: usize) -> f32 {
    fold_super(DType::Q6K, &kernels::vec_dot_q6k(row, q8, in_f), q8)
}

fn vec_dot_q6k_batch(row: &[u8], q8s: &[Q8], in_f: usize, out: &mut [f32]) {
    put_super(DType::Q6K, kernels::vec_dot_q6k_batch(row, q8s, in_f), q8s, out);
}

fn vec_dot_q2k(row: &[u8], q8: &Q8, in_f: usize) -> f32 {
    fold_super(DType::Q2K, &kernels::vec_dot_q2k(row, q8, in_f), q8)
}

fn vec_dot_q2k_batch(row: &[u8], q8s: &[Q8], in_f: usize, out: &mut [f32]) {
    put_super(DType::Q2K, kernels::vec_dot_q2k_batch(row, q8s, in_f), q8s, out);
}

fn vec_dot_q3k(row: &[u8], q8: &Q8, in_f: usize) -> f32 {
    fold_super(DType::Q3K, &kernels::vec_dot_q3k(row, q8, in_f), q8)
}

fn vec_dot_q3k_batch(row: &[u8], q8s: &[Q8], in_f: usize, out: &mut [f32]) {
    put_super(DType::Q3K, kernels::vec_dot_q3k_batch(row, q8s, in_f), q8s, out);
}

fn vec_dot_q8_0(row: &[u8], q8: &Q8, in_f: usize) -> f32 {
    fold_super(DType::Q8_0, &kernels::vec_dot_q8_0(row, q8, in_f), q8)
}

fn vec_dot_q8_0_batch(row: &[u8], q8s: &[Q8], in_f: usize, out: &mut [f32]) {
    put_super(DType::Q8_0, kernels::vec_dot_q8_0_batch(row, q8s, in_f), q8s, out);
}

fn vec_dot_tq2_0(row: &[u8], q8: &Q8, in_f: usize) -> f32 {
    fold_super(DType::Tq2_0, &kernels::vec_dot_tq2_0(row, q8, in_f), q8)
}

fn vec_dot_tq2_0_batch(row: &[u8], q8s: &[Q8], in_f: usize, out: &mut [f32]) {
    put_super(DType::Tq2_0, kernels::vec_dot_tq2_0_batch(row, q8s, in_f), q8s, out);
}

fn vec_dot_tq1_0(row: &[u8], q8: &Q8, in_f: usize) -> f32 {
    fold_super(DType::Tq1_0, &kernels::vec_dot_tq1_0(row, q8, in_f), q8)
}

fn vec_dot_tq1_0_batch(row: &[u8], q8s: &[Q8], in_f: usize, out: &mut [f32]) {
    put_super(DType::Tq1_0, kernels::vec_dot_tq1_0_batch(row, q8s, in_f), q8s, out);
}

fn vec_dot_iq4xs(row: &[u8], q8: &Q8, in_f: usize) -> f32 {
    fold_super(DType::Iq4Xs, &kernels::vec_dot_iq4xs(&Iq4Xs { kv: KVALUES_IQ4NL }, row, q8, in_f), q8)
}

fn vec_dot_iq4xs_batch(row: &[u8], q8s: &[Q8], in_f: usize, out: &mut [f32]) {
    put_super(DType::Iq4Xs, kernels::vec_dot_iq4xs_batch(&Iq4Xs { kv: KVALUES_IQ4NL }, row, q8s, in_f), q8s, out);
}

fn vec_dot_iq2s(row: &[u8], q8: &Q8, in_f: usize) -> f32 {
    let g = Grids::new();
    fold_super(DType::Iq2S, &kernels::vec_dot_iq2s(&Iq2S { grid: &g.iq2s }, row, q8, in_f), q8)
}

fn vec_dot_iq2s_batch(row: &[u8], q8s: &[Q8], in_f: usize, out: &mut [f32]) {
    let g = Grids::new();
    put_super(DType::Iq2S, kernels::vec_dot_iq2s_batch(&Iq2S { grid: &g.iq2s }, row, q8s, in_f), q8s, out);
}

fn vec_dot_iq2xxs(row: &[u8], q8: &Q8, in_f: usize) -> f32 {
    let g = Grids::new();
    fold_super(DType::Iq2Xxs, &kernels::vec_dot_iq2xxs(&Iq2Xxs { grid: &g.iq2xxs, signs: &g.signs }, row, q8, in_f), q8)
}

fn vec_dot_iq2xxs_batch(row: &[u8], q8s: &[Q8], in_f: usize, out: &mut [f32]) {
    let g = Grids::new();
    put_super(DType::Iq2Xxs, kernels::vec_dot_iq2xxs_batch(&Iq2Xxs { grid: &g.iq2xxs, signs: &g.signs }, row, q8s, in_f), q8s, out);
}

fn vec_dot_iq2xs(row: &[u8], q8: &Q8, in_f: usize) -> f32 {
    let g = Grids::new();
    fold_super(DType::Iq2Xs, &kernels::vec_dot_iq2xs(&Iq2Xs { grid: &g.iq2xs, signs: &g.signs }, row, q8, in_f), q8)
}

fn vec_dot_iq2xs_batch(row: &[u8], q8s: &[Q8], in_f: usize, out: &mut [f32]) {
    let g = Grids::new();
    put_super(DType::Iq2Xs, kernels::vec_dot_iq2xs_batch(&Iq2Xs { grid: &g.iq2xs, signs: &g.signs }, row, q8s, in_f), q8s, out);
}

fn vec_dot_iq3s(row: &[u8], q8: &Q8, in_f: usize) -> f32 {
    let g = Grids::new();
    fold_super(DType::Iq3S, &kernels::vec_dot_iq3s(&Iq3S { grid: &g.iq3s }, row, q8, in_f), q8)
}

fn vec_dot_iq3s_batch(row: &[u8], q8s: &[Q8], in_f: usize, out: &mut [f32]) {
    let g = Grids::new();
    put_super(DType::Iq3S, kernels::vec_dot_iq3s_batch(&Iq3S { grid: &g.iq3s }, row, q8s, in_f), q8s, out);
}

fn vec_dot_iq3xxs(row: &[u8], q8: &Q8, in_f: usize) -> f32 {
    let g = Grids::new();
    fold_super(DType::Iq3Xxs, &kernels::vec_dot_iq3xxs(&Iq3Xxs { grid: &g.iq3xxs, signs: &g.signs }, row, q8, in_f), q8)
}

fn vec_dot_iq3xxs_batch(row: &[u8], q8s: &[Q8], in_f: usize, out: &mut [f32]) {
    let g = Grids::new();
    put_super(DType::Iq3Xxs, kernels::vec_dot_iq3xxs_batch(&Iq3Xxs { grid: &g.iq3xxs, signs: &g.signs }, row, q8s, in_f), q8s, out);
}

fn vec_dot_iq1s(row: &[u8], q8: &Q8, in_f: usize) -> f32 {
    let g = Grids::new();
    fold_super(DType::Iq1S, &kernels::vec_dot_iq1s(&Iq1S { grid: &g.iq1 }, row, q8, in_f), q8)
}

fn vec_dot_iq1s_batch(row: &[u8], q8s: &[Q8], in_f: usize, out: &mut [f32]) {
    let g = Grids::new();
    put_super(DType::Iq1S, kernels::vec_dot_iq1s_batch(&Iq1S { grid: &g.iq1 }, row, q8s, in_f), q8s, out);
}

fn vec_dot_iq1m(row: &[u8], q8: &Q8, in_f: usize) -> f32 {
    let g = Grids::new();
    fold_super(DType::Iq1M, &kernels::vec_dot_iq1m(&Iq1M { grid: &g.iq1 }, row, q8, in_f), q8)
}

fn vec_dot_iq1m_batch(row: &[u8], q8s: &[Q8], in_f: usize, out: &mut [f32]) {
    let g = Grids::new();
    put_super(DType::Iq1M, kernels::vec_dot_iq1m_batch(&Iq1M { grid: &g.iq1 }, row, q8s, in_f), q8s, out);
}

fn vec_dot_q8_0_32_batch(row: &[u8], q8s: &[Q8x32], in_f: usize, out: &mut [f32]) {
    put_blk32(DType::Q8_0, kernels::vec_dot_q8_0_32_batch(row, q8s, in_f), q8s, out);
}

fn vec_dot_q5_0_32_batch(row: &[u8], q8s: &[Q8x32], in_f: usize, out: &mut [f32]) {
    put_blk32(DType::Q5_0, kernels::vec_dot_q5_0_32_batch(row, q8s, in_f), q8s, out);
}

fn vec_dot_q4_0_32_batch(row: &[u8], q8s: &[Q8x32], in_f: usize, out: &mut [f32]) {
    put_blk32(DType::Q4_0, kernels::vec_dot_q4_0_32_batch(row, q8s, in_f), q8s, out);
}

fn vec_dot_q2_0_batch(row: &[u8], q8s: &[Q8x32], in_f: usize, out: &mut [f32]) {
    put_blk32(DType::Q2_0, kernels::vec_dot_q2_0_batch(row, q8s, in_f), q8s, out);
}

fn vec_dot_q4_1_32_batch(row: &[u8], q8s: &[Q8x32], in_f: usize, out: &mut [f32]) {
    put_blk32(DType::Q4_1, kernels::vec_dot_q4_1_32_batch(row, q8s, in_f), q8s, out);
}

fn vec_dot_q5_1_32_batch(row: &[u8], q8s: &[Q8x32], in_f: usize, out: &mut [f32]) {
    put_blk32(DType::Q5_1, kernels::vec_dot_q5_1_32_batch(row, q8s, in_f), q8s, out);
}

fn vec_dot_iq4nl_32_batch(row: &[u8], q8s: &[Q8x32], in_f: usize, out: &mut [f32]) {
    put_blk32(DType::Iq4Nl, kernels::vec_dot_iq4nl_32_batch(&Iq4Nl { kv: KVALUES_IQ4NL }, row, q8s, in_f), q8s, out);
}

fn vec_dot_mxfp4_32_batch(row: &[u8], q8s: &[Q8x32], in_f: usize, out: &mut [f32]) {
    put_blk32(DType::Mxfp4, kernels::vec_dot_mxfp4_32_batch(&Mxfp4 { kv: KVALUES_MXFP4 }, row, q8s, in_f), q8s, out);
}

fn vec_dot_nvfp4_batch(row: &[u8], q8s: &[Q8x32], in_f: usize, out: &mut [f32]) {
    put_blk32(DType::Nvfp4, kernels::vec_dot_nvfp4_batch(&Nvfp4 { kv: KVALUES_MXFP4 }, row, q8s, in_f), q8s, out);
}

fn vec_dot_q4k_batch8(rows: [&[u8]; 8], q8s: &[Q8], in_f: usize, outs: [&mut [f32]; 8]) {
    let tile = batch::vec_dot_q4k_batch8(rows, q8s, in_f);
    assert_eq!(tile.len(), 8);
    for (all, out) in tile.into_iter().zip(outs) {
        put_super(DType::Q4K, all, q8s, out);
    }
}

fn vec_dot_q4k_batch2(a: &[u8], b: &[u8], q8s: &[Q8], in_f: usize, out_a: &mut [f32], out_b: &mut [f32]) {
    let (ta, tb) = batch::vec_dot_q4k_batch2(a, b, q8s, in_f);
    put_super(DType::Q4K, ta, q8s, out_a);
    put_super(DType::Q4K, tb, q8s, out_b);
}

fn vec_dot_q32_batch8(rows: [&[u8]; 8], q8s: &[Q8x32], in_f: usize, outs: [&mut [f32]; 8], q5: bool) {
    let dt = if q5 { DType::Q5_0 } else { DType::Q8_0 };
    let tile = batch::vec_dot_q32_batch8(rows, q8s, in_f, q5);
    assert_eq!(tile.len(), 8);
    for (all, out) in tile.into_iter().zip(outs) {
        put_blk32(dt, all, q8s, out);
    }
}

/// Scale and min of sub-block `j` of a K-quant block.
fn k4(j: usize, s: &[u8]) -> (i32, i32) {
    if j < 4 {
        ((s[j] & 63) as i32, (s[j + 4] & 63) as i32)
    } else {
        (
            ((s[j + 4] & 0xf) | ((s[j - 4] >> 6) << 4)) as i32,
            ((s[j + 4] >> 4) | ((s[j] >> 6) << 4)) as i32,
        )
    }
}

/// The 6-bit scale of sub-block `j` of a Q3_K block.
fn q3k_scale(s: &[u8], j: usize) -> i32 {
    let low = if j < 8 { s[j] & 0xf } else { s[j - 8] >> 4 };
    let high = (s[8 + j % 4] >> (2 * (j / 4))) & 3;
    (low | (high << 4)) as i32 - 32
}

/// The 5-bit code of element `j` of a block with `qh` and `qs`.
fn five_bit(qh: &[u8], qs: &[u8], j: usize) -> i32 {
    let low = if j < 16 { qs[j] & 0xf } else { qs[j - 16] >> 4 };
    (low | (((qh[j / 8] >> (j % 8)) & 1) << 4)) as i32
}

fn nib(qs: &[u8], j: usize, half: usize) -> i32 {
    (if j < half { qs[j] & 0xf } else { qs[j - half] >> 4 }) as i32
}

/// The base-3 digit of element `e` of a TQ1_0 block.
fn tq1_digit(blk: &[u8], e: usize) -> i32 {
    const POW3: [u8; 5] = [1, 3, 9, 27, 81];
    let (byte, n) = if e < 160 {
        (blk[e % 32], e / 32)
    } else if e < 240 {
        (blk[32 + (e - 160) % 16], (e - 160) / 16)
    } else {
        (blk[48 + (e - 240) % 4], (e - 240) / 4)
    };
    ((byte.wrapping_mul(POW3[n]) as u16 * 3) >> 8) as i32
}

fn with_sign(v: u8, mask: u8, k: usize) -> i32 {
    if mask & (1 << k) != 0 {
        (v as i8).wrapping_neg() as i32
    } else {
        v as i8 as i32
    }
}

fn le16(b: &[u8], i: usize) -> u32 {
    b[i] as u32 | (b[i + 1] as u32) << 8
}

fn le32(b: &[u8], i: usize) -> u32 {
    le16(b, i) | le16(b, i + 2) << 16
}

/// Element `e` of a grid-format block: its scale, its grid value, and its offset.
fn grid_elem(dt: DType, g: &Grids, blk: &[u8], e: usize) -> (f32, i32, f32) {
    let (ib, l, k) = (e / 32, (e / 8) % 4, e % 8);
    let d = rdf16(&blk[0..2]);
    let byte = |w: u64, k: usize| (w >> (8 * k)) as u8;
    match dt {
        DType::Iq2S => {
            let sc = blk[74 + ib];
            let s = if l < 2 { sc & 0xf } else { sc >> 4 };
            let hi = ((blk[66 + ib] as usize) >> (2 * l)) & 3;
            let w = g.iq2s[blk[2 + ib * 4 + l] as usize | hi << 8];
            (d * (0.5 + s as f32) * 0.25, with_sign(byte(w, k), blk[34 + ib * 4 + l], k), 0.0)
        }
        DType::Iq2Xxs => {
            let aux1 = le32(blk, 2 + ib * 8 + 4);
            let w = g.iq2xxs[blk[2 + ib * 8 + l] as usize];
            let sign = g.signs[((aux1 >> (7 * l)) & 127) as usize];
            (d * (0.5 + (aux1 >> 28) as f32) * 0.25, with_sign(byte(w, k), sign, k), 0.0)
        }
        DType::Iq2Xs => {
            let q = le16(blk, 2 + (ib * 4 + l) * 2) as usize;
            let sc = blk[66 + ib];
            let s = if l < 2 { sc & 0xf } else { sc >> 4 };
            (d * (0.5 + s as f32) * 0.25, with_sign(byte(g.iq2xs[q & 511], k), g.signs[q >> 9], k), 0.0)
        }
        DType::Iq3S => {
            let sc = blk[106 + ib / 2];
            let s = if ib % 2 == 0 { sc & 0xf } else { sc >> 4 };
            let which = 2 * l + k / 4;
            let hi = ((blk[66 + ib] as usize) >> which) & 1;
            let w = g.iq3s[blk[2 + ib * 8 + which] as usize | hi << 8] as u64;
            (d * (1.0 + 2.0 * s as f32), with_sign(byte(w, k % 4), blk[74 + ib * 4 + l], k), 0.0)
        }
        DType::Iq3Xxs => {
            let aux = le32(blk, 66 + 4 * ib);
            let w = g.iq3xxs[blk[2 + ib * 8 + 2 * l + k / 4] as usize] as u64;
            let sign = g.signs[((aux >> (7 * l)) & 127) as usize];
            (d * (0.5 + (aux >> 28) as f32) * 0.5, with_sign(byte(w, k % 4), sign, k), 0.0)
        }
        DType::Iq1S => {
            let qh = le16(blk, 34 + 2 * ib);
            let w = g.iq1[blk[2 + ib * 4 + l] as usize | (((qh >> (3 * l)) & 7) as usize) << 8];
            let delta = if qh & 0x8000 != 0 { -IQ1S_DELTA } else { IQ1S_DELTA };
            (d * (2.0 * ((qh >> 12) & 7) as f32 + 1.0), byte(w, k) as i8 as i32, delta)
        }
        _ => {
            let sc: Vec<u32> = (0..4).map(|i| le16(blk, 48 + 2 * i)).collect();
            let bits = (sc[0] >> 12) | ((sc[1] >> 8) & 0xf0) | ((sc[2] >> 4) & 0xf00) | (sc[3] & 0xf000);
            let d = half_bits(bits as u16);
            let s = (sc[ib / 2] >> (6 * (ib % 2) + if l < 2 { 0 } else { 3 })) & 7;
            let qh = blk[32 + 2 * ib + l / 2];
            let part = if l % 2 == 0 { qh & 0xf } else { qh >> 4 };
            let w = g.iq1[blk[ib * 4 + l] as usize | ((part & 7) as usize) << 8];
            let delta = if part & 8 != 0 { -IQ1S_DELTA } else { IQ1S_DELTA };
            (d * (2.0 * s as f32 + 1.0), byte(w, k) as i8 as i32, delta)
        }
    }
}

/// Element `e` of a block, as a number.
fn element(dt: DType, g: &Grids, blk: &[u8], e: usize) -> f32 {
    match dt {
        DType::Q8_0 => rdf16(blk) * (blk[2 + e] as i8) as f32,
        DType::Q4_0 => rdf16(blk) * (nib(&blk[2..18], e, 16) - 8) as f32,
        DType::Q4_1 => rdf16(blk) * nib(&blk[4..20], e, 16) as f32 + rdf16(&blk[2..4]),
        DType::Q5_0 => rdf16(blk) * (five_bit(&blk[2..6], &blk[6..22], e) - 16) as f32,
        DType::Q5_1 => rdf16(blk) * five_bit(&blk[4..8], &blk[8..24], e) as f32 + rdf16(&blk[2..4]),
        DType::Q2_0 => rdf16(blk) * (((blk[2 + e / 4] >> (2 * (e % 4))) & 3) as i32 - 1) as f32,
        DType::Iq4Nl => rdf16(blk) * KVALUES_IQ4NL[nib(&blk[2..18], e, 16) as usize] as f32,
        DType::Mxfp4 => e8m0_half(blk[0] as u16) * KVALUES_MXFP4[nib(&blk[1..17], e, 16) as usize] as f32,
        DType::Nvfp4 => {
            let s = e / 16;
            let code = nib(&blk[4 + 8 * s..12 + 8 * s], e % 16, 8);
            ue4m3(blk[s] as u16) * KVALUES_MXFP4[code as usize] as f32
        }
        DType::Q4K => {
            let s = e / 32;
            let (sc, m) = k4(s, &blk[4..16]);
            let q = nib(&blk[16 + 32 * (s / 2)..48 + 32 * (s / 2)], e % 64, 32);
            rdf16(blk) * sc as f32 * q as f32 - rdf16(&blk[2..4]) * m as f32
        }
        DType::Q5K => {
            let s = e / 32;
            let (sc, m) = k4(s, &blk[4..16]);
            let low = nib(&blk[48 + 32 * (s / 2)..80 + 32 * (s / 2)], e % 64, 32);
            let q = low + 16 * ((blk[16 + e % 32] >> s) & 1) as i32;
            rdf16(blk) * sc as f32 * q as f32 - rdf16(&blk[2..4]) * m as f32
        }
        DType::Q6K => {
            let (half, r) = (e / 128, e % 128);
            let (quarter, l) = (r / 32, r % 32);
            let low = nib(&blk[64 * half..64 * half + 64], r, 64);
            let high = (blk[128 + 32 * half + l] >> (2 * quarter)) & 3;
            let q = (low | (high as i32) << 4) - 32;
            rdf16(&blk[208..210]) * (blk[192 + e / 16] as i8) as f32 * q as f32
        }
        DType::Q2K => {
            let sc = blk[e / 16];
            let q = (blk[16 + 32 * (e / 128) + e % 32] >> (2 * ((e / 32) % 4))) & 3;
            rdf16(&blk[80..82]) * (sc & 0xf) as f32 * q as f32 - rdf16(&blk[82..84]) * (sc >> 4) as f32
        }
        DType::Q3K => {
            let low = (blk[32 + 32 * (e / 128) + e % 32] >> (2 * ((e / 32) % 4))) & 3;
            let high = (blk[e % 32] >> (e / 32)) & 1;
            let q = (low | high << 2) as i32 - 4;
            rdf16(&blk[108..110]) * q3k_scale(&blk[96..108], e / 16) as f32 * q as f32
        }
        DType::Iq4Xs => {
            let ib = e / 32;
            let low = (blk[4 + ib / 2] >> (4 * (ib % 2))) & 0xf;
            let high = ((le16(blk, 2) >> (2 * ib)) & 3) as u8;
            let ls = (low | high << 4) as i32 - 32;
            let code = nib(&blk[8 + 16 * ib..24 + 16 * ib], e % 32, 16);
            rdf16(blk) * ls as f32 * KVALUES_IQ4NL[code as usize] as f32
        }
        DType::Tq1_0 => rdf16(&blk[52..54]) * (tq1_digit(blk, e) - 1) as f32,
        DType::Tq2_0 => {
            let q = (blk[32 * (e / 128) + e % 32] >> (2 * ((e / 32) % 4))) & 3;
            rdf16(&blk[64..66]) * (q as i32 - 1) as f32
        }
        _ => {
            let (dl, v, delta) = grid_elem(dt, g, blk, e);
            dl * (v as f32 + delta)
        }
    }
}

/// The weights of a run of blocks, as numbers.
fn dequant(dt: DType, w: &[u8]) -> Vec<f32> {
    let g = Grids::new();
    let mut out = Vec::new();
    for blk in w.chunks_exact(dt.block_bytes()) {
        for e in 0..dt.block_elems() {
            out.push(element(dt, &g, blk, e));
        }
    }
    out
}

/// Sums of products of one block's integer weights with its activation codes, block by block, and
/// the plain arithmetic of the format on top.
fn direct_blk32(dt: DType, row: &[u8], q8s: &[Q8x32], in_f: usize, out: &mut [f32]) {
    let (bytes, elems) = (dt.block_bytes(), dt.block_elems());
    for (r, q8) in q8s.iter().enumerate() {
        let mut sumf = 0f32;
        for b in 0..in_f / elems {
            let blk = &row[b * bytes..b * bytes + bytes];
            let runs = if dt == DType::Nvfp4 { 4 } else { elems / 32 };
            let n = elems / runs;
            for s in 0..runs {
                let t = (b * elems + s * n) / 32;
                let d8 = f32::from_bits(q8.d[t]);
                let a = |i: usize| q8.qs[b * elems + s * n + i] as i32;
                let code = |i: usize| -> i32 {
                    let e = s * n + i;
                    match dt {
                        DType::Q8_0 => blk[2 + e] as i8 as i32,
                        DType::Q4_0 => nib(&blk[2..18], e, 16),
                        DType::Q4_1 => nib(&blk[4..20], e, 16),
                        DType::Q5_0 => five_bit(&blk[2..6], &blk[6..22], e),
                        DType::Q5_1 => five_bit(&blk[4..8], &blk[8..24], e),
                        DType::Q2_0 => ((blk[2 + e / 4] >> (2 * (e % 4))) & 3) as i32,
                        DType::Iq4Nl => KVALUES_IQ4NL[nib(&blk[2..18], e, 16) as usize] as i32,
                        DType::Mxfp4 => KVALUES_MXFP4[nib(&blk[1..17], e, 16) as usize] as i32,
                        _ => KVALUES_MXFP4[nib(&blk[4 + 8 * s..12 + 8 * s], i, 8) as usize] as i32,
                    }
                };
                let iprod: i32 = (0..n).map(|i| code(i) * a(i)).sum();
                let bsum: i32 = (0..n).map(a).sum();
                sumf += match dt {
                    DType::Q4_0 => rdf16(blk) * d8 * (iprod as f32 - 8.0 * bsum as f32),
                    DType::Q5_0 => rdf16(blk) * d8 * (iprod as f32 - 16.0 * bsum as f32),
                    DType::Q2_0 => rdf16(blk) * d8 * (iprod as f32 - bsum as f32),
                    DType::Q4_1 | DType::Q5_1 => {
                        d8 * (rdf16(blk) * iprod as f32 + rdf16(&blk[2..4]) * bsum as f32)
                    }
                    DType::Mxfp4 => e8m0_half(blk[0] as u16) * d8 * iprod as f32,
                    DType::Nvfp4 => ue4m3(blk[s] as u16) * d8 * iprod as f32,
                    _ => rdf16(blk) * d8 * iprod as f32,
                };
            }
        }
        out[r] = sumf;
    }
}

/// The same for the super-block formats with one scale to a block.
fn direct_super(dt: DType, row: &[u8], q8: &Q8, in_f: usize) -> f32 {
    let bytes = dt.block_bytes();
    let mut sumf = 0f32;
    for b in 0..in_f / 256 {
        let blk = &row[b * bytes..b * bytes + bytes];
        let d8 = f32::from_bits(q8.d[b]);
        let (mut sd, mut sm) = (0i32, 0i32);
        for e in 0..256 {
            let a = q8.qs[b * 256 + e] as i32;
            match dt {
                DType::Q2K => {
                    let sc = blk[e / 16] as i32;
                    let q = ((blk[16 + 32 * (e / 128) + e % 32] >> (2 * ((e / 32) % 4))) & 3) as i32;
                    sd += (sc & 0xf) * q * a;
                    sm += (sc >> 4) * a;
                }
                DType::Q3K => {
                    let low = (blk[32 + 32 * (e / 128) + e % 32] >> (2 * ((e / 32) % 4))) & 3;
                    let high = (blk[e % 32] >> (e / 32)) & 1;
                    sd += q3k_scale(&blk[96..108], e / 16) * ((low | high << 2) as i32 - 4) * a;
                }
                _ => {
                    let ib = e / 32;
                    let low = (blk[4 + ib / 2] >> (4 * (ib % 2))) & 0xf;
                    let high = ((le16(blk, 2) >> (2 * ib)) & 3) as u8;
                    let code = nib(&blk[8 + 16 * ib..24 + 16 * ib], e % 32, 16);
                    sd += ((low | high << 4) as i32 - 32) * KVALUES_IQ4NL[code as usize] as i32 * a;
                }
            }
        }
        sumf += match dt {
            DType::Q2K => d8 * (rdf16(&blk[80..82]) * sd as f32 - rdf16(&blk[82..84]) * sm as f32),
            DType::Q3K => rdf16(&blk[108..110]) * d8 * sd as f32,
            _ => rdf16(blk) * d8 * sd as f32,
        };
    }
    sumf
}

fn direct_super_batch(dt: DType, row: &[u8], q8s: &[Q8], in_f: usize, out: &mut [f32]) {
    for (r, q8) in q8s.iter().enumerate() {
        out[r] = direct_super(dt, row, q8, in_f);
    }
}

/// The dot tracks the dot of the dequantized weights: closely on the activations that the kernel
/// sees, loosely on the activations before quantization.
#[test]
fn q4k_dot_matches_dequant_reference() {
    let in_f = 768;
    let nb = in_f / 256;
    let mut w = det_bytes(nb * 144, 1);
    for k in 0..nb {
        put_f16(&mut w[k * 144..k * 144 + 2], 0.05);
        put_f16(&mut w[k * 144 + 2..k * 144 + 4], 0.015);
    }
    let wref = dequant(DType::Q4K, &w);
    let q8 = quantize_q8(&det_x(in_f, 2));
    let got = vec_dot_q4k(&w, &q8, in_f);
    let want = dot(&wref, &dequant_q8(&q8));
    assert!(rel_err(got, want) < 1e-3, "q4k: got {got}, want {want}");
}

/// The dot tracks the dot of the dequantized weights: closely on the activations that the kernel
/// sees, loosely on the activations before quantization.
#[test]
fn q6k_dot_matches_dequant_reference() {
    let in_f = 768;
    let nb = in_f / 256;
    let mut w = det_bytes(nb * 210, 3);
    for k in 0..nb {
        put_f16(&mut w[k * 210 + 208..k * 210 + 210], 0.04);
    }
    let wref = dequant(DType::Q6K, &w);
    let q8 = quantize_q8(&det_x(in_f, 4));
    let got = vec_dot_q6k(&w, &q8, in_f);
    let want = dot(&wref, &dequant_q8(&q8));
    assert!(rel_err(got, want) < 1e-3, "q6k: got {got}, want {want}");
}

/// The dot tracks the dot of the dequantized weights: closely on the activations that the kernel
/// sees, loosely on the activations before quantization.
#[test]
fn q8_0_dot_matches_dequant_reference() {
    let in_f = 512;
    let nb_w = in_f / 32;
    let mut w = det_bytes(nb_w * 34, 9);
    for k in 0..nb_w {
        put_f16(&mut w[k * 34..k * 34 + 2], 0.03);
    }
    let wref = dequant(DType::Q8_0, &w);
    let q8 = quantize_q8(&det_x(in_f, 10));
    let got = vec_dot_q8_0(&w, &q8, in_f);
    let want = dot(&wref, &dequant_q8(&q8));
    assert!(rel_err(got, want) < 1e-3, "q8_0: got {got}, want {want}");
}

/// The dot tracks the dot of the dequantized weights: closely on the activations that the kernel
/// sees, loosely on the activations before quantization.
#[test]
fn q5k_dot_matches_dequant_reference() {
    let in_f = 512;
    let nb = in_f / 256;
    let mut w = det_bytes(nb * 176, 11);
    for k in 0..nb {
        put_f16(&mut w[k * 176..k * 176 + 2], 0.05);
        put_f16(&mut w[k * 176 + 2..k * 176 + 4], 0.01);
    }
    let wref = dequant(DType::Q5K, &w);
    let q8 = quantize_q8(&det_x(in_f, 12));
    let got = vec_dot_q5k(&w, &q8, in_f);
    let want = dot(&wref, &dequant_q8(&q8));
    assert!(rel_err(got, want) < 1e-3, "q5k: got {got}, want {want}");
}

/// The dot tracks the dot of the dequantized weights: closely on the activations that the kernel
/// sees, loosely on the activations before quantization.
#[test]
fn q8_0_32_batch_matches_dequant_reference() {
    for in_f in [256usize, 704] {
        let nb = in_f / 32;
        let mut w = det_bytes(nb * 34, 20);
        for k in 0..nb {
            put_f16(&mut w[k * 34..k * 34 + 2], 0.02);
        }
        let wref = dequant(DType::Q8_0, &w);
        let xs: Vec<Vec<f32>> = (0..3).map(|i| det_x(in_f, 21 + i)).collect();
        let q8s: Vec<Q8x32> = xs.iter().map(|x| quantize_q8_32(x)).collect();
        let mut got = vec![0f32; 3];
        vec_dot_q8_0_32_batch(&w, &q8s, in_f, &mut got);
        for (r, q8) in q8s.iter().enumerate() {
            let want = dot(&wref, &dequant_q8_32(q8));
            assert!(
                rel_err(got[r], want) < 1e-3,
                "q8_0_32 in_f={in_f} row={r}: got {got_r}, want {want}",
                got_r = got[r]
            );
        }
    }
}

/// The dot is that of the format's own arithmetic, to the bit.
#[test]
fn q32_batch8_bit_identical_to_scalar() {
    for q5 in [false, true] {
        let bpr = if q5 { 22usize } else { 34 };
        let in_f = 704usize;
        let nb = in_f / 32;
        let m = 5usize;
        let mut ws: Vec<Vec<u8>> = (0..8)
            .map(|i| {
                let mut w = det_bytes(nb * bpr, 60 + i as u64);
                for k in 0..nb {
                    put_f16(&mut w[k * bpr..k * bpr + 2], 0.02);
                }
                w
            })
            .collect();
        let _ = &mut ws;
        let q8s: Vec<Q8x32> = (0..m)
            .map(|r| quantize_q8_32(&det_x(in_f, 70 + r as u64)))
            .collect();
        let mut got: Vec<Vec<f32>> = vec![vec![0f32; m]; 8];
        {
            let rows: [&[u8]; 8] = std::array::from_fn(|i| ws[i].as_slice());
            let mut it = got.iter_mut();
            let outs: [&mut [f32]; 8] =
                std::array::from_fn(|_| it.next().unwrap().as_mut_slice());
            vec_dot_q32_batch8(rows, &q8s, in_f, outs, q5);
        }
        for i in 0..8 {
            let mut want = vec![0f32; m];
            if q5 {
                direct_blk32(DType::Q5_0, &ws[i], &q8s, in_f, &mut want);
            } else {
                direct_blk32(DType::Q8_0, &ws[i], &q8s, in_f, &mut want);
            }
            for r in 0..m {
                assert_eq!(
                    got[i][r].to_bits(),
                    want[r].to_bits(),
                    "q32 batch8 q5={q5} row={i} r={r}: got {}, want {}",
                    got[i][r],
                    want[r]
                );
            }
        }
    }
}

/// The dot is that of the format's own arithmetic, to the bit.
#[test]
fn q5_0_32_batch_simd_bit_identical_to_scalar() {
    for in_f in [256usize, 704] {
        let nb = in_f / 32;
        let m = 5usize;
        let mut w = det_bytes(nb * 22, 41);
        for k in 0..nb {
            put_f16(&mut w[k * 22..k * 22 + 2], 0.02);
        }
        let q8s: Vec<Q8x32> = (0..m)
            .map(|r| quantize_q8_32(&det_x(in_f, 42 + r as u64)))
            .collect();
        let mut got_out = vec![0f32; m];
        vec_dot_q5_0_32_batch(&w, &q8s, in_f, &mut got_out);
        let mut want_out = vec![0f32; m];
        direct_blk32(DType::Q5_0, &w, &q8s, in_f, &mut want_out);
        for r in 0..m {
            assert_eq!(
                got_out[r].to_bits(),
                want_out[r].to_bits(),
                "q5_0_32 in_f={in_f} row={r}: got {}, want {}",
                got_out[r],
                want_out[r]
            );
        }
    }
}

/// The dot is that of the format's own arithmetic, to the bit.
#[test]
fn q8_0_32_batch_simd_bit_identical_to_scalar() {
    for in_f in [256usize, 704] {
        let nb = in_f / 32;
        let m = 5usize;
        let mut w = det_bytes(nb * 34, 25);
        for k in 0..nb {
            put_f16(&mut w[k * 34..k * 34 + 2], 0.02);
        }
        let q8s: Vec<Q8x32> = (0..m)
            .map(|r| quantize_q8_32(&det_x(in_f, 26 + r as u64)))
            .collect();
        let mut got_out = vec![0f32; m];
        vec_dot_q8_0_32_batch(&w, &q8s, in_f, &mut got_out);
        let mut want_out = vec![0f32; m];
        direct_blk32(DType::Q8_0, &w, &q8s, in_f, &mut want_out);
        for r in 0..m {
            assert_eq!(
                got_out[r].to_bits(),
                want_out[r].to_bits(),
                "q8_0_32 in_f={in_f} row={r}: got {}, want {}",
                got_out[r],
                want_out[r],
            );
        }
    }
}

/// The dot tracks the dot of the dequantized weights: closely on the activations that the kernel
/// sees, loosely on the activations before quantization.
#[test]
fn q5_0_32_batch_matches_dequant_reference() {
    for in_f in [256usize, 704] {
        let nb = in_f / 32;
        let mut w = det_bytes(nb * 22, 30);
        for k in 0..nb {
            put_f16(&mut w[k * 22..k * 22 + 2], 0.03);
        }
        let wref = dequant(DType::Q5_0, &w);
        let xs: Vec<Vec<f32>> = (0..3).map(|i| det_x(in_f, 31 + i)).collect();
        let q8s: Vec<Q8x32> = xs.iter().map(|x| quantize_q8_32(x)).collect();
        let mut got = vec![0f32; 3];
        vec_dot_q5_0_32_batch(&w, &q8s, in_f, &mut got);
        for (r, q8) in q8s.iter().enumerate() {
            let want = dot(&wref, &dequant_q8_32(q8));
            assert!(
                rel_err(got[r], want) < 1e-3,
                "q5_0_32 in_f={in_f} row={r}: got {got_r}, want {want}",
                got_r = got[r]
            );
        }
    }
}

/// The dot is that of the format's own arithmetic, to the bit.
#[test]
fn q4_0_32_batch_simd_bit_identical_to_scalar() {
    for in_f in [96usize, 256, 704] {
        let nb = in_f / 32;
        let m = 5usize;
        let mut w = det_bytes(nb * 18, 72);
        for k in 0..nb {
            put_f16(&mut w[k * 18..k * 18 + 2], 0.02);
        }
        let q8s: Vec<Q8x32> = (0..m)
            .map(|r| quantize_q8_32(&det_x(in_f, 73 + r as u64)))
            .collect();
        let mut got_out = vec![0f32; m];
        vec_dot_q4_0_32_batch(&w, &q8s, in_f, &mut got_out);
        let mut want_out = vec![0f32; m];
        direct_blk32(DType::Q4_0, &w, &q8s, in_f, &mut want_out);
        for r in 0..m {
            assert_eq!(
                got_out[r].to_bits(),
                want_out[r].to_bits(),
                "q4_0_32 in_f={in_f} row={r}: got {}, want {}",
                got_out[r],
                want_out[r]
            );
        }
    }
}

/// The dot tracks the dot of the dequantized weights: closely on the activations that the kernel
/// sees, loosely on the activations before quantization.
#[test]
fn q4_0_32_batch_matches_dequant_reference() {
    for in_f in [32usize, 256, 512] {
        let nb = in_f / 32;
        let mut w = det_bytes(nb * 18, 70);
        for k in 0..nb {
            put_f16(&mut w[k * 18..k * 18 + 2], 0.03);
        }
        let wref = dequant(DType::Q4_0, &w);
        assert!(wref[..32].iter().any(|&v| v != 0.0));
        let xs: Vec<Vec<f32>> = (0..4).map(|i| det_x(in_f, 71 + i)).collect();
        let q8s: Vec<Q8x32> = xs.iter().map(|x| quantize_q8_32(x)).collect();

        let mut got = vec![0f32; xs.len()];
        vec_dot_q4_0_32_batch(&w, &q8s, in_f, &mut got);
        for (r, (x, q8)) in xs.iter().zip(q8s.iter()).enumerate() {
            let want_q = dot(&wref, &dequant_q8_32(q8));
            assert!(
                rel_err(got[r], want_q) < 1e-3,
                "q4_0_32 batch(quant-ref) in_f={in_f} row={r}: got {}, want {want_q}",
                got[r]
            );
            let want_f = dot(&wref, x);
            assert!(
                rel_err(got[r], want_f) < 2e-2,
                "q4_0_32 batch(full-ref) in_f={in_f} row={r}: got {}, want {want_f}",
                got[r]
            );
        }
        for (r, x) in xs.iter().enumerate() {
            let mut one = [0f32; 1];
            vec_dot_q4_0_32_batch(&w, std::slice::from_ref(&q8s[r]), in_f, &mut one);
            let want = dot(&wref, x);
            assert!(
                rel_err(one[0], want) < 2e-2,
                "q4_0_32 single in_f={in_f} row={r}: got {}, want {want}",
                one[0]
            );
        }
    }
}

/// The dot is that of the format's own arithmetic, to the bit.
#[test]
fn q2_0_simd_bit_identical_to_scalar() {
    for in_f in [64usize, 256, 704] {
        let nb = in_f / 64;
        let m = 5usize;
        let mut w = det_bytes(nb * 18, 200);
        for k in 0..nb {
            put_f16(&mut w[k * 18..k * 18 + 2], 0.02);
        }
        let mut seen = [false; 4];
        for b in 0..nb {
            let qs = &w[b * 18 + 2..b * 18 + 18];
            for j in 0..64usize {
                seen[((qs[j / 4] >> ((j % 4) * 2)) & 3) as usize] = true;
            }
        }
        assert!(
            seen.iter().all(|&s| s),
            "q2_0 in_f={in_f}: not all four codes present"
        );
        let q8s: Vec<Q8x32> = (0..m)
            .map(|r| quantize_q8_32(&det_x(in_f, 201 + r as u64)))
            .collect();
        let mut got_out = vec![0f32; m];
        vec_dot_q2_0_batch(&w, &q8s, in_f, &mut got_out);
        let mut want_out = vec![0f32; m];
        direct_blk32(DType::Q2_0, &w, &q8s, in_f, &mut want_out);
        for r in 0..m {
            assert_eq!(
                got_out[r].to_bits(),
                want_out[r].to_bits(),
                "q2_0 batch in_f={in_f} row={r}: got {}, want {}",
                got_out[r],
                want_out[r]
            );
        }
        for r in 0..m {
            let mut one = [0f32; 1];
            vec_dot_q2_0_batch(&w, std::slice::from_ref(&q8s[r]), in_f, &mut one);
            assert_eq!(
                one[0].to_bits(),
                want_out[r].to_bits(),
                "q2_0 single in_f={in_f} row={r}"
            );
        }
    }
}

/// The dot tracks the dot of the dequantized weights: closely on the activations that the kernel
/// sees, loosely on the activations before quantization.
#[test]
fn q2_0_matches_dequant_reference() {
    for in_f in [64usize, 256, 704] {
        let nb = in_f / 64;
        let mut w = det_bytes(nb * 18, 210);
        for k in 0..nb {
            put_f16(&mut w[k * 18..k * 18 + 2], 0.03);
        }
        let wref = dequant(DType::Q2_0, &w);
        assert!(wref[..64].iter().any(|&v| v != 0.0));
        let xs: Vec<Vec<f32>> = (0..4).map(|i| det_x(in_f, 211 + i)).collect();
        let q8s: Vec<Q8x32> = xs.iter().map(|x| quantize_q8_32(x)).collect();

        let mut got = vec![0f32; xs.len()];
        vec_dot_q2_0_batch(&w, &q8s, in_f, &mut got);
        for (r, (x, q8)) in xs.iter().zip(q8s.iter()).enumerate() {
            let want_q = dot(&wref, &dequant_q8_32(q8));
            assert!(
                rel_err(got[r], want_q) < 1e-3,
                "q2_0 batch(quant-ref) in_f={in_f} row={r}: got {}, want {want_q}",
                got[r]
            );
            let want_f = dot(&wref, x);
            assert!(
                rel_err(got[r], want_f) < 2e-2,
                "q2_0 batch(full-ref) in_f={in_f} row={r}: got {}, want {want_f}",
                got[r]
            );
        }
        for (r, x) in xs.iter().enumerate() {
            let mut one = [0f32; 1];
            vec_dot_q2_0_batch(&w, std::slice::from_ref(&q8s[r]), in_f, &mut one);
            let want = dot(&wref, x);
            assert!(
                rel_err(one[0], want) < 2e-2,
                "q2_0 single in_f={in_f} row={r}: got {}, want {want}",
                one[0]
            );
        }
    }
}

/// Blocks with fixed scales and pseudo-random codes.
fn build_q4_1(nb: usize, d: f32, m: f32, seed: u64) -> Vec<u8> {
    let mut w = det_bytes(nb * 20, seed);
    for k in 0..nb {
        put_f16(&mut w[k * 20..k * 20 + 2], d);
        put_f16(&mut w[k * 20 + 2..k * 20 + 4], m);
    }
    w
}

/// The dot is that of the format's own arithmetic, to the bit.
#[test]
fn q4_1_32_batch_simd_bit_identical_to_scalar() {
    for in_f in [96usize, 256, 704] {
        let nb = in_f / 32;
        let m = 5usize;
        let w = build_q4_1(nb, 0.02, -0.01, 82);
        let q8s: Vec<Q8x32> = (0..m)
            .map(|r| quantize_q8_32(&det_x(in_f, 83 + r as u64)))
            .collect();
        let mut got_out = vec![0f32; m];
        vec_dot_q4_1_32_batch(&w, &q8s, in_f, &mut got_out);
        let mut want_out = vec![0f32; m];
        direct_blk32(DType::Q4_1, &w, &q8s, in_f, &mut want_out);
        for r in 0..m {
            assert_eq!(
                got_out[r].to_bits(),
                want_out[r].to_bits(),
                "q4_1_32 in_f={in_f} row={r}: got {}, want {}",
                got_out[r],
                want_out[r]
            );
        }
        for r in 0..m {
            let mut one = [0f32; 1];
            vec_dot_q4_1_32_batch(&w, std::slice::from_ref(&q8s[r]), in_f, &mut one);
            assert_eq!(
                one[0].to_bits(),
                want_out[r].to_bits(),
                "q4_1_32 single in_f={in_f} row={r}"
            );
        }
    }
}

/// The dot tracks the dot of the dequantized weights: closely on the activations that the kernel
/// sees, loosely on the activations before quantization.
#[test]
fn q4_1_32_batch_matches_dequant_reference() {
    for in_f in [32usize, 256, 512] {
        let nb = in_f / 32;
        let w = build_q4_1(nb, 0.03, -0.02, 90);
        let wref = dequant(DType::Q4_1, &w);
        assert!(wref[..16].iter().any(|&v| v != wref[0]));
        assert!(wref[16..32].iter().any(|&v| v != wref[16]));
        let xs: Vec<Vec<f32>> = (0..4).map(|i| det_x(in_f, 91 + i)).collect();
        let q8s: Vec<Q8x32> = xs.iter().map(|x| quantize_q8_32(x)).collect();

        let mut got = vec![0f32; xs.len()];
        vec_dot_q4_1_32_batch(&w, &q8s, in_f, &mut got);
        for (r, (x, q8)) in xs.iter().zip(q8s.iter()).enumerate() {
            let want_q = dot(&wref, &dequant_q8_32(q8));
            assert!(
                rel_err(got[r], want_q) < 1e-3,
                "q4_1_32 batch(quant-ref) in_f={in_f} row={r}: got {}, want {want_q}",
                got[r]
            );
            let want_f = dot(&wref, x);
            assert!(
                rel_err(got[r], want_f) < 2e-2,
                "q4_1_32 batch(full-ref) in_f={in_f} row={r}: got {}, want {want_f}",
                got[r]
            );
        }
        for (r, x) in xs.iter().enumerate() {
            let mut one = [0f32; 1];
            vec_dot_q4_1_32_batch(&w, std::slice::from_ref(&q8s[r]), in_f, &mut one);
            let want = dot(&wref, x);
            assert!(
                rel_err(one[0], want) < 2e-2,
                "q4_1_32 single in_f={in_f} row={r}: got {}, want {want}",
                one[0]
            );
        }
    }
}

/// Blocks with fixed scales and pseudo-random codes.
fn build_q5_1(nb: usize, d: f32, m: f32, seed: u64) -> Vec<u8> {
    let mut w = det_bytes(nb * 24, seed);
    for k in 0..nb {
        put_f16(&mut w[k * 24..k * 24 + 2], d);
        put_f16(&mut w[k * 24 + 2..k * 24 + 4], m);
    }
    w
}

/// How many codes have their fifth bit set.
fn q5_1_codes_over_15(w: &[u8], nb: usize) -> usize {
    let mut n = 0usize;
    for k in 0..nb {
        let blk = &w[k * 24..k * 24 + 24];
        let qh = u32::from_le_bytes(blk[4..8].try_into().unwrap());
        let qs = &blk[8..24];
        for j in 0..16 {
            let xh0 = ((qh >> j) << 4) & 0x10;
            let xh1 = (qh >> (j + 12)) & 0x10;
            let c0 = (qs[j] as u32 & 0x0F) | xh0;
            let c1 = (qs[j] as u32 >> 4) | xh1;
            n += (c0 > 15) as usize + (c1 > 15) as usize;
        }
    }
    n
}

/// The dot is that of the format's own arithmetic, to the bit.
#[test]
fn q5_1_32_simd_bit_identical_to_scalar() {
    for in_f in [96usize, 256, 704] {
        let nb = in_f / 32;
        let m = 5usize;
        let w = build_q5_1(nb, 0.02, -0.01, 111);
        assert!(
            q5_1_codes_over_15(&w, nb) > 0,
            "q5_1_32 in_f={in_f}: no code exceeded 15 — qh 5th bit never exercised"
        );
        let q8s: Vec<Q8x32> = (0..m)
            .map(|r| quantize_q8_32(&det_x(in_f, 112 + r as u64)))
            .collect();
        let mut got_out = vec![0f32; m];
        vec_dot_q5_1_32_batch(&w, &q8s, in_f, &mut got_out);
        let mut want_out = vec![0f32; m];
        direct_blk32(DType::Q5_1, &w, &q8s, in_f, &mut want_out);
        for r in 0..m {
            assert_eq!(
                got_out[r].to_bits(),
                want_out[r].to_bits(),
                "q5_1_32 in_f={in_f} row={r}: got {}, want {}",
                got_out[r],
                want_out[r]
            );
        }
        for r in 0..m {
            let mut one = [0f32; 1];
            vec_dot_q5_1_32_batch(&w, std::slice::from_ref(&q8s[r]), in_f, &mut one);
            assert_eq!(
                one[0].to_bits(),
                want_out[r].to_bits(),
                "q5_1_32 single in_f={in_f} row={r}"
            );
        }
    }
}

/// The dot tracks the dot of the dequantized weights: closely on the activations that the kernel
/// sees, loosely on the activations before quantization.
#[test]
fn q5_1_32_matches_dequant_reference() {
    for in_f in [96usize, 256, 512] {
        let nb = in_f / 32;
        let w = build_q5_1(nb, 0.03, -0.02, 120);
        let wref = dequant(DType::Q5_1, &w);
        assert!(wref[..16].iter().any(|&v| v != wref[0]));
        assert!(wref[16..32].iter().any(|&v| v != wref[16]));
        assert!(
            q5_1_codes_over_15(&w, nb) > 0,
            "q5_1_32 ref in_f={in_f}: no code exceeded 15 — qh 5th bit never exercised"
        );
        let xs: Vec<Vec<f32>> = (0..4).map(|i| det_x(in_f, 121 + i)).collect();
        let q8s: Vec<Q8x32> = xs.iter().map(|x| quantize_q8_32(x)).collect();

        let mut got = vec![0f32; xs.len()];
        vec_dot_q5_1_32_batch(&w, &q8s, in_f, &mut got);
        for (r, (x, q8)) in xs.iter().zip(q8s.iter()).enumerate() {
            let want_q = dot(&wref, &dequant_q8_32(q8));
            assert!(
                rel_err(got[r], want_q) < 1e-3,
                "q5_1_32 batch(quant-ref) in_f={in_f} row={r}: got {}, want {want_q}",
                got[r]
            );
            let want_f = dot(&wref, x);
            assert!(
                rel_err(got[r], want_f) < 2e-2,
                "q5_1_32 batch(full-ref) in_f={in_f} row={r}: got {}, want {want_f}",
                got[r]
            );
        }
        for (r, x) in xs.iter().enumerate() {
            let mut one = [0f32; 1];
            vec_dot_q5_1_32_batch(&w, std::slice::from_ref(&q8s[r]), in_f, &mut one);
            let want = dot(&wref, x);
            assert!(
                rel_err(one[0], want) < 2e-2,
                "q5_1_32 single in_f={in_f} row={r}: got {}, want {want}",
                one[0]
            );
        }
    }
}

/// Blocks with fixed scales and pseudo-random codes.
fn build_iq4nl(nb: usize, d: f32, seed: u64) -> Vec<u8> {
    let mut w = det_bytes(nb * 18, seed);
    for b in 0..nb {
        put_f16(&mut w[b * 18..b * 18 + 2], d);
    }
    w
}

/// The dot is that of the format's own arithmetic, to the bit.
#[test]
fn iq4nl_32_simd_bit_identical_to_scalar() {
    for in_f in [96usize, 256, 704] {
        let nb = in_f / 32;
        let m = 5usize;
        let w = build_iq4nl(nb, 0.02, 112);
        let q8s: Vec<Q8x32> = (0..m)
            .map(|r| quantize_q8_32(&det_x(in_f, 113 + r as u64)))
            .collect();
        let mut got_out = vec![0f32; m];
        vec_dot_iq4nl_32_batch(&w, &q8s, in_f, &mut got_out);
        let mut want_out = vec![0f32; m];
        direct_blk32(DType::Iq4Nl, &w, &q8s, in_f, &mut want_out);
        for r in 0..m {
            assert_eq!(
                got_out[r].to_bits(),
                want_out[r].to_bits(),
                "iq4nl_32 in_f={in_f} row={r}: got {}, want {}",
                got_out[r],
                want_out[r]
            );
        }
        for r in 0..m {
            let mut one = [0f32; 1];
            vec_dot_iq4nl_32_batch(&w, std::slice::from_ref(&q8s[r]), in_f, &mut one);
            assert_eq!(
                one[0].to_bits(),
                want_out[r].to_bits(),
                "iq4nl_32 single in_f={in_f} row={r}"
            );
        }
    }
}

/// The dot tracks the dot of the dequantized weights: closely on the activations that the kernel
/// sees, loosely on the activations before quantization.
#[test]
fn iq4nl_32_matches_dequant_reference() {
    for in_f in [32usize, 256, 512] {
        let nb = in_f / 32;
        let w = build_iq4nl(nb, 0.03, 120);
        let wref = dequant(DType::Iq4Nl, &w);
        assert!(wref[..16].iter().any(|&v| v != wref[0]));
        assert!(wref[16..32].iter().any(|&v| v != wref[16]));
        let xs: Vec<Vec<f32>> = (0..4).map(|i| det_x(in_f, 140 + i)).collect();
        let q8s: Vec<Q8x32> = xs.iter().map(|x| quantize_q8_32(x)).collect();

        let mut got = vec![0f32; xs.len()];
        vec_dot_iq4nl_32_batch(&w, &q8s, in_f, &mut got);
        for (r, (x, q8)) in xs.iter().zip(q8s.iter()).enumerate() {
            let want_q = dot(&wref, &dequant_q8_32(q8));
            assert!(
                rel_err(got[r], want_q) < 1e-3,
                "iq4nl_32 batch(quant-ref) in_f={in_f} row={r}: got {}, want {want_q}",
                got[r]
            );
            let want_f = dot(&wref, x);
            assert!(
                rel_err(got[r], want_f) < 2e-2,
                "iq4nl_32 batch(full-ref) in_f={in_f} row={r}: got {}, want {want_f}",
                got[r]
            );
        }
        for (r, x) in xs.iter().enumerate() {
            let mut one = [0f32; 1];
            vec_dot_iq4nl_32_batch(&w, std::slice::from_ref(&q8s[r]), in_f, &mut one);
            let want = dot(&wref, x);
            assert!(
                rel_err(one[0], want) < 2e-2,
                "iq4nl_32 single in_f={in_f} row={r}: got {}, want {want}",
                one[0]
            );
        }
    }
}

/// Blocks with fixed scales and pseudo-random codes.
fn build_mxfp4(nb: usize, seed: u64) -> Vec<u8> {
    det_bytes(nb * 17, seed)
}

/// Blocks with fixed scales and pseudo-random codes.
fn build_mxfp4_band(nb: usize, seed: u64) -> Vec<u8> {
    let mut w = det_bytes(nb * 17, seed);
    for b in 0..nb {
        w[b * 17] = 127 + (w[b * 17] % 3);
    }
    w
}

/// The dot is that of the format's own arithmetic, to the bit.
#[test]
fn mxfp4_32_simd_bit_identical_to_scalar() {
    for in_f in [96usize, 256, 704] {
        let nb = in_f / 32;
        let m = 5usize;
        let w = build_mxfp4(nb, 212);
        let q8s: Vec<Q8x32> = (0..m)
            .map(|r| quantize_q8_32(&det_x(in_f, 213 + r as u64)))
            .collect();
        let mut got_out = vec![0f32; m];
        vec_dot_mxfp4_32_batch(&w, &q8s, in_f, &mut got_out);
        let mut want_out = vec![0f32; m];
        direct_blk32(DType::Mxfp4, &w, &q8s, in_f, &mut want_out);
        for r in 0..m {
            assert_eq!(
                got_out[r].to_bits(),
                want_out[r].to_bits(),
                "mxfp4_32 in_f={in_f} row={r}: got {}, want {}",
                got_out[r],
                want_out[r]
            );
        }
        for r in 0..m {
            let mut one = [0f32; 1];
            vec_dot_mxfp4_32_batch(&w, std::slice::from_ref(&q8s[r]), in_f, &mut one);
            assert_eq!(
                one[0].to_bits(),
                want_out[r].to_bits(),
                "mxfp4_32 single in_f={in_f} row={r}"
            );
        }
    }
}

/// The dot tracks the dot of the dequantized weights: closely on the activations that the kernel
/// sees, loosely on the activations before quantization.
#[test]
fn mxfp4_32_matches_dequant_reference() {
    for in_f in [32usize, 256, 512] {
        let nb = in_f / 32;
        let w = build_mxfp4_band(nb, 282);
        let wref = dequant(DType::Mxfp4, &w);
        assert!(wref[..16].iter().any(|&v| v != wref[0]));
        assert!(wref[16..32].iter().any(|&v| v != wref[16]));
        let xs: Vec<Vec<f32>> = (0..4).map(|i| det_x(in_f, 287 + i)).collect();
        let q8s: Vec<Q8x32> = xs.iter().map(|x| quantize_q8_32(x)).collect();

        let mut got = vec![0f32; xs.len()];
        vec_dot_mxfp4_32_batch(&w, &q8s, in_f, &mut got);
        for (r, (x, q8)) in xs.iter().zip(q8s.iter()).enumerate() {
            let want_q = dot(&wref, &dequant_q8_32(q8));
            assert!(
                rel_err(got[r], want_q) < 1e-3,
                "mxfp4_32 batch(quant-ref) in_f={in_f} row={r}: got {}, want {want_q}",
                got[r]
            );
            let want_f = dot(&wref, x);
            assert!(
                rel_err(got[r], want_f) < 2e-2,
                "mxfp4_32 batch(full-ref) in_f={in_f} row={r}: got {}, want {want_f}",
                got[r]
            );
        }
        for (r, x) in xs.iter().enumerate() {
            let mut one = [0f32; 1];
            vec_dot_mxfp4_32_batch(&w, std::slice::from_ref(&q8s[r]), in_f, &mut one);
            let want = dot(&wref, x);
            assert!(
                rel_err(one[0], want) < 2e-2,
                "mxfp4_32 single in_f={in_f} row={r}: got {}, want {want}",
                one[0]
            );
        }
    }
}

/// Blocks with fixed scales and pseudo-random codes.
fn build_nvfp4(nb: usize, seed: u64) -> Vec<u8> {
    det_bytes(nb * 36, seed)
}

/// Blocks with fixed scales and pseudo-random codes.
fn build_nvfp4_band(nb: usize, seed: u64) -> Vec<u8> {
    let mut w = det_bytes(nb * 36, seed);
    for b in 0..nb {
        for s in 0..4usize {
            w[b * 36 + s] = 64 + (w[b * 36 + s] % 8);
        }
    }
    w
}

/// The dot is that of the format's own arithmetic, to the bit.
#[test]
fn nvfp4_simd_bit_identical_to_scalar() {
    for in_f in [64usize, 256, 704] {
        let nb = in_f / 64;
        let m = 5usize;
        let w = build_nvfp4(nb, 512);
        let q8s: Vec<Q8x32> = (0..m)
            .map(|r| quantize_q8_32(&det_x(in_f, 513 + r as u64)))
            .collect();
        let mut got_out = vec![0f32; m];
        vec_dot_nvfp4_batch(&w, &q8s, in_f, &mut got_out);
        let mut want_out = vec![0f32; m];
        direct_blk32(DType::Nvfp4, &w, &q8s, in_f, &mut want_out);
        for r in 0..m {
            assert_eq!(
                got_out[r].to_bits(),
                want_out[r].to_bits(),
                "nvfp4 in_f={in_f} row={r}: got {}, want {}",
                got_out[r],
                want_out[r]
            );
        }
        for r in 0..m {
            let mut one = [0f32; 1];
            vec_dot_nvfp4_batch(&w, std::slice::from_ref(&q8s[r]), in_f, &mut one);
            assert_eq!(
                one[0].to_bits(),
                want_out[r].to_bits(),
                "nvfp4 single in_f={in_f} row={r}"
            );
        }
    }
}

/// The dot tracks the dot of the dequantized weights: closely on the activations that the kernel
/// sees, loosely on the activations before quantization.
#[test]
fn nvfp4_matches_dequant_reference() {
    for in_f in [64usize, 256, 704] {
        let nb = in_f / 64;
        let w = build_nvfp4_band(nb, 582);
        let wref = dequant(DType::Nvfp4, &w);
        assert!(wref[..8].iter().any(|&v| v != wref[0]));
        assert!(wref[8..16].iter().any(|&v| v != wref[8]));
        assert!(wref[16..32].iter().any(|&v| v != wref[16]));
        let xs: Vec<Vec<f32>> = (0..4).map(|i| det_x(in_f, 111 + i)).collect();
        let q8s: Vec<Q8x32> = xs.iter().map(|x| quantize_q8_32(x)).collect();

        let mut got = vec![0f32; xs.len()];
        vec_dot_nvfp4_batch(&w, &q8s, in_f, &mut got);
        for (r, (x, q8)) in xs.iter().zip(q8s.iter()).enumerate() {
            let want_q = dot(&wref, &dequant_q8_32(q8));
            assert!(
                rel_err(got[r], want_q) < 1e-3,
                "nvfp4 batch(quant-ref) in_f={in_f} row={r}: got {}, want {want_q}",
                got[r]
            );
            let want_f = dot(&wref, x);
            assert!(
                rel_err(got[r], want_f) < 2e-2,
                "nvfp4 batch(full-ref) in_f={in_f} row={r}: got {}, want {want_f}",
                got[r]
            );
        }
        for (r, x) in xs.iter().enumerate() {
            let mut one = [0f32; 1];
            vec_dot_nvfp4_batch(&w, std::slice::from_ref(&q8s[r]), in_f, &mut one);
            let want = dot(&wref, x);
            assert!(
                rel_err(one[0], want) < 2e-2,
                "nvfp4 single in_f={in_f} row={r}: got {}, want {want}",
                one[0]
            );
        }
    }
}

/// Blocks with fixed scales and pseudo-random codes.
fn build_iq4xs_rand(nb: usize, d: f32, seed: u64) -> Vec<u8> {
    let mut w = det_bytes(nb * 136, seed);
    for b in 0..nb {
        put_f16(&mut w[b * 136..b * 136 + 2], d);
    }
    w
}

/// Blocks with fixed scales and pseudo-random codes.
fn build_iq4xs_wc(nb: usize, d: f32, mut seed: u64) -> Vec<u8> {
    let mut w = vec![0u8; nb * 136];
    for b in 0..nb {
        let blk = &mut w[b * 136..b * 136 + 136];
        put_f16(&mut blk[0..2], d);
        let mut scales_h = 0u16;
        for ib in 0..8usize {
            let ls = 28 + (lcg(&mut seed) >> 40) % 9;
            let lo = (ls & 0xF) as u8;
            let hi = ((ls >> 4) & 3) as u8;
            blk[4 + ib / 2] |= lo << (4 * (ib % 2));
            scales_h |= (hi as u16) << (2 * ib);
        }
        blk[2..4].copy_from_slice(&scales_h.to_le_bytes());
        for j in 0..128usize {
            blk[8 + j] = (lcg(&mut seed) >> 33) as u8;
        }
    }
    w
}

/// The dot is that of the format's own arithmetic, to the bit.
#[test]
fn iq4xs_simd_bit_identical_to_scalar() {
    for in_f in [256usize, 512, 768] {
        let nb = in_f / 256;
        let w = build_iq4xs_rand(nb, 0.05, 40);
        let m = 5usize;
        let q8s: Vec<Q8> = (0..m)
            .map(|r| quantize_q8(&det_x(in_f, 41 + r as u64)))
            .collect();
        for (r, q8) in q8s.iter().enumerate() {
            let got = vec_dot_iq4xs(&w, q8, in_f);
            let want = direct_super(DType::Iq4Xs, &w, q8, in_f);
            assert_eq!(
                got.to_bits(),
                want.to_bits(),
                "iq4xs single in_f={in_f} row={r}: got {got}, want {want}"
            );
        }
        let mut got_out = vec![0f32; m];
        vec_dot_iq4xs_batch(&w, &q8s, in_f, &mut got_out);
        let mut want_out = vec![0f32; m];
        direct_super_batch(DType::Iq4Xs, &w, &q8s, in_f, &mut want_out);
        for r in 0..m {
            assert_eq!(
                got_out[r].to_bits(),
                want_out[r].to_bits(),
                "iq4xs batch in_f={in_f} row={r}: got {}, want {}",
                got_out[r],
                want_out[r]
            );
        }
    }
}

/// The dot tracks the dot of the dequantized weights: closely on the activations that the kernel
/// sees, loosely on the activations before quantization.
#[test]
fn iq4xs_matches_dequant_reference() {
    for in_f in [256usize, 512, 768] {
        let nb = in_f / 256;
        let w = build_iq4xs_wc(nb, 0.0006, 50);
        let wref = dequant(DType::Iq4Xs, &w);
        assert!(wref.iter().any(|&v| v != 0.0));
        let xs: Vec<Vec<f32>> = (0..4).map(|i| det_x(in_f, 51 + i)).collect();
        let q8s: Vec<Q8> = xs.iter().map(|x| quantize_q8(x)).collect();

        let mut got = vec![0f32; xs.len()];
        vec_dot_iq4xs_batch(&w, &q8s, in_f, &mut got);
        for (r, (x, q8)) in xs.iter().zip(q8s.iter()).enumerate() {
            let want_q = dot(&wref, &dequant_q8(q8));
            assert!(
                rel_err(got[r], want_q) < 1e-3,
                "iq4xs batch(quant-ref) in_f={in_f} row={r}: got {}, want {want_q}",
                got[r]
            );
            let want_f = dot(&wref, x);
            assert!(
                rel_err(got[r], want_f) < 2e-2,
                "iq4xs batch(full-ref) in_f={in_f} row={r}: got {}, want {want_f}",
                got[r]
            );
        }
        for (r, (x, q8)) in xs.iter().zip(q8s.iter()).enumerate() {
            let got1 = vec_dot_iq4xs(&w, q8, in_f);
            let want_q = dot(&wref, &dequant_q8(q8));
            assert!(
                rel_err(got1, want_q) < 1e-3,
                "iq4xs single(quant-ref) in_f={in_f} row={r}: got {got1}, want {want_q}"
            );
            let want_f = dot(&wref, x);
            assert!(
                rel_err(got1, want_f) < 2e-2,
                "iq4xs single(full-ref) in_f={in_f} row={r}: got {got1}, want {want_f}"
            );
        }
    }
}

/// Blocks with fixed scales and pseudo-random codes.
fn build_iq2s_rand(nb: usize, d: f32, seed: u64) -> Vec<u8> {
    let mut w = det_bytes(nb * 82, seed);
    for b in 0..nb {
        put_f16(&mut w[b * 82..b * 82 + 2], d);
    }
    w
}

/// Blocks with fixed scales and pseudo-random codes.
fn build_iq2s_wc(nb: usize, d: f32, mut seed: u64) -> Vec<u8> {
    let mut w = vec![0u8; nb * 82];
    for b in 0..nb {
        let blk = &mut w[b * 82..b * 82 + 82];
        put_f16(&mut blk[0..2], d);
        for j in 0..72usize {
            blk[2 + j] = (lcg(&mut seed) >> 33) as u8;
        }
        for j in 0..8usize {
            let lo = 6 + (lcg(&mut seed) >> 40) % 4;
            let hi = 6 + (lcg(&mut seed) >> 40) % 4;
            blk[74 + j] = (lo | (hi << 4)) as u8;
        }
    }
    w
}

/// A row of a batch gets the result of a single row, to the bit.
#[test]
fn iq2s_batch_matches_single() {
    for in_f in [256usize, 512] {
        let nb = in_f / 256;
        let w = build_iq2s_rand(nb, 0.05, 80);
        let m = 5usize;
        let q8s: Vec<Q8> = (0..m)
            .map(|r| quantize_q8(&det_x(in_f, 81 + r as u64)))
            .collect();
        let mut batch_out = vec![0f32; m];
        vec_dot_iq2s_batch(&w, &q8s, in_f, &mut batch_out);
        for (r, q8) in q8s.iter().enumerate() {
            let single = vec_dot_iq2s(&w, q8, in_f);
            assert_eq!(
                batch_out[r].to_bits(),
                single.to_bits(),
                "iq2s batch vs single in_f={in_f} row={r}: batch {}, single {single}",
                batch_out[r]
            );
        }
    }
}

/// The dot tracks the dot of the dequantized weights: closely on the activations that the kernel
/// sees, loosely on the activations before quantization.
#[test]
fn iq2s_matches_dequant_reference() {
    for in_f in [256usize, 512] {
        let nb = in_f / 256;
        let w = build_iq2s_wc(nb, 0.03, 70);
        let wref = dequant(DType::Iq2S, &w);
        assert!(wref.iter().any(|&v| v != 0.0));
        let xs: Vec<Vec<f32>> = (0..4).map(|i| det_x(in_f, 71 + i)).collect();
        let q8s: Vec<Q8> = xs.iter().map(|x| quantize_q8(x)).collect();

        let mut got = vec![0f32; xs.len()];
        vec_dot_iq2s_batch(&w, &q8s, in_f, &mut got);
        for (r, (x, q8)) in xs.iter().zip(q8s.iter()).enumerate() {
            let want_q = dot(&wref, &dequant_q8(q8));
            assert!(
                rel_err(got[r], want_q) < 1e-3,
                "iq2s batch(quant-ref) in_f={in_f} row={r}: got {}, want {want_q}",
                got[r]
            );
            let want_f = dot(&wref, x);
            assert!(
                rel_err(got[r], want_f) < 3e-2,
                "iq2s batch(full-ref) in_f={in_f} row={r}: got {}, want {want_f}",
                got[r]
            );
        }
        for (r, (x, q8)) in xs.iter().zip(q8s.iter()).enumerate() {
            let got1 = vec_dot_iq2s(&w, q8, in_f);
            let want_q = dot(&wref, &dequant_q8(q8));
            assert!(
                rel_err(got1, want_q) < 1e-3,
                "iq2s single(quant-ref) in_f={in_f} row={r}: got {got1}, want {want_q}"
            );
            let want_f = dot(&wref, x);
            assert!(
                rel_err(got1, want_f) < 3e-2,
                "iq2s single(full-ref) in_f={in_f} row={r}: got {got1}, want {want_f}"
            );
        }
    }
}

/// Blocks with fixed scales and pseudo-random codes.
fn build_iq2xxs_rand(nb: usize, d: f32, seed: u64) -> Vec<u8> {
    let mut w = det_bytes(nb * 66, seed);
    for b in 0..nb {
        put_f16(&mut w[b * 66..b * 66 + 2], d);
    }
    w
}

/// Blocks with fixed scales and pseudo-random codes.
fn build_iq2xxs_wc(nb: usize, d: f32, mut seed: u64) -> Vec<u8> {
    let mut w = vec![0u8; nb * 66];
    for b in 0..nb {
        let blk = &mut w[b * 66..b * 66 + 66];
        put_f16(&mut blk[0..2], d);
        for j in 0..64usize {
            blk[2 + j] = (lcg(&mut seed) >> 33) as u8;
        }
        for ib32 in 0..8usize {
            let mag = 6 + (lcg(&mut seed) >> 40) % 4;
            let byte = 2 + ib32 * 8 + 7;
            blk[byte] = (blk[byte] & 0x0f) | ((mag as u8) << 4);
        }
    }
    w
}

/// A row of a batch gets the result of a single row, to the bit.
#[test]
fn iq2xxs_batch_matches_single() {
    for in_f in [256usize, 512] {
        let nb = in_f / 256;
        let w = build_iq2xxs_rand(nb, 0.05, 80);
        let m = 5usize;
        let q8s: Vec<Q8> = (0..m)
            .map(|r| quantize_q8(&det_x(in_f, 81 + r as u64)))
            .collect();
        let mut batch_out = vec![0f32; m];
        vec_dot_iq2xxs_batch(&w, &q8s, in_f, &mut batch_out);
        for (r, q8) in q8s.iter().enumerate() {
            let single = vec_dot_iq2xxs(&w, q8, in_f);
            assert_eq!(
                batch_out[r].to_bits(),
                single.to_bits(),
                "iq2xxs batch vs single in_f={in_f} row={r}: batch {}, single {single}",
                batch_out[r]
            );
        }
    }
}

/// The dot tracks the dot of the dequantized weights: closely on the activations that the kernel
/// sees, loosely on the activations before quantization.
#[test]
fn iq2xxs_matches_dequant_reference() {
    for in_f in [256usize, 512] {
        let nb = in_f / 256;
        let w = build_iq2xxs_wc(nb, 0.03, 60);
        let wref = dequant(DType::Iq2Xxs, &w);
        assert!(wref.iter().any(|&v| v != 0.0));
        let xs: Vec<Vec<f32>> = (0..4).map(|i| det_x(in_f, 71 + i)).collect();
        let q8s: Vec<Q8> = xs.iter().map(|x| quantize_q8(x)).collect();

        let mut got = vec![0f32; xs.len()];
        vec_dot_iq2xxs_batch(&w, &q8s, in_f, &mut got);
        for (r, (x, q8)) in xs.iter().zip(q8s.iter()).enumerate() {
            let want_q = dot(&wref, &dequant_q8(q8));
            assert!(
                rel_err(got[r], want_q) < 1e-3,
                "iq2xxs batch(quant-ref) in_f={in_f} row={r}: got {}, want {want_q}",
                got[r]
            );
            let want_f = dot(&wref, x);
            assert!(
                rel_err(got[r], want_f) < 3e-2,
                "iq2xxs batch(full-ref) in_f={in_f} row={r}: got {}, want {want_f}",
                got[r]
            );
        }
        for (r, (x, q8)) in xs.iter().zip(q8s.iter()).enumerate() {
            let got1 = vec_dot_iq2xxs(&w, q8, in_f);
            let want_q = dot(&wref, &dequant_q8(q8));
            assert!(
                rel_err(got1, want_q) < 1e-3,
                "iq2xxs single(quant-ref) in_f={in_f} row={r}: got {got1}, want {want_q}"
            );
            let want_f = dot(&wref, x);
            assert!(
                rel_err(got1, want_f) < 3e-2,
                "iq2xxs single(full-ref) in_f={in_f} row={r}: got {got1}, want {want_f}"
            );
        }
    }
}

/// Blocks with fixed scales and pseudo-random codes.
fn build_tq2_0_rand(nb: usize, d: f32, seed: u64) -> Vec<u8> {
    let mut w = det_bytes(nb * 66, seed);
    for b in 0..nb {
        put_f16(&mut w[b * 66 + 64..b * 66 + 66], d);
    }
    w
}

/// A row of a batch gets the result of a single row, to the bit.
#[test]
fn tq2_0_batch_matches_single() {
    for in_f in [256usize, 512] {
        let w = build_tq2_0_rand(in_f / 256, 0.05, 90);
        let m = 5usize;
        let q8s: Vec<Q8> = (0..m)
            .map(|r| quantize_q8(&det_x(in_f, 91 + r as u64)))
            .collect();
        let mut batch_out = vec![0f32; m];
        vec_dot_tq2_0_batch(&w, &q8s, in_f, &mut batch_out);
        for (r, q8) in q8s.iter().enumerate() {
            let single = vec_dot_tq2_0(&w, q8, in_f);
            assert_eq!(
                batch_out[r].to_bits(),
                single.to_bits(),
                "tq2_0 batch vs single in_f={in_f} row={r}: batch {}, single {single}",
                batch_out[r]
            );
        }
    }
}

/// The dot tracks the dot of the dequantized weights: closely on the activations that the kernel
/// sees, loosely on the activations before quantization.
#[test]
fn tq2_0_matches_dequant_reference() {
    for in_f in [256usize, 512] {
        let w = build_tq2_0_rand(in_f / 256, 0.05, 70);
        let wref = dequant(DType::Tq2_0, &w);
        let dr = f16::from_f32(0.05).to_f32();
        for target in [-dr, 0.0, dr, 2.0 * dr] {
            assert!(
                wref.iter().any(|&v| (v - target).abs() < 1e-6),
                "tq2_0 ref missing weight {target} in_f={in_f}"
            );
        }
        let xs: Vec<Vec<f32>> = (0..4).map(|i| det_x(in_f, 71 + i)).collect();
        let q8s: Vec<Q8> = xs.iter().map(|x| quantize_q8(x)).collect();

        let mut got = vec![0f32; xs.len()];
        vec_dot_tq2_0_batch(&w, &q8s, in_f, &mut got);
        for (r, (x, q8)) in xs.iter().zip(q8s.iter()).enumerate() {
            let want_q = dot(&wref, &dequant_q8(q8));
            assert!(
                rel_err(got[r], want_q) < 1e-3,
                "tq2_0 batch(quant-ref) in_f={in_f} row={r}: got {}, want {want_q}",
                got[r]
            );
            let want_f = dot(&wref, x);
            assert!(
                rel_err(got[r], want_f) < 2e-2,
                "tq2_0 batch(full-ref) in_f={in_f} row={r}: got {}, want {want_f}",
                got[r]
            );
        }
        for (r, (x, q8)) in xs.iter().zip(q8s.iter()).enumerate() {
            let got1 = vec_dot_tq2_0(&w, q8, in_f);
            let want_q = dot(&wref, &dequant_q8(q8));
            assert!(
                rel_err(got1, want_q) < 1e-3,
                "tq2_0 single(quant-ref) in_f={in_f} row={r}: got {got1}, want {want_q}"
            );
            let want_f = dot(&wref, x);
            assert!(
                rel_err(got1, want_f) < 2e-2,
                "tq2_0 single(full-ref) in_f={in_f} row={r}: got {got1}, want {want_f}"
            );
        }
    }
}

/// Blocks with fixed scales and pseudo-random codes.
fn build_tq1_0_rand(nb: usize, d: f32, seed: u64) -> Vec<u8> {
    let mut w = det_bytes(nb * 54, seed);
    for b in 0..nb {
        put_f16(&mut w[b * 54 + 52..b * 54 + 54], d);
    }
    w
}

/// A row of a batch gets the result of a single row, to the bit.
#[test]
fn tq1_0_batch_matches_single() {
    for in_f in [256usize, 512] {
        let w = build_tq1_0_rand(in_f / 256, 0.05, 90);
        let m = 5usize;
        let q8s: Vec<Q8> = (0..m)
            .map(|r| quantize_q8(&det_x(in_f, 91 + r as u64)))
            .collect();
        let mut batch_out = vec![0f32; m];
        vec_dot_tq1_0_batch(&w, &q8s, in_f, &mut batch_out);
        for (r, q8) in q8s.iter().enumerate() {
            let single = vec_dot_tq1_0(&w, q8, in_f);
            assert_eq!(
                batch_out[r].to_bits(),
                single.to_bits(),
                "tq1_0 batch vs single in_f={in_f} row={r}: batch {}, single {single}",
                batch_out[r]
            );
        }
    }
}

/// The dot tracks the dot of the dequantized weights: closely on the activations that the kernel
/// sees, loosely on the activations before quantization.
#[test]
fn tq1_0_matches_dequant_reference() {
    for in_f in [256usize, 512] {
        let w = build_tq1_0_rand(in_f / 256, 0.05, 70);
        let wref = dequant(DType::Tq1_0, &w);
        let dr = f16::from_f32(0.05).to_f32();
        for target in [-dr, 0.0, dr] {
            assert!(
                wref.iter().any(|&v| (v - target).abs() < 1e-6),
                "tq1_0 ref missing weight {target} in_f={in_f}"
            );
        }
        let xs: Vec<Vec<f32>> = (0..4).map(|i| det_x(in_f, 71 + i)).collect();
        let q8s: Vec<Q8> = xs.iter().map(|x| quantize_q8(x)).collect();

        let mut got = vec![0f32; xs.len()];
        vec_dot_tq1_0_batch(&w, &q8s, in_f, &mut got);
        for (r, (x, q8)) in xs.iter().zip(q8s.iter()).enumerate() {
            let want_q = dot(&wref, &dequant_q8(q8));
            assert!(
                rel_err(got[r], want_q) < 1e-3,
                "tq1_0 batch(quant-ref) in_f={in_f} row={r}: got {}, want {want_q}",
                got[r]
            );
            let want_f = dot(&wref, x);
            assert!(
                rel_err(got[r], want_f) < 2e-2,
                "tq1_0 batch(full-ref) in_f={in_f} row={r}: got {}, want {want_f}",
                got[r]
            );
        }
        for (r, (x, q8)) in xs.iter().zip(q8s.iter()).enumerate() {
            let got1 = vec_dot_tq1_0(&w, q8, in_f);
            let want_q = dot(&wref, &dequant_q8(q8));
            assert!(
                rel_err(got1, want_q) < 1e-3,
                "tq1_0 single(quant-ref) in_f={in_f} row={r}: got {got1}, want {want_q}"
            );
            let want_f = dot(&wref, x);
            assert!(
                rel_err(got1, want_f) < 2e-2,
                "tq1_0 single(full-ref) in_f={in_f} row={r}: got {got1}, want {want_f}"
            );
        }
    }
}

/// Blocks with fixed scales and pseudo-random codes.
fn build_iq1s_rand(nb: usize, d: f32, mut seed: u64) -> Vec<u8> {
    let mut w = vec![0u8; nb * 50];
    for b in 0..nb {
        let blk = &mut w[b * 50..b * 50 + 50];
        put_f16(&mut blk[0..2], d);
        for j in 0..32usize {
            blk[2 + j] = (lcg(&mut seed) >> 33) as u8;
        }
        for ib in 0..8usize {
            let low = (lcg(&mut seed) >> 20) as u16 & 0x0fff;
            let scale = (lcg(&mut seed) % 8) as u16;
            let sign = ((lcg(&mut seed) >> 40) & 1) as u16;
            let qh = low | (scale << 12) | (sign << 15);
            blk[34 + 2 * ib..34 + 2 * ib + 2].copy_from_slice(&qh.to_le_bytes());
        }
    }
    w
}

/// A row of a batch gets the result of a single row, to the bit.
#[test]
fn iq1s_batch_matches_single() {
    for in_f in [256usize, 512] {
        let nb = in_f / 256;
        let w = build_iq1s_rand(nb, 0.05, 90);
        let m = 5usize;
        let q8s: Vec<Q8> = (0..m)
            .map(|r| quantize_q8(&det_x(in_f, 91 + r as u64)))
            .collect();
        let mut batch_out = vec![0f32; m];
        vec_dot_iq1s_batch(&w, &q8s, in_f, &mut batch_out);
        for (r, q8) in q8s.iter().enumerate() {
            let single = vec_dot_iq1s(&w, q8, in_f);
            assert_eq!(
                batch_out[r].to_bits(),
                single.to_bits(),
                "iq1s batch vs single in_f={in_f} row={r}: batch {}, single {single}",
                batch_out[r]
            );
        }
    }
}

/// The dot tracks the dot of the dequantized weights: closely on the activations that the kernel
/// sees, loosely on the activations before quantization.
#[test]
fn iq1s_matches_dequant_reference() {
    for in_f in [256usize, 512] {
        let nb = in_f / 256;
        let w = build_iq1s_rand(nb, 0.05, 267);
        let wref = dequant(DType::Iq1S, &w);
        assert!(wref.iter().any(|&v| v != 0.0));
        let xs: Vec<Vec<f32>> = (0..4).map(|i| det_x(in_f, 71 + i)).collect();
        let q8s: Vec<Q8> = xs.iter().map(|x| quantize_q8(x)).collect();

        let mut got = vec![0f32; xs.len()];
        vec_dot_iq1s_batch(&w, &q8s, in_f, &mut got);
        for (r, (x, q8)) in xs.iter().zip(q8s.iter()).enumerate() {
            let want_q = dot(&wref, &dequant_q8(q8));
            assert!(
                rel_err(got[r], want_q) < 1e-3,
                "iq1s batch(quant-ref) in_f={in_f} row={r}: got {}, want {want_q}",
                got[r]
            );
            let want_f = dot(&wref, x);
            assert!(
                rel_err(got[r], want_f) < 3e-2,
                "iq1s batch(full-ref) in_f={in_f} row={r}: got {}, want {want_f}",
                got[r]
            );
        }
        for (r, (x, q8)) in xs.iter().zip(q8s.iter()).enumerate() {
            let got1 = vec_dot_iq1s(&w, q8, in_f);
            let want_q = dot(&wref, &dequant_q8(q8));
            assert!(
                rel_err(got1, want_q) < 1e-3,
                "iq1s single(quant-ref) in_f={in_f} row={r}: got {got1}, want {want_q}"
            );
            let want_f = dot(&wref, x);
            assert!(
                rel_err(got1, want_f) < 3e-2,
                "iq1s single(full-ref) in_f={in_f} row={r}: got {got1}, want {want_f}"
            );
        }
    }
}

/// Blocks with fixed scales and pseudo-random codes.
fn build_iq1m_rand(nb: usize, d: f32, mut seed: u64) -> Vec<u8> {
    let d_bits = f16::from_f32(d).to_bits();
    let mut w = vec![0u8; nb * 56];
    for b in 0..nb {
        let blk = &mut w[b * 56..b * 56 + 56];
        for j in 0..32usize {
            blk[j] = (lcg(&mut seed) >> 33) as u8;
        }
        for j in 0..16usize {
            blk[32 + j] = (lcg(&mut seed) >> 33) as u8;
        }
        for i in 0..4usize {
            let low = (lcg(&mut seed) >> 20) as u16 & 0x0fff;
            let d_nib = (d_bits >> (4 * i)) & 0xf;
            let sc = low | (d_nib << 12);
            blk[48 + 2 * i..48 + 2 * i + 2].copy_from_slice(&sc.to_le_bytes());
        }
    }
    w
}

/// A row of a batch gets the result of a single row, to the bit.
#[test]
fn iq1m_batch_matches_single() {
    for in_f in [256usize, 512] {
        let nb = in_f / 256;
        let w = build_iq1m_rand(nb, 0.05, 90);
        let m = 5usize;
        let q8s: Vec<Q8> = (0..m)
            .map(|r| quantize_q8(&det_x(in_f, 91 + r as u64)))
            .collect();
        let mut batch_out = vec![0f32; m];
        vec_dot_iq1m_batch(&w, &q8s, in_f, &mut batch_out);
        for (r, q8) in q8s.iter().enumerate() {
            let single = vec_dot_iq1m(&w, q8, in_f);
            assert_eq!(
                batch_out[r].to_bits(),
                single.to_bits(),
                "iq1m batch vs single in_f={in_f} row={r}: batch {}, single {single}",
                batch_out[r]
            );
        }
    }
}

/// The dot tracks the dot of the dequantized weights: closely on the activations that the kernel
/// sees, loosely on the activations before quantization.
#[test]
fn iq1m_matches_dequant_reference() {
    for in_f in [256usize, 512] {
        let nb = in_f / 256;
        let w = build_iq1m_rand(nb, 0.05, 5);
        let wref = dequant(DType::Iq1M, &w);
        assert!(wref.iter().any(|&v| v != 0.0));
        let xs: Vec<Vec<f32>> = (0..4).map(|i| det_x(in_f, 71 + i)).collect();
        let q8s: Vec<Q8> = xs.iter().map(|x| quantize_q8(x)).collect();

        let mut got = vec![0f32; xs.len()];
        vec_dot_iq1m_batch(&w, &q8s, in_f, &mut got);
        for (r, (x, q8)) in xs.iter().zip(q8s.iter()).enumerate() {
            let want_q = dot(&wref, &dequant_q8(q8));
            assert!(
                rel_err(got[r], want_q) < 1e-3,
                "iq1m batch(quant-ref) in_f={in_f} row={r}: got {}, want {want_q}",
                got[r]
            );
            let want_f = dot(&wref, x);
            assert!(
                rel_err(got[r], want_f) < 3e-2,
                "iq1m batch(full-ref) in_f={in_f} row={r}: got {}, want {want_f}",
                got[r]
            );
        }
        for (r, (x, q8)) in xs.iter().zip(q8s.iter()).enumerate() {
            let got1 = vec_dot_iq1m(&w, q8, in_f);
            let want_q = dot(&wref, &dequant_q8(q8));
            assert!(
                rel_err(got1, want_q) < 1e-3,
                "iq1m single(quant-ref) in_f={in_f} row={r}: got {got1}, want {want_q}"
            );
            let want_f = dot(&wref, x);
            assert!(
                rel_err(got1, want_f) < 3e-2,
                "iq1m single(full-ref) in_f={in_f} row={r}: got {got1}, want {want_f}"
            );
        }
    }
}

/// Blocks with fixed scales and pseudo-random codes.
fn build_iq2xs_rand(nb: usize, d: f32, seed: u64) -> Vec<u8> {
    let mut w = det_bytes(nb * 74, seed);
    for b in 0..nb {
        put_f16(&mut w[b * 74..b * 74 + 2], d);
    }
    w
}

/// Blocks with fixed scales and pseudo-random codes.
fn build_iq2xs_wc(nb: usize, d: f32, mut seed: u64) -> Vec<u8> {
    let mut w = vec![0u8; nb * 74];
    for b in 0..nb {
        let blk = &mut w[b * 74..b * 74 + 74];
        put_f16(&mut blk[0..2], d);
        for j in 0..64usize {
            blk[2 + j] = (lcg(&mut seed) >> 33) as u8;
        }
        for j in 0..8usize {
            let lo = 6 + (lcg(&mut seed) >> 40) % 4;
            let hi = 6 + (lcg(&mut seed) >> 40) % 4;
            blk[66 + j] = (lo | (hi << 4)) as u8;
        }
    }
    w
}

/// A row of a batch gets the result of a single row, to the bit.
#[test]
fn iq2xs_batch_matches_single() {
    for in_f in [256usize, 512] {
        let nb = in_f / 256;
        let w = build_iq2xs_rand(nb, 0.05, 80);
        let m = 5usize;
        let q8s: Vec<Q8> = (0..m)
            .map(|r| quantize_q8(&det_x(in_f, 81 + r as u64)))
            .collect();
        let mut batch_out = vec![0f32; m];
        vec_dot_iq2xs_batch(&w, &q8s, in_f, &mut batch_out);
        for (r, q8) in q8s.iter().enumerate() {
            let single = vec_dot_iq2xs(&w, q8, in_f);
            assert_eq!(
                batch_out[r].to_bits(),
                single.to_bits(),
                "iq2xs batch vs single in_f={in_f} row={r}: batch {}, single {single}",
                batch_out[r]
            );
        }
    }
}

/// The dot tracks the dot of the dequantized weights: closely on the activations that the kernel
/// sees, loosely on the activations before quantization.
#[test]
fn iq2xs_matches_dequant_reference() {
    for in_f in [256usize, 512] {
        let nb = in_f / 256;
        let w = build_iq2xs_wc(nb, 0.03, 60);
        let wref = dequant(DType::Iq2Xs, &w);
        assert!(wref.iter().any(|&v| v != 0.0));
        let xs: Vec<Vec<f32>> = (0..4).map(|i| det_x(in_f, 71 + i)).collect();
        let q8s: Vec<Q8> = xs.iter().map(|x| quantize_q8(x)).collect();

        let mut got = vec![0f32; xs.len()];
        vec_dot_iq2xs_batch(&w, &q8s, in_f, &mut got);
        for (r, (x, q8)) in xs.iter().zip(q8s.iter()).enumerate() {
            let want_q = dot(&wref, &dequant_q8(q8));
            assert!(
                rel_err(got[r], want_q) < 1e-3,
                "iq2xs batch(quant-ref) in_f={in_f} row={r}: got {}, want {want_q}",
                got[r]
            );
            let want_f = dot(&wref, x);
            assert!(
                rel_err(got[r], want_f) < 3e-2,
                "iq2xs batch(full-ref) in_f={in_f} row={r}: got {}, want {want_f}",
                got[r]
            );
        }
        for (r, (x, q8)) in xs.iter().zip(q8s.iter()).enumerate() {
            let got1 = vec_dot_iq2xs(&w, q8, in_f);
            let want_q = dot(&wref, &dequant_q8(q8));
            assert!(
                rel_err(got1, want_q) < 1e-3,
                "iq2xs single(quant-ref) in_f={in_f} row={r}: got {got1}, want {want_q}"
            );
            let want_f = dot(&wref, x);
            assert!(
                rel_err(got1, want_f) < 3e-2,
                "iq2xs single(full-ref) in_f={in_f} row={r}: got {got1}, want {want_f}"
            );
        }
    }
}

/// Blocks with fixed scales and pseudo-random codes.
fn build_iq3s_rand(nb: usize, d: f32, seed: u64) -> Vec<u8> {
    let mut w = det_bytes(nb * 110, seed);
    for b in 0..nb {
        put_f16(&mut w[b * 110..b * 110 + 2], d);
    }
    w
}

/// Blocks with fixed scales and pseudo-random codes.
fn build_iq3s_wc(nb: usize, d: f32, mut seed: u64) -> Vec<u8> {
    let mut w = vec![0u8; nb * 110];
    for b in 0..nb {
        let blk = &mut w[b * 110..b * 110 + 110];
        put_f16(&mut blk[0..2], d);
        for j in 0..104usize {
            blk[2 + j] = (lcg(&mut seed) >> 33) as u8;
        }
        for j in 0..4usize {
            let lo = 5 + (lcg(&mut seed) >> 40) % 4;
            let hi = 5 + (lcg(&mut seed) >> 40) % 4;
            blk[106 + j] = (lo | (hi << 4)) as u8;
        }
    }
    w
}

/// A row of a batch gets the result of a single row, to the bit.
#[test]
fn iq3s_batch_matches_single() {
    for in_f in [256usize, 512] {
        let nb = in_f / 256;
        let w = build_iq3s_rand(nb, 0.05, 90);
        let m = 5usize;
        let q8s: Vec<Q8> = (0..m)
            .map(|r| quantize_q8(&det_x(in_f, 91 + r as u64)))
            .collect();
        let mut batch_out = vec![0f32; m];
        vec_dot_iq3s_batch(&w, &q8s, in_f, &mut batch_out);
        for (r, q8) in q8s.iter().enumerate() {
            let single = vec_dot_iq3s(&w, q8, in_f);
            assert_eq!(
                batch_out[r].to_bits(),
                single.to_bits(),
                "iq3s batch vs single in_f={in_f} row={r}: batch {}, single {single}",
                batch_out[r]
            );
        }
    }
}

/// The dot tracks the dot of the dequantized weights: closely on the activations that the kernel
/// sees, loosely on the activations before quantization.
#[test]
fn iq3s_matches_dequant_reference() {
    for in_f in [256usize, 512] {
        let nb = in_f / 256;
        let w = build_iq3s_wc(nb, 0.02, 70);
        let wref = dequant(DType::Iq3S, &w);
        assert!(wref.iter().any(|&v| v != 0.0));
        let xs: Vec<Vec<f32>> = (0..4).map(|i| det_x(in_f, 71 + i)).collect();
        let q8s: Vec<Q8> = xs.iter().map(|x| quantize_q8(x)).collect();

        let mut got = vec![0f32; xs.len()];
        vec_dot_iq3s_batch(&w, &q8s, in_f, &mut got);
        for (r, (x, q8)) in xs.iter().zip(q8s.iter()).enumerate() {
            let want_q = dot(&wref, &dequant_q8(q8));
            assert!(
                rel_err(got[r], want_q) < 1e-3,
                "iq3s batch(quant-ref) in_f={in_f} row={r}: got {}, want {want_q}",
                got[r]
            );
            let want_f = dot(&wref, x);
            assert!(
                rel_err(got[r], want_f) < 3e-2,
                "iq3s batch(full-ref) in_f={in_f} row={r}: got {}, want {want_f}",
                got[r]
            );
        }
        for (r, (x, q8)) in xs.iter().zip(q8s.iter()).enumerate() {
            let got1 = vec_dot_iq3s(&w, q8, in_f);
            let want_q = dot(&wref, &dequant_q8(q8));
            assert!(
                rel_err(got1, want_q) < 1e-3,
                "iq3s single(quant-ref) in_f={in_f} row={r}: got {got1}, want {want_q}"
            );
            let want_f = dot(&wref, x);
            assert!(
                rel_err(got1, want_f) < 3e-2,
                "iq3s single(full-ref) in_f={in_f} row={r}: got {got1}, want {want_f}"
            );
        }
    }
}

/// Blocks with fixed scales and pseudo-random codes.
fn build_iq3xxs_rand(nb: usize, d: f32, seed: u64) -> Vec<u8> {
    let mut w = det_bytes(nb * 98, seed);
    for b in 0..nb {
        put_f16(&mut w[b * 98..b * 98 + 2], d);
    }
    w
}

/// Blocks with fixed scales and pseudo-random codes.
fn build_iq3xxs_wc(nb: usize, d: f32, mut seed: u64) -> Vec<u8> {
    let mut w = vec![0u8; nb * 98];
    for b in 0..nb {
        let blk = &mut w[b * 98..b * 98 + 98];
        put_f16(&mut blk[0..2], d);
        for j in 0..64usize {
            blk[2 + j] = (lcg(&mut seed) >> 33) as u8;
        }
        for ib32 in 0..8usize {
            let signs = (lcg(&mut seed) as u32) & 0x0FFF_FFFF;
            let scale = 6 + ((lcg(&mut seed) >> 40) % 4) as u32;
            let aux32 = signs | (scale << 28);
            blk[66 + 4 * ib32..66 + 4 * ib32 + 4].copy_from_slice(&aux32.to_le_bytes());
        }
    }
    w
}

/// A row of a batch gets the result of a single row, to the bit.
#[test]
fn iq3xxs_batch_matches_single() {
    for in_f in [256usize, 512] {
        let nb = in_f / 256;
        let w = build_iq3xxs_rand(nb, 0.05, 90);
        let m = 5usize;
        let q8s: Vec<Q8> = (0..m)
            .map(|r| quantize_q8(&det_x(in_f, 91 + r as u64)))
            .collect();
        let mut batch_out = vec![0f32; m];
        vec_dot_iq3xxs_batch(&w, &q8s, in_f, &mut batch_out);
        for (r, q8) in q8s.iter().enumerate() {
            let single = vec_dot_iq3xxs(&w, q8, in_f);
            assert_eq!(
                batch_out[r].to_bits(),
                single.to_bits(),
                "iq3xxs batch vs single in_f={in_f} row={r}: batch {}, single {single}",
                batch_out[r]
            );
        }
    }
}

/// The dot tracks the dot of the dequantized weights: closely on the activations that the kernel
/// sees, loosely on the activations before quantization.
#[test]
fn iq3xxs_matches_dequant_reference() {
    for in_f in [256usize, 512] {
        let nb = in_f / 256;
        let w = build_iq3xxs_wc(nb, 0.02, 70);
        let wref = dequant(DType::Iq3Xxs, &w);
        assert!(wref.iter().any(|&v| v != 0.0));
        let xs: Vec<Vec<f32>> = (0..4).map(|i| det_x(in_f, 71 + i)).collect();
        let q8s: Vec<Q8> = xs.iter().map(|x| quantize_q8(x)).collect();

        let mut got = vec![0f32; xs.len()];
        vec_dot_iq3xxs_batch(&w, &q8s, in_f, &mut got);
        for (r, (x, q8)) in xs.iter().zip(q8s.iter()).enumerate() {
            let want_q = dot(&wref, &dequant_q8(q8));
            assert!(
                rel_err(got[r], want_q) < 1e-3,
                "iq3xxs batch(quant-ref) in_f={in_f} row={r}: got {}, want {want_q}",
                got[r]
            );
            let want_f = dot(&wref, x);
            assert!(
                rel_err(got[r], want_f) < 3e-2,
                "iq3xxs batch(full-ref) in_f={in_f} row={r}: got {}, want {want_f}",
                got[r]
            );
        }
        for (r, (x, q8)) in xs.iter().zip(q8s.iter()).enumerate() {
            let got1 = vec_dot_iq3xxs(&w, q8, in_f);
            let want_q = dot(&wref, &dequant_q8(q8));
            assert!(
                rel_err(got1, want_q) < 1e-3,
                "iq3xxs single(quant-ref) in_f={in_f} row={r}: got {got1}, want {want_q}"
            );
            let want_f = dot(&wref, x);
            assert!(
                rel_err(got1, want_f) < 3e-2,
                "iq3xxs single(full-ref) in_f={in_f} row={r}: got {got1}, want {want_f}"
            );
        }
    }
}

/// Blocks with fixed scales and pseudo-random codes.
fn build_q2k_rand(nb: usize, d: f32, dmin: f32, seed: u64) -> Vec<u8> {
    let mut w = det_bytes(nb * 84, seed);
    for b in 0..nb {
        put_f16(&mut w[b * 84 + 80..b * 84 + 82], d);
        put_f16(&mut w[b * 84 + 82..b * 84 + 84], dmin);
    }
    w
}

/// Blocks with fixed scales and pseudo-random codes.
fn build_q2k_wc(nb: usize, d: f32, seed: u64) -> Vec<u8> {
    let mut w = det_bytes(nb * 84, seed ^ 0x9E37);
    let mut s = seed;
    for b in 0..nb {
        let blk = &mut w[b * 84..b * 84 + 84];
        for is in 0..16usize {
            let scale = 2 + 2 * ((lcg(&mut s) >> 40) % 2);
            let minv = scale * 3 / 2;
            blk[is] = (scale | (minv << 4)) as u8;
        }
        put_f16(&mut blk[80..82], d);
        put_f16(&mut blk[82..84], d);
    }
    w
}

/// The dot is that of the format's own arithmetic, to the bit.
#[test]
fn q2k_simd_bit_identical_to_scalar() {
    for in_f in [256usize, 512, 768] {
        let nb = in_f / 256;
        let w = build_q2k_rand(nb, 0.05, 0.015, 60);
        let m = 5usize;
        let q8s: Vec<Q8> = (0..m)
            .map(|r| quantize_q8(&det_x(in_f, 61 + r as u64)))
            .collect();
        for (r, q8) in q8s.iter().enumerate() {
            let got = vec_dot_q2k(&w, q8, in_f);
            let want = direct_super(DType::Q2K, &w, q8, in_f);
            assert_eq!(
                got.to_bits(),
                want.to_bits(),
                "q2k single in_f={in_f} row={r}: got {got}, want {want}"
            );
        }
        let mut got_out = vec![0f32; m];
        vec_dot_q2k_batch(&w, &q8s, in_f, &mut got_out);
        let mut want_out = vec![0f32; m];
        direct_super_batch(DType::Q2K, &w, &q8s, in_f, &mut want_out);
        for r in 0..m {
            assert_eq!(
                got_out[r].to_bits(),
                want_out[r].to_bits(),
                "q2k batch in_f={in_f} row={r}: got {}, want {}",
                got_out[r],
                want_out[r]
            );
        }
    }
}

/// The dot tracks the dot of the dequantized weights: closely on the activations that the kernel
/// sees, loosely on the activations before quantization.
#[test]
fn q2k_matches_dequant_reference() {
    for in_f in [256usize, 512, 768] {
        let nb = in_f / 256;
        let w = build_q2k_wc(nb, 0.05, 62);
        let wref = dequant(DType::Q2K, &w);
        assert!(wref.iter().any(|&v| v != 0.0));
        let xs: Vec<Vec<f32>> = (0..4).map(|i| det_x(in_f, 63 + i)).collect();
        let q8s: Vec<Q8> = xs.iter().map(|x| quantize_q8(x)).collect();

        let mut got = vec![0f32; xs.len()];
        vec_dot_q2k_batch(&w, &q8s, in_f, &mut got);
        for (r, (x, q8)) in xs.iter().zip(q8s.iter()).enumerate() {
            let want_q = dot(&wref, &dequant_q8(q8));
            assert!(
                rel_err(got[r], want_q) < 1e-3,
                "q2k batch(quant-ref) in_f={in_f} row={r}: got {}, want {want_q}",
                got[r]
            );
            let want_f = dot(&wref, x);
            assert!(
                rel_err(got[r], want_f) < 2e-2,
                "q2k batch(full-ref) in_f={in_f} row={r}: got {}, want {want_f}",
                got[r]
            );
        }
        for (r, (x, q8)) in xs.iter().zip(q8s.iter()).enumerate() {
            let got1 = vec_dot_q2k(&w, q8, in_f);
            let want_q = dot(&wref, &dequant_q8(q8));
            assert!(
                rel_err(got1, want_q) < 1e-3,
                "q2k single(quant-ref) in_f={in_f} row={r}: got {got1}, want {want_q}"
            );
            let want_f = dot(&wref, x);
            assert!(
                rel_err(got1, want_f) < 2e-2,
                "q2k single(full-ref) in_f={in_f} row={r}: got {got1}, want {want_f}"
            );
        }
    }
}

/// Blocks with fixed scales and pseudo-random codes.
fn build_q3k_rand(nb: usize, d: f32, seed: u64) -> Vec<u8> {
    let mut w = det_bytes(nb * 110, seed);
    for b in 0..nb {
        put_f16(&mut w[b * 110 + 108..b * 110 + 110], d);
    }
    w
}

/// Sixteen 6-bit scales packed in twelve bytes.
fn pack_q3k_scales(dvals: &[u8; 16]) -> [u8; 12] {
    let mut s = [0u8; 12];
    for j in 0..4usize {
        s[j] = (dvals[j] & 0xF) | ((dvals[8 + j] & 0xF) << 4);
        s[4 + j] = (dvals[4 + j] & 0xF) | ((dvals[12 + j] & 0xF) << 4);
        s[8 + j] = ((dvals[j] >> 4) & 3)
            | (((dvals[4 + j] >> 4) & 3) << 2)
            | (((dvals[8 + j] >> 4) & 3) << 4)
            | (((dvals[12 + j] >> 4) & 3) << 6);
    }
    s
}

/// Blocks with fixed scales and pseudo-random codes.
fn build_q3k_wc(nb: usize, d: f32, mut seed: u64) -> Vec<u8> {
    let mut w = det_bytes(nb * 110, seed ^ 0x51D3);
    for b in 0..nb {
        let blk = &mut w[b * 110..b * 110 + 110];
        let mut dvals = [0u8; 16];
        for d6 in dvals.iter_mut() {
            *d6 = (28 + (lcg(&mut seed) >> 40) % 9) as u8;
        }
        blk[96..108].copy_from_slice(&pack_q3k_scales(&dvals));
        put_f16(&mut blk[108..110], d);
    }
    w
}

/// The dot is that of the format's own arithmetic, to the bit.
#[test]
fn q3k_simd_bit_identical_to_scalar() {
    for in_f in [256usize, 512, 768] {
        let nb = in_f / 256;
        let w = build_q3k_rand(nb, 0.05, 70);
        let m = 5usize;
        let q8s: Vec<Q8> = (0..m)
            .map(|r| quantize_q8(&det_x(in_f, 71 + r as u64)))
            .collect();
        for (r, q8) in q8s.iter().enumerate() {
            let got = vec_dot_q3k(&w, q8, in_f);
            let want = direct_super(DType::Q3K, &w, q8, in_f);
            assert_eq!(
                got.to_bits(),
                want.to_bits(),
                "q3k single in_f={in_f} row={r}: got {got}, want {want}"
            );
        }
        let mut got_out = vec![0f32; m];
        vec_dot_q3k_batch(&w, &q8s, in_f, &mut got_out);
        let mut want_out = vec![0f32; m];
        direct_super_batch(DType::Q3K, &w, &q8s, in_f, &mut want_out);
        for r in 0..m {
            assert_eq!(
                got_out[r].to_bits(),
                want_out[r].to_bits(),
                "q3k batch in_f={in_f} row={r}: got {}, want {}",
                got_out[r],
                want_out[r]
            );
        }
    }
}

/// The dot tracks the dot of the dequantized weights: closely on the activations that the kernel
/// sees, loosely on the activations before quantization.
#[test]
fn q3k_matches_dequant_reference() {
    for in_f in [256usize, 512, 768] {
        let nb = in_f / 256;
        let w = build_q3k_wc(nb, 0.0006, 72);
        let wref = dequant(DType::Q3K, &w);
        assert!(wref.iter().any(|&v| v != 0.0));
        let xs: Vec<Vec<f32>> = (0..4).map(|i| det_x(in_f, 73 + i)).collect();
        let q8s: Vec<Q8> = xs.iter().map(|x| quantize_q8(x)).collect();

        let mut got = vec![0f32; xs.len()];
        vec_dot_q3k_batch(&w, &q8s, in_f, &mut got);
        for (r, (x, q8)) in xs.iter().zip(q8s.iter()).enumerate() {
            let want_q = dot(&wref, &dequant_q8(q8));
            assert!(
                rel_err(got[r], want_q) < 1e-3,
                "q3k batch(quant-ref) in_f={in_f} row={r}: got {}, want {want_q}",
                got[r]
            );
            let want_f = dot(&wref, x);
            assert!(
                rel_err(got[r], want_f) < 2e-2,
                "q3k batch(full-ref) in_f={in_f} row={r}: got {}, want {want_f}",
                got[r]
            );
        }
        for (r, (x, q8)) in xs.iter().zip(q8s.iter()).enumerate() {
            let got1 = vec_dot_q3k(&w, q8, in_f);
            let want_q = dot(&wref, &dequant_q8(q8));
            assert!(
                rel_err(got1, want_q) < 1e-3,
                "q3k single(quant-ref) in_f={in_f} row={r}: got {got1}, want {want_q}"
            );
            let want_f = dot(&wref, x);
            assert!(
                rel_err(got1, want_f) < 2e-2,
                "q3k single(full-ref) in_f={in_f} row={r}: got {got1}, want {want_f}"
            );
        }
    }
}

/// A row of a batch gets the result of a single row, to the bit.
#[test]
fn q4k_batch_bit_identical_to_single() {
    let in_f = 512;
    let nb = in_f / 256;
    let m = 7usize;
    let mut w = det_bytes(nb * 144, 20);
    for k in 0..nb {
        put_f16(&mut w[k * 144..k * 144 + 2], 0.05);
        put_f16(&mut w[k * 144 + 2..k * 144 + 4], 0.015);
    }
    let q8s: Vec<Q8> = (0..m)
        .map(|r| quantize_q8(&det_x(in_f, 30 + r as u64)))
        .collect();
    let mut batch_out = vec![0f32; m];
    vec_dot_q4k_batch(&w, &q8s, in_f, &mut batch_out);
    for r in 0..m {
        let want = vec_dot_q4k(&w, &q8s[r], in_f);
        assert_eq!(
            batch_out[r].to_bits(),
            want.to_bits(),
            "q4k batch[{r}]: got {}, want {}",
            batch_out[r],
            want,
        );
    }
}

/// A row of a batch gets the result of a single row, to the bit.
#[test]
fn q6k_batch_bit_identical_to_single() {
    let in_f = 512;
    let nb = in_f / 256;
    let m = 5usize;
    let mut w = det_bytes(nb * 210, 21);
    for k in 0..nb {
        put_f16(&mut w[k * 210 + 208..k * 210 + 210], 0.04);
    }
    let q8s: Vec<Q8> = (0..m)
        .map(|r| quantize_q8(&det_x(in_f, 40 + r as u64)))
        .collect();
    let mut batch_out = vec![0f32; m];
    vec_dot_q6k_batch(&w, &q8s, in_f, &mut batch_out);
    for r in 0..m {
        let want = vec_dot_q6k(&w, &q8s[r], in_f);
        assert_eq!(
            batch_out[r].to_bits(),
            want.to_bits(),
            "q6k batch[{r}]: got {}, want {}",
            batch_out[r],
            want,
        );
    }
}

/// A row of a batch gets the result of a single row, to the bit.
#[test]
fn q8_0_batch_bit_identical_to_single() {
    let in_f = 512;
    let nb_w = in_f / 32;
    let m = 6usize;
    let mut w = det_bytes(nb_w * 34, 22);
    for k in 0..nb_w {
        put_f16(&mut w[k * 34..k * 34 + 2], 0.03);
    }
    let q8s: Vec<Q8> = (0..m)
        .map(|r| quantize_q8(&det_x(in_f, 50 + r as u64)))
        .collect();
    let mut batch_out = vec![0f32; m];
    vec_dot_q8_0_batch(&w, &q8s, in_f, &mut batch_out);
    for r in 0..m {
        let want = vec_dot_q8_0(&w, &q8s[r], in_f);
        assert_eq!(
            batch_out[r].to_bits(),
            want.to_bits(),
            "q8_0 batch[{r}]: got {}, want {}",
            batch_out[r],
            want,
        );
    }
}

/// A row of a batch gets the result of a single row, to the bit.
#[test]
fn q5k_batch_bit_identical_to_single() {
    let in_f = 512;
    let nb = in_f / 256;
    let m = 4usize;
    let mut w = det_bytes(nb * 176, 23);
    for k in 0..nb {
        put_f16(&mut w[k * 176..k * 176 + 2], 0.05);
        put_f16(&mut w[k * 176 + 2..k * 176 + 4], 0.01);
    }
    let q8s: Vec<Q8> = (0..m)
        .map(|r| quantize_q8(&det_x(in_f, 60 + r as u64)))
        .collect();
    let mut batch_out = vec![0f32; m];
    vec_dot_q5k_batch(&w, &q8s, in_f, &mut batch_out);
    for r in 0..m {
        let want = vec_dot_q5k(&w, &q8s[r], in_f);
        assert_eq!(
            batch_out[r].to_bits(),
            want.to_bits(),
            "q5k batch[{r}]: got {}, want {}",
            batch_out[r],
            want,
        );
    }
}

/// A row of a batch gets the result of a single row, to the bit.
#[test]
fn q4k_batch8_bit_identical_to_single() {
    let n_rows = 11usize;
    let in_f = 512;
    let nb = in_f / 256;
    let m = 9usize;

    let ws: Vec<Vec<u8>> = (0..n_rows)
        .map(|i| {
            let mut w = det_bytes(nb * 144, 100 + i as u64);
            for k in 0..nb {
                put_f16(&mut w[k * 144..k * 144 + 2], 0.05);
                put_f16(&mut w[k * 144 + 2..k * 144 + 4], 0.015);
            }
            w
        })
        .collect();

    let q8s: Vec<Q8> = (0..m)
        .map(|r| quantize_q8(&det_x(in_f, 200 + r as u64)))
        .collect();

    let want: Vec<Vec<f32>> = (0..n_rows)
        .map(|i| (0..m).map(|r| vec_dot_q4k(&ws[i], &q8s[r], in_f)).collect())
        .collect();

    let mut got0 = vec![0f32; m];
    let mut got1 = vec![0f32; m];
    let mut got2 = vec![0f32; m];
    let mut got3 = vec![0f32; m];
    let mut got4 = vec![0f32; m];
    let mut got5 = vec![0f32; m];
    let mut got6 = vec![0f32; m];
    let mut got7 = vec![0f32; m];
    vec_dot_q4k_batch8(
        [
            &ws[0], &ws[1], &ws[2], &ws[3], &ws[4], &ws[5], &ws[6], &ws[7],
        ],
        &q8s,
        in_f,
        [
            &mut got0, &mut got1, &mut got2, &mut got3, &mut got4, &mut got5, &mut got6,
            &mut got7,
        ],
    );

    let mut got8 = vec![0f32; m];
    let mut got9 = vec![0f32; m];
    vec_dot_q4k_batch2(&ws[8], &ws[9], &q8s, in_f, &mut got8, &mut got9);

    let mut got10 = vec![0f32; m];
    vec_dot_q4k_batch(&ws[10], &q8s, in_f, &mut got10);

    let got_all: [&Vec<f32>; 11] = [
        &got0, &got1, &got2, &got3, &got4, &got5, &got6, &got7, &got8, &got9, &got10,
    ];
    for i in 0..n_rows {
        for r in 0..m {
            assert_eq!(
                got_all[i][r].to_bits(),
                want[i][r].to_bits(),
                "q4k_batch8 row {i} token {r}: got {}, want {}",
                got_all[i][r],
                want[i][r],
            );
        }
    }
}

/// A row of 1152 weights is no whole number of super-blocks; none of its weights may be left out.
#[test]
fn q8_0_dispatch_sub256_in_f_1152() {
    for &in_f in &[1152usize, 256usize] {
        let nb = in_f / 32;
        let mut w = det_bytes(nb * 34, 77);
        for k in 0..nb {
            put_f16(&mut w[k * 34..k * 34 + 2], 0.03);
        }
        let wref = dequant(DType::Q8_0, &w);
        assert_eq!(wref.len(), in_f);

        let m = 4usize;
        let xs: Vec<Vec<f32>> = (0..m).map(|r| det_x(in_f, 300 + r as u64)).collect();
        let q8s: Vec<Q8x32> = xs.iter().map(|x| quantize_q8_32(x)).collect();

        let mut got_batch = vec![0f32; m];
        vec_dot_q8_0_32_batch(&w, &q8s, in_f, &mut got_batch);

        for (r, q8) in q8s.iter().enumerate() {
            let want = dot(&wref, &dequant_q8_32(q8));
            assert!(
                rel_err(got_batch[r], want) < 1e-3,
                "q8_0 in_f={in_f} batch row {r}: got {}, want {want}",
                got_batch[r],
            );

            let mut got1 = [0f32];
            vec_dot_q8_0_32_batch(&w, std::slice::from_ref(q8), in_f, &mut got1);
            assert_eq!(
                got1[0].to_bits(),
                got_batch[r].to_bits(),
                "q8_0 in_f={in_f} m==1 row {r} diverges from batch",
            );
        }

        if in_f == 1152 {
            let x = &xs[0];
            let full = dot(&wref, x);
            let trunc = dot(&wref[..1024], &x[..1024]);
            assert!(
                rel_err(trunc, full) > 1e-2,
                "expected sub-256 tail to be significant: full {full}, trunc {trunc}",
            );
        }
    }
}

/// Decoding a row gives the scales, mins and codes of its blocks, in order.
#[test]
fn q4k_decode_row_matches_scalar_decode() {
    let nb = 3usize;
    let mut row = det_bytes(nb * 144, 99);
    for b in 0..nb {
        put_f16(&mut row[b * 144..b * 144 + 2], 0.05);
        put_f16(&mut row[b * 144 + 2..b * 144 + 4], 0.015);
    }
    let dec: Decoded = decode_row(&Q4K, &row, nb * 256);
    for b in 0..nb {
        let blk = &row[b * 144..b * 144 + 144];
        assert_eq!(half_bits(dec.d[b]).to_bits(), rdf16(&blk[0..2]).to_bits());
        assert_eq!(half_bits(dec.aux[b]).to_bits(), rdf16(&blk[2..4]).to_bits());
        let scales = &blk[4..16];
        let qs = &blk[16..144];
        for s in 0..8usize {
            let (sc, mv) = k4(s, scales);
            assert_eq!(dec.sc[b * 8 + s], sc, "sc mismatch b={b} s={s}");
            assert_eq!(dec.mins[b * 8 + s], mv, "m mismatch b={b} s={s}");
            let hi = s % 2 == 1;
            let half = s / 2;
            let qbyte = &qs[half * 32..half * 32 + 32];
            for l in 0..32 {
                let want = if hi { qbyte[l] >> 4 } else { qbyte[l] & 0xF };
                assert_eq!(dec.codes[b * 256 + s * 32 + l] as u8, want, "flat b={b} s={s} l={l}");
            }
        }
    }
}

/// `out[r * out_f + o]` is the dot of activation row `r` with weight row `o`.
fn ref_linear(x: &[f32], w: &[f32], m: usize, in_f: usize, out_f: usize) -> Vec<f32> {
    let mut out = vec![0f32; m * out_f];
    for r in 0..m {
        for o in 0..out_f {
            out[r * out_f + o] = dot(&w[o * in_f..o * in_f + in_f], &x[r * in_f..r * in_f + in_f]);
        }
    }
    out
}

fn upload<'a>(be: &CpuBackend<Vec<f32>, Vec<u8>>, bytes: &[u8]) -> CpuBuffer<'a> {
    let mut b = be.alloc_zeroed(bytes.len().max(4));
    be.upload(&mut b, bytes);
    b
}

fn bits_of(xs: &[f32]) -> Vec<u32> {
    xs.iter().map(|v| v.to_bits()).collect()
}

fn numbers(bytes: &[u8]) -> Vec<f32> {
    let words: Vec<u32> = bytes.chunks_exact(4).map(|c| u32::from_ne_bytes([c[0], c[1], c[2], c[3]])).collect();
    words.into_iter().map(f32::from_bits).collect()
}

/// One projection from buffers to a buffer: the activations are read, quantized as the route of the
/// weight type says, dotted with the rows of the weight, and the results put in row order.
fn run_linear(dtype: DType, wbytes: &[u8], xs: &[f32], m: usize, in_f: usize, out_f: usize) -> Vec<f32> {
    let be: CpuBackend<Vec<f32>, Vec<u8>> = CpuBackend::new();
    let mut staged = vec![0u8; 4 * xs.len()];
    assert!(write_words(&mut staged, &bits_of(xs)));
    let xb = upload(&be, &staged);
    let wb = upload(&be, wbytes);
    let mut ob = be.alloc_zeroed((m * out_f * 4).max(4));

    let x = match read_words(xb.read(), m * in_f) {
        Some(words) => words.into_iter().map(f32::from_bits).collect(),
        None => numbers(xb.read()),
    };
    let g = Grids::new();
    let tb = g.tables();
    let win = weight_window(wb.read(), out_f * in_f, in_f, 0, out_f);
    let row = |r: usize| &x[r * in_f..r * in_f + in_f];
    let mut out_t = Vec::new();
    match linear_route(dtype, in_f) {
        ActsKind::Super => {
            let q8s: Vec<Q8> = (0..m).map(|r| quantize_q8(row(r))).collect();
            for col in linear_super(dtype, &tb, win.bytes, win.bpr, &q8s, in_f, out_f) {
                assert_eq!(col.len(), m);
                out_t.extend(col.iter().zip(&q8s).map(|(t, q8)| fold_super(dtype, t, q8)));
            }
        }
        ActsKind::Blk32 => {
            let q8s: Vec<Q8x32> = (0..m).map(|r| quantize_q8_32(row(r))).collect();
            for col in linear_blk32(dtype, &tb, win.bytes, win.bpr, &q8s, in_f, out_f) {
                assert_eq!(col.len(), m);
                out_t.extend(col.iter().zip(&q8s).map(|(t, q8)| fold_blk32(dtype, t, q8)));
            }
        }
        ActsKind::Raw => panic!("{dtype:?} in_f={in_f}: no integer kernel"),
    }
    let out = transpose(&out_t, m, out_f);
    let mut staged = vec![0u8; 4 * out.len()];
    assert!(write_words(&mut staged, &bits_of(&out)));
    be.upload(&mut ob, &staged);
    let mut bytes = vec![0u8; m * out_f * 4];
    be.download(&ob, &mut bytes);
    numbers(&bytes)
}

/// Blocks of any quantized type.
fn synth(dtype: DType, tb: usize) -> Vec<u8> {
    let put_scale = |bpb: usize, doff: usize, dval: f32, seed: u64| -> Vec<u8> {
        let mut w = det_bytes(tb * bpb, seed);
        for k in 0..tb {
            put_f16(&mut w[k * bpb + doff..k * bpb + doff + 2], dval);
        }
        w
    };
    match dtype {
        DType::Q4_0 => put_scale(18, 0, 0.03, 501),
        DType::Q5_0 => put_scale(22, 0, 0.03, 502),
        DType::Q8_0 => put_scale(34, 0, 0.03, 503),
        DType::Q2_0 => put_scale(18, 0, 0.03, 504),
        DType::Q6K => put_scale(210, 208, 0.04, 505),
        DType::Q4K => {
            let mut w = det_bytes(tb * 144, 506);
            for k in 0..tb {
                put_f16(&mut w[k * 144..k * 144 + 2], 0.05);
                put_f16(&mut w[k * 144 + 2..k * 144 + 4], 0.015);
            }
            w
        }
        DType::Q5K => {
            let mut w = det_bytes(tb * 176, 507);
            for k in 0..tb {
                put_f16(&mut w[k * 176..k * 176 + 2], 0.05);
                put_f16(&mut w[k * 176 + 2..k * 176 + 4], 0.01);
            }
            w
        }
        DType::Q4_1 => build_q4_1(tb, 0.02, -0.01, 508),
        DType::Q5_1 => build_q5_1(tb, 0.02, -0.01, 509),
        DType::Q2K => build_q2k_rand(tb, 0.05, 0.015, 510),
        DType::Q3K => build_q3k_rand(tb, 0.05, 511),
        DType::Iq4Nl => build_iq4nl(tb, 0.02, 512),
        DType::Iq4Xs => build_iq4xs_rand(tb, 0.05, 513),
        DType::Iq2S => build_iq2s_rand(tb, 0.05, 514),
        DType::Iq2Xs => build_iq2xs_rand(tb, 0.05, 515),
        DType::Iq2Xxs => build_iq2xxs_rand(tb, 0.05, 516),
        DType::Iq3S => build_iq3s_rand(tb, 0.05, 517),
        DType::Iq3Xxs => build_iq3xxs_rand(tb, 0.05, 518),
        DType::Iq1S => build_iq1s_rand(tb, 0.05, 519),
        DType::Iq1M => build_iq1m_rand(tb, 0.05, 520),
        DType::Tq1_0 => build_tq1_0_rand(tb, 0.05, 521),
        DType::Tq2_0 => build_tq2_0_rand(tb, 0.05, 522),
        DType::Mxfp4 => build_mxfp4_band(tb, 523),
        DType::Nvfp4 => build_nvfp4_band(tb, 524),
        other => panic!("synth: unhandled dtype {other:?}"),
    }
}

/// A projection of any quantized type, with rows that are a whole number of the type's blocks and
/// mostly not of super-blocks, gives the product of the dequantized weights with the activations.
#[test]
fn op_linear_dispatch_awkward_in_f_all_quants() {
    let cases: &[(DType, usize, &[usize])] = &[
        (DType::Q4_0, 32, &[1152, 320]),
        (DType::Q4_1, 32, &[1152, 320]),
        (DType::Q5_0, 32, &[1152, 320]),
        (DType::Q5_1, 32, &[1152, 320]),
        (DType::Q8_0, 32, &[1152, 320]),
        (DType::Iq4Nl, 32, &[1152, 320]),
        (DType::Mxfp4, 32, &[1152, 320]),
        (DType::Q2_0, 64, &[128, 320]),
        (DType::Nvfp4, 64, &[128, 320]),
        (DType::Q4K, 256, &[256, 512]),
        (DType::Q5K, 256, &[256, 512]),
        (DType::Q6K, 256, &[256, 512]),
        (DType::Q2K, 256, &[256, 512]),
        (DType::Q3K, 256, &[256, 512]),
        (DType::Iq4Xs, 256, &[256, 512]),
        (DType::Iq2S, 256, &[256, 512]),
        (DType::Iq2Xs, 256, &[256, 512]),
        (DType::Iq2Xxs, 256, &[256, 512]),
        (DType::Iq3S, 256, &[256, 512]),
        (DType::Iq3Xxs, 256, &[256, 512]),
        (DType::Iq1S, 256, &[256, 512]),
        (DType::Iq1M, 256, &[256, 512]),
        (DType::Tq1_0, 256, &[256, 512]),
        (DType::Tq2_0, 256, &[256, 512]),
    ];
    let out_f = 13usize;
    for &(dtype, blk, in_fs) in cases {
        for &in_f in in_fs {
            let tb = out_f * (in_f / blk);
            let wbytes = synth(dtype, tb);
            let wref = dequant(dtype, &wbytes);
            assert_eq!(wref.len(), out_f * in_f, "{dtype:?}: dequant length");
            for &m in &[1usize, 5] {
                let xs = det_x(m * in_f, 900 + in_f as u64 + m as u64);
                let got = run_linear(dtype, &wbytes, &xs, m, in_f, out_f);
                let reference = ref_linear(&xs, &wref, m, in_f, out_f);
                let scale = reference.iter().fold(1e-3f32, |a, &v| a.max(v.abs()));
                for (i, (&g_i, &r_i)) in got.iter().zip(reference.iter()).enumerate() {
                    let diff = (g_i - r_i).abs();
                    assert!(
                        diff <= 2e-2 * scale,
                        "{dtype:?} in_f={in_f} m={m} out[{i}]: got {g_i}, want {r_i} (|diff| {diff} > {})",
                        2e-2 * scale,
                    );
                }
            }
        }
    }
}
