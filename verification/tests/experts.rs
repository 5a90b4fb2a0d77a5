//! Routing rows to experts, the staged expert products, and the spread of the work.
use half::f16;
use infr_cpu::dispatch::{ActsKind, Tables};
use infr_cpu::dtype::DType;
use infr_cpu::gemm::{expert_acts_kind, expert_gemm_range, ExpertActs};
use infr_cpu::kernels::{vec_dot_q4k, vec_dot_q5_0_32_batch, vec_dot_q8_0_32_batch, vec_dot_q8_0_batch};
use infr_cpu::moe::{
    expert_bank, gather_blk32, gather_super, gemm_tasks, moe_gemm, out_offsets, pair_row, place_pairs, Experts, GemmTask,
};
use infr_cpu::quant::{Q8, Q8x32};
use infr_cpu::route::group_pairs;
use infr_cpu::stats::{best_waste, expert_counts, histogram, sorted_counts, tile_cost, TileCost};

fn bytes(n: usize, mut seed: u64) -> Vec<u8> {
    (0..n)
        .map(|_| {
            seed = seed.wrapping_mul(6364136223846793005).wrapping_add(1442695040888963407);
            (seed >> 33) as u8
        })
        .collect()
}

fn codes(n: usize, seed: u64) -> Vec<i8> {
    bytes(n, seed).into_iter().map(|b| b as i8).collect()
}

fn super_row(in_f: usize, seed: u64) -> Q8 {
    Q8::new(codes(in_f, seed), vec![0; in_f / 256]).unwrap()
}

fn blk32_row(in_f: usize, seed: u64) -> Q8x32 {
    Q8x32::new(codes(in_f, seed), vec![0; in_f / 32]).unwrap()
}

struct Grids {
    big: Vec<u64>,
    small: Vec<u32>,
    signs: Vec<u8>,
}

impl Grids {
    fn new() -> Grids {
        Grids { big: vec![0; 2048], small: vec![0; 512], signs: vec![0; 128] }
    }

    fn tables(&self) -> Tables<'_> {
        Tables {
            kv_iq4nl: [0; 16],
            kv_mxfp4: [0; 16],
            grid_iq2s: &self.big[..1024],
            grid_iq2xs: &self.big[..512],
            grid_iq2xxs: &self.big[..256],
            grid_iq3s: &self.small,
            grid_iq3xxs: &self.small[..256],
            grid_iq1: &self.big,
            signs: &self.signs,
        }
    }
}

#[test]
fn pairs_are_grouped_by_expert() {
    let routes = vec![vec![2, 0], vec![4, 2], vec![0, 4]];
    let p = group_pairs(&routes, 5);
    let buckets: Vec<(usize, usize, usize)> = p.buckets.iter().map(|b| (b.expert, b.p0, b.count)).collect();
    assert_eq!(buckets, vec![(0, 0, 2), (2, 2, 2), (4, 4, 2)]);
    assert_eq!(p.row, vec![0, 2, 0, 1, 1, 2]);
    assert_eq!(p.rank, vec![1, 0, 0, 1, 0, 1]);
    assert_eq!(p.bucket, vec![0, 0, 1, 1, 2, 2]);
    assert_eq!(p.local, vec![0, 1, 0, 1, 0, 1]);
    assert_eq!(p.slot_pair, vec![vec![2, 0], vec![4, 3], vec![1, 5]]);
    let none = group_pairs(&vec![], 3);
    assert!(none.buckets.is_empty() && none.row.is_empty());
}

#[test]
fn outputs_stand_bucket_by_bucket() {
    let p = group_pairs(&vec![vec![2, 0], vec![4, 2], vec![0, 4]], 5);
    assert_eq!(out_offsets(&p, 10), vec![0, 20, 40, 60]);
    assert_eq!(out_offsets(&group_pairs(&vec![], 3), 10), vec![0]);
    let small = group_pairs(&vec![vec![1], vec![0], vec![1]], 2);
    assert_eq!(place_pairs(&small, 2), vec![0, 0, 1, 2, 1, 2]);
}

#[test]
fn tasks_cover_every_output_row_once() {
    assert_eq!(
        gemm_tasks(2, 70),
        vec![
            GemmTask { bucket: 0, o0: 0, o1: 64 },
            GemmTask { bucket: 0, o0: 64, o1: 70 },
            GemmTask { bucket: 1, o0: 0, o1: 64 },
            GemmTask { bucket: 1, o0: 64, o1: 70 },
        ]
    );
    assert!(gemm_tasks(3, 0).is_empty() && gemm_tasks(0, 9).is_empty());
    for out_f in [1usize, 63, 64, 65, 128, 200] {
        let mut seen = vec![[0; 200]; 3];
        for t in gemm_tasks(3, out_f) {
            assert_eq!(t.o0 % 8, 0);
            for o in t.o0..t.o1 {
                seen[t.bucket][o] += 1;
            }
        }
        for b in &seen {
            assert!(b[..out_f].iter().all(|&n| n == 1) && b[out_f..].iter().all(|&n| n == 0));
        }
    }
}

#[test]
fn activation_kinds() {
    assert_eq!(expert_acts_kind(DType::Q4K, 512, true), ActsKind::Super);
    assert_eq!(expert_acts_kind(DType::Q4K, 512, false), ActsKind::Raw);
    assert_eq!(expert_acts_kind(DType::Q8_0, 512, true), ActsKind::Super);
    assert_eq!(expert_acts_kind(DType::Q8_0, 704, true), ActsKind::Blk32);
    assert_eq!(expert_acts_kind(DType::Q5_0, 512, true), ActsKind::Blk32);
    assert_eq!(expert_acts_kind(DType::Q5_0, 40, true), ActsKind::Raw);
    assert_eq!(expert_acts_kind(DType::F16, 512, true), ActsKind::Raw);
    assert_eq!(expert_acts_kind(DType::Iq4Nl, 512, true), ActsKind::Raw);
}

/// Whatever the range, a row of a bank gets what a kernel gives it alone.
#[test]
fn ranges_of_a_bank_agree_with_the_kernels() {
    let g = Grids::new();
    let tb = g.tables();
    let (in_f, out_f, m) = (256usize, 19usize, 3usize);
    let bank = bytes(out_f * 144, 7);
    let q8s: Vec<Q8> = (0..m).map(|r| super_row(in_f, 20 + r as u64)).collect();
    for (o0, o1) in [(0, 19), (0, 16), (8, 19), (16, 17), (8, 8)] {
        let got = expert_gemm_range(&bank, DType::Q4K, &tb, in_f, out_f, &ExpertActs::Super(&q8s), o0, o1);
        assert_eq!(got.len(), o1 - o0);
        for (k, col) in got.iter().enumerate() {
            let row = &bank[(o0 + k) * 144..(o0 + k + 1) * 144];
            for r in 0..m {
                assert_eq!(col[r], vec_dot_q4k(row, &q8s[r], in_f));
            }
        }
    }
    let bank = bytes(out_f * 8 * 34, 8);
    let got = expert_gemm_range(&bank, DType::Q8_0, &tb, in_f, out_f, &ExpertActs::Super(&q8s), 8, 19);
    assert_eq!(got[5], vec_dot_q8_0_batch(&bank[13 * 272..14 * 272], &q8s, in_f));
    let in_f = 96;
    let acts: Vec<Q8x32> = (0..m).map(|r| blk32_row(in_f, 30 + r as u64)).collect();
    let bank = bytes(out_f * 3 * 34, 9);
    let got = expert_gemm_range(&bank, DType::Q8_0, &tb, in_f, out_f, &ExpertActs::Blk32(&acts), 0, 19);
    for (o, col) in got.iter().enumerate() {
        assert_eq!(*col, vec_dot_q8_0_32_batch(&bank[o * 102..o * 102 + 102], &acts, in_f));
    }
    let bank = bytes(out_f * 3 * 22, 10);
    let got = expert_gemm_range(&bank, DType::Q5_0, &tb, in_f, out_f, &ExpertActs::Blk32(&acts), 8, 18);
    for (k, col) in got.iter().enumerate() {
        let o = 8 + k;
        assert_eq!(*col, vec_dot_q5_0_32_batch(&bank[o * 66..o * 66 + 66], &acts, in_f));
    }
}

/// The pair of a slot holds the outputs of the slot's expert against the slot's row.
#[test]
fn grouping_keeps_each_slot() {
    let g = Grids::new();
    let tb = g.tables();
    let (in_f, out_f, n_expert) = (256usize, 70usize, 4usize);
    let wbytes = bytes(n_expert * out_f * 144, 11);
    let rows: Vec<Q8> = (0..5).map(|r| super_row(in_f, 40 + r as u64)).collect();
    let routes = vec![vec![3, 1], vec![1, 0], vec![3, 0], vec![1, 3], vec![0, 1]];
    let pairs = group_pairs(&routes, n_expert);
    let acts = gather_super(&rows, &pairs);
    let ex = Experts { wbytes: &wbytes, dt: DType::Q4K, n_expert, in_f, out_f };
    let flat = moe_gemm(&ex, &tb, &pairs, &ExpertActs::Super(&acts));
    assert_eq!(flat.len(), out_f * 10);
    let sums: Vec<i32> = flat.iter().map(|t| t.iter().map(|t| t.sd).sum()).collect();
    for (r, row) in routes.iter().enumerate() {
        for (k, &e) in row.iter().enumerate() {
            let bank = expert_bank(&wbytes, n_expert, e);
            let outs = pair_row(&sums, &pairs, out_f, pairs.slot_pair[r][k]);
            assert_eq!(outs.len(), out_f);
            for (o, got) in outs.iter().enumerate() {
                let terms = vec_dot_q4k(&bank[o * 144..o * 144 + 144], &rows[r], in_f);
                assert_eq!(*got, terms.iter().map(|t| t.sd).sum::<i32>());
            }
        }
    }
}

#[test]
fn grouping_keeps_each_slot_of_small_blocks() {
    let g = Grids::new();
    let tb = g.tables();
    let (in_f, out_f, n_expert) = (64usize, 9usize, 3usize);
    let wbytes = bytes(n_expert * out_f * 2 * 22, 12);
    let rows: Vec<Q8x32> = (0..3).map(|r| blk32_row(in_f, 50 + r as u64)).collect();
    let pairs = group_pairs(&vec![vec![2], vec![0], vec![2]], n_expert);
    let acts = gather_blk32(&rows, &pairs);
    assert_eq!(acts[2].qs, rows[2].qs);
    let ex = Experts { wbytes: &wbytes, dt: DType::Q5_0, n_expert, in_f, out_f };
    let flat = moe_gemm(&ex, &tb, &pairs, &ExpertActs::Blk32(&acts));
    let bank = expert_bank(&wbytes, n_expert, 2);
    // Bucket 1 holds two pairs from pair 1 on; row 2 is its second pair.
    for o in 0..out_f {
        let want = vec_dot_q5_0_32_batch(&bank[o * 44..o * 44 + 44], &rows[2..3], in_f);
        assert_eq!(flat[out_f + o * 2 + 1], want[0]);
    }
}

#[test]
fn work_statistics() {
    let pairs = group_pairs(&vec![vec![1], vec![1, 3], vec![1]], 5);
    let counts = expert_counts(&pairs, 5);
    assert_eq!(counts, vec![0, 3, 0, 1, 0]);
    assert_eq!(sorted_counts(&counts), vec![0, 0, 0, 1, 3]);
    let counts = vec![0, 1, 16, 17, 40, 64, 100];
    assert_eq!(tile_cost(&counts, 16), TileCost { tiles: 0 + 1 + 1 + 2 + 3 + 4 + 7, waste: 16 + 15 + 0 + 15 + 8 + 0 + 12 });
    assert_eq!(tile_cost(&counts, 64), TileCost { tiles: 0 + 1 + 1 + 1 + 1 + 1 + 2, waste: 64 + 63 + 48 + 47 + 24 + 0 + 28 });
    assert_eq!(best_waste(&counts), 16 + 15 + 0 + 15 + 8 + 0 + 12);
    assert_eq!(histogram(&vec![0, 3, 4, 8, 15, 23, 31, 32, 63, 64, 900]), [2, 1, 2, 1, 1, 1, 1, 2]);
}

/// A half-precision scale travels through a product as its bit pattern.
#[test]
fn scales_travel_as_bits() {
    let mut blk = vec![0u8; 34];
    blk[..2].copy_from_slice(&f16::from_f32(0.5).to_le_bytes());
    blk[2] = 3;
    let mut qs = vec![0i8; 32];
    qs[0] = -7;
    let acts = vec![Q8x32::new(qs, vec![0]).unwrap()];
    let got = vec_dot_q8_0_32_batch(&blk, &acts, 32);
    assert_eq!((got[0][0].d, got[0][0].sd), (0x3800, -21));
}

/// The outputs of the tasks of a stage stand one behind the other and fill its buffer.
#[test]
fn task_outputs_do_not_overlap() {
    let pairs = group_pairs(&vec![vec![2, 0], vec![0, 1], vec![0, 2]], 4);
    for out_f in [5usize, 64, 130] {
        let off = out_offsets(&pairs, out_f);
        let mut end = 0;
        for t in gemm_tasks(pairs.buckets.len(), out_f) {
            let count = pairs.buckets[t.bucket].count;
            assert_eq!(off[t.bucket] + t.o0 * count, end);
            end = off[t.bucket] + t.o1 * count;
        }
        assert_eq!(end, out_f * pairs.row.len());
    }
}
