//! Moving elements between tensors, and where operations find their operands.
use infr_cpu::layout::{
    conv_scan, conv_window, delta_head, fused_operands, gated_operands, rope_pair, shift_history, GatedLayout,
    RopeStyle,
};
use infr_cpu::linear::{table_row, weight_row, weight_window};
use infr_cpu::ops::{copy_run, copy_strided, gather_rows, split_qkv, take_columns, transpose, unpack_heads, Rows};

#[test]
fn runs_are_copied() {
    let mut dst = vec![0, 1, 2, 3, 4];
    copy_run(&mut dst, 1, &[7, 8, 9], 1, 2);
    assert_eq!(dst, vec![0, 8, 9, 3, 4]);
    copy_run(&mut dst, 5, &[7], 1, 0);
    assert_eq!(dst, vec![0, 8, 9, 3, 4]);
}

#[test]
fn strided_rows_are_copied() {
    let mut dst = vec![0u8; 8];
    let src: Vec<u8> = (10..22).collect();
    copy_strided(&mut dst, Rows { at: 1, stride: 3 }, &src, Rows { at: 2, stride: 4 }, 2, 2);
    assert_eq!(dst, vec![0, 12, 13, 0, 16, 17, 0, 0]);
    let rows = Rows { at: 1, stride: 3 };
    assert!(rows.fits(2, 2, 6) && !rows.fits(2, 2, 5) && rows.fits(0, 9, 0) && !rows.fits(usize::MAX, 1, usize::MAX));
    // Rows that overlap: the later one stays.
    let mut dst = vec![0u8; 4];
    copy_strided(&mut dst, Rows { at: 0, stride: 1 }, &src, Rows { at: 0, stride: 4 }, 2, 3);
    assert_eq!(dst, vec![10, 14, 15, 16]);
}

#[test]
fn transposing_twice_gives_the_tensor_back() {
    let src: Vec<u32> = (0..6).collect();
    let once = transpose(&src, 2, 3);
    assert_eq!(once, vec![0, 2, 4, 1, 3, 5]);
    assert_eq!(transpose(&once, 3, 2), src);
    assert!(transpose::<u32>(&[], 0, 3).is_empty());
}

#[test]
fn columns_and_parts_of_rows() {
    let src: Vec<u32> = (0..14).collect();
    assert_eq!(take_columns(&src, 2, 7, 1, 2), vec![1, 2, 8, 9]);
    let (q, k, v) = split_qkv(&src, 2, 7, 2, 3);
    assert_eq!(q, vec![0, 1, 7, 8]);
    assert_eq!(k, vec![2, 3, 9, 10]);
    assert_eq!(v, vec![4, 5, 6, 11, 12, 13]);
    assert_eq!(gather_rows(&src, 2, &vec![6, 0, 6]), vec![12, 13, 0, 1, 12, 13]);
}

#[test]
fn interleaved_heads_are_packed() {
    // Two rows of two heads of two elements, each followed by two gating elements.
    let src: Vec<u32> = (0..17).collect();
    assert_eq!(unpack_heads(&src, 2, 2, 2, 9), vec![0, 1, 4, 5, 9, 10, 13, 14]);
}

#[test]
fn gated_layouts() {
    let gate: Vec<u32> = (0..32).collect();
    let up: Vec<u32> = (100..132).collect();
    let plain = GatedLayout { nff: 2, up_off: 0, up_stride: 0, gate_stride: 0, gate_block_width: 0 };
    assert_eq!(gated_operands(&gate, &up, plain, 2), vec![(0, 100), (1, 101), (2, 102), (3, 103)]);
    let strided = GatedLayout { nff: 2, up_off: 3, up_stride: 5, gate_stride: 7, gate_block_width: 0 };
    assert_eq!(gated_operands(&gate, &up, strided, 2), vec![(0, 103), (1, 104), (7, 108), (8, 109)]);
    let packed_up = GatedLayout { nff: 2, up_off: 3, up_stride: 0, gate_stride: 7, gate_block_width: 0 };
    assert_eq!(gated_operands(&gate, &up, packed_up, 2), vec![(0, 103), (1, 104), (7, 105), (8, 106)]);
    let blocks = GatedLayout { nff: 4, up_off: 0, up_stride: 0, gate_stride: 16, gate_block_width: 4 };
    assert_eq!(
        gated_operands(&gate, &up, blocks, 2),
        vec![(2, 100), (3, 101), (6, 102), (7, 103), (18, 104), (19, 105), (22, 106), (23, 107)]
    );
    assert!(blocks.fits(2, 24, 8) && !blocks.fits(2, 23, 8) && !blocks.fits(2, 24, 7) && blocks.fits(0, 0, 0));
    assert!(strided.fits(2, 9, 10) && !strided.fits(2, 8, 10) && !strided.fits(2, 9, 9));
    assert!(plain.fits(2, 4, 4) && !plain.fits(usize::MAX, 4, 4));
    assert!(!GatedLayout { gate_block_width: 1, ..plain }.fits(1, 9, 9));
    assert_eq!(fused_operands(&gate, 2, 3)[3..].to_vec(), vec![(6, 9), (7, 10), (8, 11)]);
}

#[test]
fn rotary_pairs_cover_each_dimension_once() {
    for style in [RopeStyle::Interleaved, RopeStyle::SplitHalf] {
        for rd in [1usize, 6, 7] {
            let mut seen = vec![0; rd];
            for p in 0..rd / 2 {
                let (a, b) = rope_pair(style, rd, p);
                seen[a] += 1;
                seen[b] += 1;
            }
            for (i, n) in seen.iter().enumerate() {
                assert_eq!(*n, (i < 2 * (rd / 2)) as i32);
            }
        }
    }
    assert_eq!(rope_pair(RopeStyle::Interleaved, 8, 3), (6, 7));
    assert_eq!(rope_pair(RopeStyle::SplitHalf, 8, 3), (3, 7));
}

/// Over a sequence of rows the window of a channel is that of the last inputs, the initial history
/// before them.
#[test]
fn convolution_history_rolls() {
    let (cc, kk) = (2usize, 3usize);
    let mut state = vec![1, 2, 3, 4];
    let inputs: Vec<Vec<i32>> = (0..4).map(|t| vec![10 + 2 * t, 11 + 2 * t]).collect();
    let mut all = vec![vec![1, 2], vec![3, 4]];
    for x in &inputs {
        all.push(x.clone());
        let n = all.len();
        for ch in 0..cc {
            let want: Vec<i32> = all[n - kk..].iter().map(|r| r[ch]).collect();
            assert_eq!(conv_window(&state, x, cc, kk, ch), want);
        }
        shift_history(&mut state, x, cc, kk);
        assert_eq!(state, [all[n - 2].clone(), all[n - 1].clone()].concat());
    }
    let mut none: Vec<i32> = vec![9];
    shift_history(&mut none, &[5], 1, 1);
    assert_eq!(none, vec![9]);
    assert_eq!(conv_window(&none, &[5], 1, 1, 0), vec![5]);
}

#[test]
fn a_scan_gives_every_window() {
    let mut state = vec![1, 2, 3, 4, 99];
    let w = conv_scan(&mut state, &[10, 11, 12, 13, 14, 15, 77], 3, 2, 3);
    let want = [[1, 3, 10], [2, 4, 11], [3, 10, 12], [4, 11, 13], [10, 12, 14], [11, 13, 15]];
    assert_eq!(w, want);
    assert_eq!(state, vec![12, 13, 14, 15, 99]);
    let mut short = vec![1, 2, 3];
    assert_eq!(conv_scan(&mut short, &[4], 1, 1, 4), [[1, 2, 3, 4]]);
    assert_eq!(short, vec![2, 3, 4]);
    let mut none: Vec<i32> = vec![];
    assert_eq!(conv_scan(&mut none, &[5, 6], 2, 1, 1), [[5], [6]]);
    assert!(conv_scan(&mut short, &[], 0, 1, 4).is_empty());
    assert_eq!(short, vec![2, 3, 4]);
}

#[test]
fn a_scan_may_be_cut_in_two() {
    let (cc, kk, rows) = (3usize, 4usize, 6usize);
    let first: Vec<u32> = (0..(kk - 1) as u32 * cc as u32).collect();
    let xs: Vec<u32> = (100..100 + (rows * cc) as u32).collect();
    let mut whole = first.clone();
    let w = conv_scan(&mut whole, &xs, rows, cc, kk);
    for r1 in 0..=rows {
        let mut state = first.clone();
        let mut parts = conv_scan(&mut state, &xs[..r1 * cc], r1, cc, kk);
        parts.extend(conv_scan(&mut state, &xs[r1 * cc..], rows - r1, cc, kk));
        assert_eq!(parts, w);
        assert_eq!(state, whole);
    }
}

#[test]
fn delta_heads_share_keys() {
    let p = delta_head(2, 3, 2, 4, 4, 5);
    assert_eq!((p.qk_at, p.v_at, p.gate_at, p.state_at), (2 * 8 + 4, 2 * 20 + 15, 2 * 4 + 3, 60));
}

#[test]
fn weight_rows_of_a_concatenated_tensor() {
    let bytes: Vec<u8> = (0..60).collect();
    // Ten rows of eight elements in six bytes each; three rows from row 4 on.
    let w = weight_window(&bytes, 80, 8, 32, 3);
    assert_eq!((w.bpr, w.bytes), (6, &bytes[24..42]));
    assert_eq!(weight_row(w.bytes, w.bpr, 2), &bytes[36..42]);
    assert_eq!(table_row(&bytes, 80, 8, 9), &bytes[54..60]);
}
