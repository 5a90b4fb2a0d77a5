//! Choosing by value: greatest elements, rankings, samples.
use infr_cpu::select::{abs_max, argmax, argmax_rows, bracket, nucleus_cutoff, order_key, pick, top_k, Bracket};

fn bits(xs: &[f32]) -> Vec<u32> {
    xs.iter().map(|v| v.to_bits()).collect()
}

#[test]
fn keys_order_as_the_numbers_do() {
    let xs = [f32::NEG_INFINITY, -3.5, -1e-40, -0.0, 0.0, 1e-40, 2.0, f32::MAX, f32::INFINITY];
    for a in xs {
        for b in xs {
            assert_eq!(a < b, order_key(a.to_bits()) < order_key(b.to_bits()));
            assert_eq!(a == b, order_key(a.to_bits()) == order_key(b.to_bits()));
        }
    }
}

#[test]
fn greatest_element() {
    assert_eq!(argmax(&bits(&[1.0, 5.0, -2.0, 5.0])), 1);
    assert_eq!(argmax(&bits(&[f32::NAN, -3.0, -1.0, f32::NAN])), 2);
    assert_eq!(argmax(&bits(&[f32::NEG_INFINITY, f32::NAN])), 0);
    assert_eq!(argmax(&bits(&[-0.0, 0.0])), 0);
    assert_eq!(argmax(&[]), 0);
    assert_eq!(argmax_rows(&bits(&[1.0, 2.0, 4.0, 3.0, 0.0, 0.5]), 2, 3), vec![1, 0, 1]);
}

#[test]
fn greatest_magnitude() {
    assert_eq!(abs_max(&bits(&[1.0, -5.0, 5.0])), (-5.0f32).to_bits());
    assert_eq!(abs_max(&bits(&[0.0, -0.0, f32::NAN])), 0);
}

/// The ranking of a stable sort from the greatest down, cut off after `k`.
#[test]
fn rankings_are_those_of_a_stable_sort() {
    let xs = [0.25f32, 3.0, -1.0, 3.0, 0.0, -0.0, 7.5, 0.25];
    for k in 0..=9usize {
        let mut want: Vec<usize> = (0..xs.len()).collect();
        want.sort_by(|&a, &b| xs[b].partial_cmp(&xs[a]).unwrap());
        want.truncate(k);
        assert_eq!(top_k(&bits(&xs), k), want);
    }
}

#[test]
fn nucleus_and_pick() {
    let sums = bits(&[0.5, 0.75, 0.9, 1.0]);
    assert_eq!(nucleus_cutoff(&sums, 0.75f32.to_bits()), 2);
    assert_eq!(nucleus_cutoff(&sums, 0.0f32.to_bits()), 1);
    assert_eq!(nucleus_cutoff(&sums, 1.5f32.to_bits()), 4);
    assert_eq!(nucleus_cutoff(&sums, f32::NAN.to_bits()), 4);
    assert_eq!(nucleus_cutoff(&[], 0.5f32.to_bits()), 0);
    assert_eq!(pick(&sums, 3, 0.6f32.to_bits()), 1);
    assert_eq!(pick(&sums, 3, 0.0f32.to_bits()), 0);
    assert_eq!(pick(&sums, 2, 0.8f32.to_bits()), 1);
}

#[test]
fn brackets() {
    let table = [-10i64, -3, 0, 4, 9];
    for x in -12..12i64 {
        match bracket(&table, x) {
            Bracket::Low => assert!(x <= -10),
            Bracket::High => assert!(x >= 9),
            Bracket::Between { mu } => assert!(table[mu - 1] <= x && x < table[mu]),
        }
    }
}
