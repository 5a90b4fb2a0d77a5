//! The integer dot-product kernels: one weight row against one activation row, or decoded once
//! and dotted against a batch of them.
//!
//! A kernel returns the exact integer part of its result, one term per unit of the format; the
//! floating-point scales are folded in by the caller, in the order of the terms.
use vstd::prelude::*;
use crate::codebook::{Iq4Nl, Iq4Xs, Mxfp4, Nvfp4};
use crate::format::{is_dot, row_fits, Shape, Term, WeightFormat};
use crate::grid::{Iq1M, Iq1S, Iq2S, Iq2Xs, Iq2Xxs, Iq3S, Iq3Xxs};
use crate::kquants::{Q2K, Q3K, Q4K, Q5K, Q6K};
use crate::legacy::{Q2_0, Q4_0, Q4_1, Q5_0, Q5_1, Q8_0};
use crate::quant::{run_sums, Q8, Q8x32};
use crate::rowdot::{are_run_sums, decode_row, decodes, dot_decoded, Decoded};
use crate::sums::asum;
use crate::ternary::{Tq1_0, Tq2_0};

verus! {

/// What a kernel asks of its arguments: complete tables, a whole number of blocks, a row long
/// enough, and an activation row long enough.
pub open spec fn super_ready<F: WeightFormat>(f: &F, row: Seq<u8>, q8: Q8, in_f: int) -> bool {
    &&& f.valid()
    &&& in_f % 256 == 0
    &&& row_fits(f, row, in_f)
    &&& q8.wf()
    &&& in_f <= q8.qs@.len()
}

/// What a kernel over 32-code activation blocks asks of its arguments.
pub open spec fn blk32_ready<F: WeightFormat>(f: &F, row: Seq<u8>, q8: Q8x32, in_f: int) -> bool {
    &&& f.valid()
    &&& row_fits(f, row, in_f)
    &&& q8.wf()
    &&& in_f <= q8.qs@.len()
}

/// `out[r]` holds the terms of the row against activation row `r`, for every one of them.
pub open spec fn is_super_batch<F: WeightFormat>(
    f: &F,
    out: Seq<Vec<Term>>,
    row: Seq<u8>,
    q8s: Seq<Q8>,
    in_f: int,
) -> bool {
    &&& out.len() == q8s.len()
    &&& forall|r: int| 0 <= r < out.len() ==> is_dot(f, (#[trigger] out[r])@, row, q8s[r].qs@, in_f)
}

/// `out[r]` holds the terms of the row against activation row `r`, for every one of them.
pub open spec fn is_blk32_batch<F: WeightFormat>(
    f: &F,
    out: Seq<Vec<Term>>,
    row: Seq<u8>,
    q8s: Seq<Q8x32>,
    in_f: int,
) -> bool {
    &&& out.len() == q8s.len()
    &&& forall|r: int| 0 <= r < out.len() ==> is_dot(f, (#[trigger] out[r])@, row, q8s[r].qs@, in_f)
}

/// A whole number of runs of the first `in_f` codes is covered by the runs of all codes.
proof fn lemma_runs_cover(in_f: int, len: int, sub: int)
    requires
        0 < sub,
        0 <= in_f <= len,
    ensures
        in_f / sub <= len / sub,
{
    vstd::arithmetic::div_mod::lemma_div_is_ordered(in_f, len, sub);
}

/// The terms of a decoded row against a super-block activation row. The sums of runs of 32 and of
/// 16 codes are those of the activation row; those of runs of 8 are computed here.
pub fn dot_super<F: WeightFormat>(f: &F, dec: &Decoded, Ghost(row): Ghost<Seq<u8>>, q8: &Q8, in_f: usize) -> (terms: Vec<
    Term,
>)
    requires
        super_ready(f, row, *q8, in_f as int),
        decodes(f, dec, row, in_f as int),
    ensures
        is_dot(f, terms@, row, q8.qs@, in_f as int),
{
    let sh: Shape = f.shape_of();
    proof {
        f.lemma_shape();
        lemma_runs_cover(in_f as int, q8.qs@.len() as int, sh.sub as int);
    }
    if sh.sub == 32 {
        assert(are_run_sums(q8.bsums@, q8.qs@, 32, in_f as int)) by {
            assert forall|t: int| 0 <= t < in_f as int / 32 implies #[trigger] q8.bsums@[t] == asum(
                q8.qs@,
                32 * t,
                32,
            ) by {
                assert(q8.bsums@[t] == asum(q8.qs@, 32 * t, 32));
            }
        }
        dot_decoded(f, dec, Ghost(row), &q8.qs, &q8.bsums, in_f)
    } else if sh.sub == 16 {
        assert(are_run_sums(q8.bsums16@, q8.qs@, 16, in_f as int)) by {
            assert forall|t: int| 0 <= t < in_f as int / 16 implies #[trigger] q8.bsums16@[t] == asum(
                q8.qs@,
                16 * t,
                16,
            ) by {
                assert(q8.bsums16@[t] == asum(q8.qs@, 16 * t, 16));
            }
        }
        dot_decoded(f, dec, Ghost(row), &q8.qs, &q8.bsums16, in_f)
    } else {
        let sums: Vec<i32> = run_sums(&q8.qs, 8);
        dot_decoded(f, dec, Ghost(row), &q8.qs, &sums, in_f)
    }
}

/// The terms of a decoded row against an activation row of 32-code blocks. The sums of runs of 32
/// codes are those of the activation row; shorter runs are summed here.
fn dot_blk32<F: WeightFormat>(f: &F, dec: &Decoded, Ghost(row): Ghost<Seq<u8>>, q8: &Q8x32, in_f: usize) -> (terms:
    Vec<Term>)
    requires
        blk32_ready(f, row, *q8, in_f as int),
        decodes(f, dec, row, in_f as int),
    ensures
        is_dot(f, terms@, row, q8.qs@, in_f as int),
{
    let sh: Shape = f.shape_of();
    proof {
        f.lemma_shape();
        lemma_runs_cover(in_f as int, q8.qs@.len() as int, sh.sub as int);
    }
    if sh.sub == 32 {
        assert(are_run_sums(q8.bsum@, q8.qs@, 32, in_f as int)) by {
            assert forall|t: int| 0 <= t < in_f as int / 32 implies #[trigger] q8.bsum@[t] == asum(
                q8.qs@,
                32 * t,
                32,
            ) by {
                assert(q8.bsum@[t] == asum(q8.qs@, 32 * t, 32));
            }
        }
        dot_decoded(f, dec, Ghost(row), &q8.qs, &q8.bsum, in_f)
    } else {
        let sums: Vec<i32> = run_sums(&q8.qs, sh.sub);
        dot_decoded(f, dec, Ghost(row), &q8.qs, &sums, in_f)
    }
}

/// One weight row against one super-block activation row.
pub fn vec_dot<F: WeightFormat>(f: &F, row: &[u8], q8: &Q8, in_f: usize) -> (terms: Vec<Term>)
    requires
        super_ready(f, row@, *q8, in_f as int),
    ensures
        is_dot(f, terms@, row@, q8.qs@, in_f as int),
{
    let dec: Decoded = decode_row(f, row, in_f);
    dot_super(f, &dec, Ghost(row@), q8, in_f)
}

/// One weight row, decoded once, against a batch of super-block activation rows.
pub fn vec_dot_batch<F: WeightFormat>(f: &F, row: &[u8], q8s: &[Q8], in_f: usize) -> (out: Vec<Vec<Term>>)
    requires
        f.valid(),
        in_f % 256 == 0,
        row_fits(f, row@, in_f as int),
        forall|r: int| 0 <= r < q8s@.len() ==> super_ready(f, row@, #[trigger] q8s@[r], in_f as int),
    ensures
        is_super_batch(f, out@, row@, q8s@, in_f as int),
{
    let dec: Decoded = decode_row(f, row, in_f);
    let mut out: Vec<Vec<Term>> = Vec::new();
    let mut r: usize = 0;
    while r < q8s.len()
        invariant
            r <= q8s@.len(),
            out@.len() == r,
            decodes(f, &dec, row@, in_f as int),
            forall|k: int| 0 <= k < q8s@.len() ==> super_ready(f, row@, #[trigger] q8s@[k], in_f as int),
            forall|k: int| 0 <= k < r ==> is_dot(f, (#[trigger] out@[k])@, row@, q8s@[k].qs@, in_f as int),
        decreases q8s@.len() - r,
    {
        let terms: Vec<Term> = dot_super(f, &dec, Ghost(row@), &q8s[r], in_f);
        out.push(terms);
        r = r + 1;
    }
    out
}

/// One weight row, decoded once, against a batch of activation rows of 32-code blocks.
pub fn vec_dot_32_batch<F: WeightFormat>(f: &F, row: &[u8], q8s: &[Q8x32], in_f: usize) -> (out: Vec<Vec<Term>>)
    requires
        f.valid(),
        row_fits(f, row@, in_f as int),
        forall|r: int| 0 <= r < q8s@.len() ==> blk32_ready(f, row@, #[trigger] q8s@[r], in_f as int),
    ensures
        is_blk32_batch(f, out@, row@, q8s@, in_f as int),
{
    let dec: Decoded = decode_row(f, row, in_f);
    let mut out: Vec<Vec<Term>> = Vec::new();
    let mut r: usize = 0;
    while r < q8s.len()
        invariant
            r <= q8s@.len(),
            out@.len() == r,
            decodes(f, &dec, row@, in_f as int),
            forall|k: int| 0 <= k < q8s@.len() ==> blk32_ready(f, row@, #[trigger] q8s@[k], in_f as int),
            forall|k: int| 0 <= k < r ==> is_dot(f, (#[trigger] out@[k])@, row@, q8s@[k].qs@, in_f as int),
        decreases q8s@.len() - r,
    {
        let terms: Vec<Term> = dot_blk32(f, &dec, Ghost(row@), &q8s[r], in_f);
        out.push(terms);
        r = r + 1;
    }
    out
}

/// A Q4_K row against one super-block activation row.
pub fn vec_dot_q4k(row: &[u8], q8: &Q8, in_f: usize) -> (terms: Vec<Term>)
    requires
        super_ready(&Q4K, row@, *q8, in_f as int),
    ensures
        is_dot(&Q4K, terms@, row@, q8.qs@, in_f as int),
{
    vec_dot(&Q4K, row, q8, in_f)
}

/// A Q4_K row against a batch of super-block activation rows.
pub fn vec_dot_q4k_batch(row: &[u8], q8s: &[Q8], in_f: usize) -> (out: Vec<Vec<Term>>)
    requires
        in_f % 256 == 0,
        row_fits(&Q4K, row@, in_f as int),
        forall|r: int| 0 <= r < q8s@.len() ==> super_ready(&Q4K, row@, #[trigger] q8s@[r], in_f as int),
    ensures
        is_super_batch(&Q4K, out@, row@, q8s@, in_f as int),
{
    vec_dot_batch(&Q4K, row, q8s, in_f)
}

/// A Q5_K row against one super-block activation row.
pub fn vec_dot_q5k(row: &[u8], q8: &Q8, in_f: usize) -> (terms: Vec<Term>)
    requires
        super_ready(&Q5K, row@, *q8, in_f as int),
    ensures
        is_dot(&Q5K, terms@, row@, q8.qs@, in_f as int),
{
    vec_dot(&Q5K, row, q8, in_f)
}

/// A Q5_K row against a batch of super-block activation rows.
pub fn vec_dot_q5k_batch(row: &[u8], q8s: &[Q8], in_f: usize) -> (out: Vec<Vec<Term>>)
    requires
        in_f % 256 == 0,
        row_fits(&Q5K, row@, in_f as int),
        forall|r: int| 0 <= r < q8s@.len() ==> super_ready(&Q5K, row@, #[trigger] q8s@[r], in_f as int),
    ensures
        is_super_batch(&Q5K, out@, row@, q8s@, in_f as int),
{
    vec_dot_batch(&Q5K, row, q8s, in_f)
}

/// A Q6_K row against one super-block activation row.
pub fn vec_dot_q6k(row: &[u8], q8: &Q8, in_f: usize) -> (terms: Vec<Term>)
    requires
        super_ready(&Q6K, row@, *q8, in_f as int),
    ensures
        is_dot(&Q6K, terms@, row@, q8.qs@, in_f as int),
{
    vec_dot(&Q6K, row, q8, in_f)
}

/// A Q6_K row against a batch of super-block activation rows.
pub fn vec_dot_q6k_batch(row: &[u8], q8s: &[Q8], in_f: usize) -> (out: Vec<Vec<Term>>)
    requires
        in_f % 256 == 0,
        row_fits(&Q6K, row@, in_f as int),
        forall|r: int| 0 <= r < q8s@.len() ==> super_ready(&Q6K, row@, #[trigger] q8s@[r], in_f as int),
    ensures
        is_super_batch(&Q6K, out@, row@, q8s@, in_f as int),
{
    vec_dot_batch(&Q6K, row, q8s, in_f)
}

/// A Q2_K row against one super-block activation row.
pub fn vec_dot_q2k(row: &[u8], q8: &Q8, in_f: usize) -> (terms: Vec<Term>)
    requires
        super_ready(&Q2K, row@, *q8, in_f as int),
    ensures
        is_dot(&Q2K, terms@, row@, q8.qs@, in_f as int),
{
    vec_dot(&Q2K, row, q8, in_f)
}

/// A Q2_K row against a batch of super-block activation rows.
pub fn vec_dot_q2k_batch(row: &[u8], q8s: &[Q8], in_f: usize) -> (out: Vec<Vec<Term>>)
    requires
        in_f % 256 == 0,
        row_fits(&Q2K, row@, in_f as int),
        forall|r: int| 0 <= r < q8s@.len() ==> super_ready(&Q2K, row@, #[trigger] q8s@[r], in_f as int),
    ensures
        is_super_batch(&Q2K, out@, row@, q8s@, in_f as int),
{
    vec_dot_batch(&Q2K, row, q8s, in_f)
}

/// A Q3_K row against one super-block activation row.
pub fn vec_dot_q3k(row: &[u8], q8: &Q8, in_f: usize) -> (terms: Vec<Term>)
    requires
        super_ready(&Q3K, row@, *q8, in_f as int),
    ensures
        is_dot(&Q3K, terms@, row@, q8.qs@, in_f as int),
{
    vec_dot(&Q3K, row, q8, in_f)
}

/// A Q3_K row against a batch of super-block activation rows.
pub fn vec_dot_q3k_batch(row: &[u8], q8s: &[Q8], in_f: usize) -> (out: Vec<Vec<Term>>)
    requires
        in_f % 256 == 0,
        row_fits(&Q3K, row@, in_f as int),
        forall|r: int| 0 <= r < q8s@.len() ==> super_ready(&Q3K, row@, #[trigger] q8s@[r], in_f as int),
    ensures
        is_super_batch(&Q3K, out@, row@, q8s@, in_f as int),
{
    vec_dot_batch(&Q3K, row, q8s, in_f)
}

/// A Q8_0 row against one super-block activation row.
pub fn vec_dot_q8_0(row: &[u8], q8: &Q8, in_f: usize) -> (terms: Vec<Term>)
    requires
        super_ready(&Q8_0, row@, *q8, in_f as int),
    ensures
        is_dot(&Q8_0, terms@, row@, q8.qs@, in_f as int),
{
    vec_dot(&Q8_0, row, q8, in_f)
}

/// A Q8_0 row against a batch of super-block activation rows.
pub fn vec_dot_q8_0_batch(row: &[u8], q8s: &[Q8], in_f: usize) -> (out: Vec<Vec<Term>>)
    requires
        in_f % 256 == 0,
        row_fits(&Q8_0, row@, in_f as int),
        forall|r: int| 0 <= r < q8s@.len() ==> super_ready(&Q8_0, row@, #[trigger] q8s@[r], in_f as int),
    ensures
        is_super_batch(&Q8_0, out@, row@, q8s@, in_f as int),
{
    vec_dot_batch(&Q8_0, row, q8s, in_f)
}

/// A IQ4_XS row against one super-block activation row.
pub fn vec_dot_iq4xs(f: &Iq4Xs, row: &[u8], q8: &Q8, in_f: usize) -> (terms: Vec<Term>)
    requires
        super_ready(f, row@, *q8, in_f as int),
    ensures
        is_dot(f, terms@, row@, q8.qs@, in_f as int),
{
    vec_dot(f, row, q8, in_f)
}

/// A IQ4_XS row against a batch of super-block activation rows.
pub fn vec_dot_iq4xs_batch(f: &Iq4Xs, row: &[u8], q8s: &[Q8], in_f: usize) -> (out: Vec<Vec<Term>>)
    requires
        f.valid(),
        in_f % 256 == 0,
        row_fits(f, row@, in_f as int),
        forall|r: int| 0 <= r < q8s@.len() ==> super_ready(f, row@, #[trigger] q8s@[r], in_f as int),
    ensures
        is_super_batch(f, out@, row@, q8s@, in_f as int),
{
    vec_dot_batch(f, row, q8s, in_f)
}

/// A IQ2_S row against one super-block activation row.
pub fn vec_dot_iq2s(f: &Iq2S, row: &[u8], q8: &Q8, in_f: usize) -> (terms: Vec<Term>)
    requires
        super_ready(f, row@, *q8, in_f as int),
    ensures
        is_dot(f, terms@, row@, q8.qs@, in_f as int),
{
    vec_dot(f, row, q8, in_f)
}

/// A IQ2_S row against a batch of super-block activation rows.
pub fn vec_dot_iq2s_batch(f: &Iq2S, row: &[u8], q8s: &[Q8], in_f: usize) -> (out: Vec<Vec<Term>>)
    requires
        f.valid(),
        in_f % 256 == 0,
        row_fits(f, row@, in_f as int),
        forall|r: int| 0 <= r < q8s@.len() ==> super_ready(f, row@, #[trigger] q8s@[r], in_f as int),
    ensures
        is_super_batch(f, out@, row@, q8s@, in_f as int),
{
    vec_dot_batch(f, row, q8s, in_f)
}

/// A IQ2_XXS row against one super-block activation row.
pub fn vec_dot_iq2xxs(f: &Iq2Xxs, row: &[u8], q8: &Q8, in_f: usize) -> (terms: Vec<Term>)
    requires
        super_ready(f, row@, *q8, in_f as int),
    ensures
        is_dot(f, terms@, row@, q8.qs@, in_f as int),
{
    vec_dot(f, row, q8, in_f)
}

/// A IQ2_XXS row against a batch of super-block activation rows.
pub fn vec_dot_iq2xxs_batch(f: &Iq2Xxs, row: &[u8], q8s: &[Q8], in_f: usize) -> (out: Vec<Vec<Term>>)
    requires
        f.valid(),
        in_f % 256 == 0,
        row_fits(f, row@, in_f as int),
        forall|r: int| 0 <= r < q8s@.len() ==> super_ready(f, row@, #[trigger] q8s@[r], in_f as int),
    ensures
        is_super_batch(f, out@, row@, q8s@, in_f as int),
{
    vec_dot_batch(f, row, q8s, in_f)
}

/// A IQ2_XS row against one super-block activation row.
pub fn vec_dot_iq2xs(f: &Iq2Xs, row: &[u8], q8: &Q8, in_f: usize) -> (terms: Vec<Term>)
    requires
        super_ready(f, row@, *q8, in_f as int),
    ensures
        is_dot(f, terms@, row@, q8.qs@, in_f as int),
{
    vec_dot(f, row, q8, in_f)
}

/// A IQ2_XS row against a batch of super-block activation rows.
pub fn vec_dot_iq2xs_batch(f: &Iq2Xs, row: &[u8], q8s: &[Q8], in_f: usize) -> (out: Vec<Vec<Term>>)
    requires
        f.valid(),
        in_f % 256 == 0,
        row_fits(f, row@, in_f as int),
        forall|r: int| 0 <= r < q8s@.len() ==> super_ready(f, row@, #[trigger] q8s@[r], in_f as int),
    ensures
        is_super_batch(f, out@, row@, q8s@, in_f as int),
{
    vec_dot_batch(f, row, q8s, in_f)
}

/// A IQ3_S row against one super-block activation row.
pub fn vec_dot_iq3s(f: &Iq3S, row: &[u8], q8: &Q8, in_f: usize) -> (terms: Vec<Term>)
    requires
        super_ready(f, row@, *q8, in_f as int),
    ensures
        is_dot(f, terms@, row@, q8.qs@, in_f as int),
{
    vec_dot(f, row, q8, in_f)
}

/// A IQ3_S row against a batch of super-block activation rows.
pub fn vec_dot_iq3s_batch(f: &Iq3S, row: &[u8], q8s: &[Q8], in_f: usize) -> (out: Vec<Vec<Term>>)
    requires
        f.valid(),
        in_f % 256 == 0,
        row_fits(f, row@, in_f as int),
        forall|r: int| 0 <= r < q8s@.len() ==> super_ready(f, row@, #[trigger] q8s@[r], in_f as int),
    ensures
        is_super_batch(f, out@, row@, q8s@, in_f as int),
{
    vec_dot_batch(f, row, q8s, in_f)
}

/// A IQ3_XXS row against one super-block activation row.
pub fn vec_dot_iq3xxs(f: &Iq3Xxs, row: &[u8], q8: &Q8, in_f: usize) -> (terms: Vec<Term>)
    requires
        super_ready(f, row@, *q8, in_f as int),
    ensures
        is_dot(f, terms@, row@, q8.qs@, in_f as int),
{
    vec_dot(f, row, q8, in_f)
}

/// A IQ3_XXS row against a batch of super-block activation rows.
pub fn vec_dot_iq3xxs_batch(f: &Iq3Xxs, row: &[u8], q8s: &[Q8], in_f: usize) -> (out: Vec<Vec<Term>>)
    requires
        f.valid(),
        in_f % 256 == 0,
        row_fits(f, row@, in_f as int),
        forall|r: int| 0 <= r < q8s@.len() ==> super_ready(f, row@, #[trigger] q8s@[r], in_f as int),
    ensures
        is_super_batch(f, out@, row@, q8s@, in_f as int),
{
    vec_dot_batch(f, row, q8s, in_f)
}

/// A IQ1_S row against one super-block activation row.
pub fn vec_dot_iq1s(f: &Iq1S, row: &[u8], q8: &Q8, in_f: usize) -> (terms: Vec<Term>)
    requires
        super_ready(f, row@, *q8, in_f as int),
    ensures
        is_dot(f, terms@, row@, q8.qs@, in_f as int),
{
    vec_dot(f, row, q8, in_f)
}

/// A IQ1_S row against a batch of super-block activation rows.
pub fn vec_dot_iq1s_batch(f: &Iq1S, row: &[u8], q8s: &[Q8], in_f: usize) -> (out: Vec<Vec<Term>>)
    requires
        f.valid(),
        in_f % 256 == 0,
        row_fits(f, row@, in_f as int),
        forall|r: int| 0 <= r < q8s@.len() ==> super_ready(f, row@, #[trigger] q8s@[r], in_f as int),
    ensures
        is_super_batch(f, out@, row@, q8s@, in_f as int),
{
    vec_dot_batch(f, row, q8s, in_f)
}

/// A IQ1_M row against one super-block activation row.
pub fn vec_dot_iq1m(f: &Iq1M, row: &[u8], q8: &Q8, in_f: usize) -> (terms: Vec<Term>)
    requires
        super_ready(f, row@, *q8, in_f as int),
    ensures
        is_dot(f, terms@, row@, q8.qs@, in_f as int),
{
    vec_dot(f, row, q8, in_f)
}

/// A IQ1_M row against a batch of super-block activation rows.
pub fn vec_dot_iq1m_batch(f: &Iq1M, row: &[u8], q8s: &[Q8], in_f: usize) -> (out: Vec<Vec<Term>>)
    requires
        f.valid(),
        in_f % 256 == 0,
        row_fits(f, row@, in_f as int),
        forall|r: int| 0 <= r < q8s@.len() ==> super_ready(f, row@, #[trigger] q8s@[r], in_f as int),
    ensures
        is_super_batch(f, out@, row@, q8s@, in_f as int),
{
    vec_dot_batch(f, row, q8s, in_f)
}

/// A TQ2_0 row against one super-block activation row.
pub fn vec_dot_tq2_0(row: &[u8], q8: &Q8, in_f: usize) -> (terms: Vec<Term>)
    requires
        super_ready(&Tq2_0, row@, *q8, in_f as int),
    ensures
        is_dot(&Tq2_0, terms@, row@, q8.qs@, in_f as int),
{
    vec_dot(&Tq2_0, row, q8, in_f)
}

/// A TQ2_0 row against a batch of super-block activation rows.
pub fn vec_dot_tq2_0_batch(row: &[u8], q8s: &[Q8], in_f: usize) -> (out: Vec<Vec<Term>>)
    requires
        in_f % 256 == 0,
        row_fits(&Tq2_0, row@, in_f as int),
        forall|r: int| 0 <= r < q8s@.len() ==> super_ready(&Tq2_0, row@, #[trigger] q8s@[r], in_f as int),
    ensures
        is_super_batch(&Tq2_0, out@, row@, q8s@, in_f as int),
{
    vec_dot_batch(&Tq2_0, row, q8s, in_f)
}

/// A TQ1_0 row against one super-block activation row.
pub fn vec_dot_tq1_0(row: &[u8], q8: &Q8, in_f: usize) -> (terms: Vec<Term>)
    requires
        super_ready(&Tq1_0, row@, *q8, in_f as int),
    ensures
        is_dot(&Tq1_0, terms@, row@, q8.qs@, in_f as int),
{
    vec_dot(&Tq1_0, row, q8, in_f)
}

/// A TQ1_0 row against a batch of super-block activation rows.
pub fn vec_dot_tq1_0_batch(row: &[u8], q8s: &[Q8], in_f: usize) -> (out: Vec<Vec<Term>>)
    requires
        in_f % 256 == 0,
        row_fits(&Tq1_0, row@, in_f as int),
        forall|r: int| 0 <= r < q8s@.len() ==> super_ready(&Tq1_0, row@, #[trigger] q8s@[r], in_f as int),
    ensures
        is_super_batch(&Tq1_0, out@, row@, q8s@, in_f as int),
{
    vec_dot_batch(&Tq1_0, row, q8s, in_f)
}

/// A Q8_0 row against a batch of activation rows of 32-code blocks.
pub fn vec_dot_q8_0_32_batch(row: &[u8], q8s: &[Q8x32], in_f: usize) -> (out: Vec<Vec<Term>>)
    requires
        row_fits(&Q8_0, row@, in_f as int),
        forall|r: int| 0 <= r < q8s@.len() ==> blk32_ready(&Q8_0, row@, #[trigger] q8s@[r], in_f as int),
    ensures
        is_blk32_batch(&Q8_0, out@, row@, q8s@, in_f as int),
{
    vec_dot_32_batch(&Q8_0, row, q8s, in_f)
}

/// A Q5_0 row against a batch of activation rows of 32-code blocks.
pub fn vec_dot_q5_0_32_batch(row: &[u8], q8s: &[Q8x32], in_f: usize) -> (out: Vec<Vec<Term>>)
    requires
        row_fits(&Q5_0, row@, in_f as int),
        forall|r: int| 0 <= r < q8s@.len() ==> blk32_ready(&Q5_0, row@, #[trigger] q8s@[r], in_f as int),
    ensures
        is_blk32_batch(&Q5_0, out@, row@, q8s@, in_f as int),
{
    vec_dot_32_batch(&Q5_0, row, q8s, in_f)
}

/// A Q4_0 row against a batch of activation rows of 32-code blocks.
pub fn vec_dot_q4_0_32_batch(row: &[u8], q8s: &[Q8x32], in_f: usize) -> (out: Vec<Vec<Term>>)
    requires
        row_fits(&Q4_0, row@, in_f as int),
        forall|r: int| 0 <= r < q8s@.len() ==> blk32_ready(&Q4_0, row@, #[trigger] q8s@[r], in_f as int),
    ensures
        is_blk32_batch(&Q4_0, out@, row@, q8s@, in_f as int),
{
    vec_dot_32_batch(&Q4_0, row, q8s, in_f)
}

/// A Q2_0 row against a batch of activation rows of 32-code blocks.
pub fn vec_dot_q2_0_batch(row: &[u8], q8s: &[Q8x32], in_f: usize) -> (out: Vec<Vec<Term>>)
    requires
        row_fits(&Q2_0, row@, in_f as int),
        forall|r: int| 0 <= r < q8s@.len() ==> blk32_ready(&Q2_0, row@, #[trigger] q8s@[r], in_f as int),
    ensures
        is_blk32_batch(&Q2_0, out@, row@, q8s@, in_f as int),
{
    vec_dot_32_batch(&Q2_0, row, q8s, in_f)
}

/// A Q4_1 row against a batch of activation rows of 32-code blocks.
pub fn vec_dot_q4_1_32_batch(row: &[u8], q8s: &[Q8x32], in_f: usize) -> (out: Vec<Vec<Term>>)
    requires
        row_fits(&Q4_1, row@, in_f as int),
        forall|r: int| 0 <= r < q8s@.len() ==> blk32_ready(&Q4_1, row@, #[trigger] q8s@[r], in_f as int),
    ensures
        is_blk32_batch(&Q4_1, out@, row@, q8s@, in_f as int),
{
    vec_dot_32_batch(&Q4_1, row, q8s, in_f)
}

/// A Q5_1 row against a batch of activation rows of 32-code blocks.
pub fn vec_dot_q5_1_32_batch(row: &[u8], q8s: &[Q8x32], in_f: usize) -> (out: Vec<Vec<Term>>)
    requires
        row_fits(&Q5_1, row@, in_f as int),
        forall|r: int| 0 <= r < q8s@.len() ==> blk32_ready(&Q5_1, row@, #[trigger] q8s@[r], in_f as int),
    ensures
        is_blk32_batch(&Q5_1, out@, row@, q8s@, in_f as int),
{
    vec_dot_32_batch(&Q5_1, row, q8s, in_f)
}

/// A IQ4_NL row against a batch of activation rows of 32-code blocks.
pub fn vec_dot_iq4nl_32_batch(f: &Iq4Nl, row: &[u8], q8s: &[Q8x32], in_f: usize) -> (out: Vec<Vec<Term>>)
    requires
        f.valid(),
        row_fits(f, row@, in_f as int),
        forall|r: int| 0 <= r < q8s@.len() ==> blk32_ready(f, row@, #[trigger] q8s@[r], in_f as int),
    ensures
        is_blk32_batch(f, out@, row@, q8s@, in_f as int),
{
    vec_dot_32_batch(f, row, q8s, in_f)
}

/// A MXFP4 row against a batch of activation rows of 32-code blocks.
pub fn vec_dot_mxfp4_32_batch(f: &Mxfp4, row: &[u8], q8s: &[Q8x32], in_f: usize) -> (out: Vec<Vec<Term>>)
    requires
        f.valid(),
        row_fits(f, row@, in_f as int),
        forall|r: int| 0 <= r < q8s@.len() ==> blk32_ready(f, row@, #[trigger] q8s@[r], in_f as int),
    ensures
        is_blk32_batch(f, out@, row@, q8s@, in_f as int),
{
    vec_dot_32_batch(f, row, q8s, in_f)
}

/// A NVFP4 row against a batch of activation rows of 32-code blocks.
pub fn vec_dot_nvfp4_batch(f: &Nvfp4, row: &[u8], q8s: &[Q8x32], in_f: usize) -> (out: Vec<Vec<Term>>)
    requires
        f.valid(),
        row_fits(f, row@, in_f as int),
        forall|r: int| 0 <= r < q8s@.len() ==> blk32_ready(f, row@, #[trigger] q8s@[r], in_f as int),
    ensures
        is_blk32_batch(f, out@, row@, q8s@, in_f as int),
{
    vec_dot_32_batch(f, row, q8s, in_f)
}

/// Every kernel gives the terms of its row against each activation row, in the order of the rows.
pub proof fn law_kernels_give_dots<F: WeightFormat>(
    f: &F,
    row: &[u8],
    q8s: &[Q8],
    in_f: usize,
    out: Vec<Vec<Term>>,
    r: int,
    one: Vec<Term>,
    q32s: &[Q8x32],
    out32: Vec<Vec<Term>>,
    r32: int,
)
    requires
        call_ensures(vec_dot_batch::<F>, (f, row, q8s, in_f), out),
        0 <= r < q8s@.len(),
        call_ensures(vec_dot::<F>, (f, row, &q8s@[r], in_f), one),
        call_ensures(vec_dot_32_batch::<F>, (f, row, q32s, in_f), out32),
        0 <= r32 < q32s@.len(),
    ensures
        out@.len() == q8s@.len(),
        out@[r]@ == one@,
        is_dot(f, one@, row@, q8s@[r].qs@, in_f as int),
        out32@.len() == q32s@.len(),
        is_dot(f, out32@[r32]@, row@, q32s@[r32].qs@, in_f as int),
{
    crate::laws::law_terms_unique(f, out@[r]@, one@, row@, q8s@[r].qs@, in_f as int);
}

/// The Q4_K kernels give the terms of their format, one activation row at a time and in a batch.
pub proof fn law_q4k_kernels(
    row: &[u8],
    q8s: &[Q8],
    in_f: usize,
    out: Vec<Vec<Term>>,
    r: int,
    one: Vec<Term>,
    any: Vec<Term>,
)
    requires
        call_ensures(vec_dot_q4k_batch, (row, q8s, in_f), out),
        0 <= r < q8s@.len(),
        call_ensures(vec_dot_q4k, (row, &q8s@[r], in_f), one),
        call_ensures(vec_dot::<Q4K>, (&Q4K, row, &q8s@[r], in_f), any),
    ensures
        out@.len() == q8s@.len(),
        out@[r]@ == any@,
        one@ == any@,
{
    crate::laws::law_terms_unique(&Q4K, out@[r]@, any@, row@, q8s@[r].qs@, in_f as int);
    crate::laws::law_terms_unique(&Q4K, one@, any@, row@, q8s@[r].qs@, in_f as int);
}

/// The Q5_K kernels give the terms of their format, one activation row at a time and in a batch.
pub proof fn law_q5k_kernels(
    row: &[u8],
    q8s: &[Q8],
    in_f: usize,
    out: Vec<Vec<Term>>,
    r: int,
    one: Vec<Term>,
    any: Vec<Term>,
)
    requires
        call_ensures(vec_dot_q5k_batch, (row, q8s, in_f), out),
        0 <= r < q8s@.len(),
        call_ensures(vec_dot_q5k, (row, &q8s@[r], in_f), one),
        call_ensures(vec_dot::<Q5K>, (&Q5K, row, &q8s@[r], in_f), any),
    ensures
        out@.len() == q8s@.len(),
        out@[r]@ == any@,
        one@ == any@,
{
    crate::laws::law_terms_unique(&Q5K, out@[r]@, any@, row@, q8s@[r].qs@, in_f as int);
    crate::laws::law_terms_unique(&Q5K, one@, any@, row@, q8s@[r].qs@, in_f as int);
}

/// The Q6_K kernels give the terms of their format, one activation row at a time and in a batch.
pub proof fn law_q6k_kernels(
    row: &[u8],
    q8s: &[Q8],
    in_f: usize,
    out: Vec<Vec<Term>>,
    r: int,
    one: Vec<Term>,
    any: Vec<Term>,
)
    requires
        call_ensures(vec_dot_q6k_batch, (row, q8s, in_f), out),
        0 <= r < q8s@.len(),
        call_ensures(vec_dot_q6k, (row, &q8s@[r], in_f), one),
        call_ensures(vec_dot::<Q6K>, (&Q6K, row, &q8s@[r], in_f), any),
    ensures
        out@.len() == q8s@.len(),
        out@[r]@ == any@,
        one@ == any@,
{
    crate::laws::law_terms_unique(&Q6K, out@[r]@, any@, row@, q8s@[r].qs@, in_f as int);
    crate::laws::law_terms_unique(&Q6K, one@, any@, row@, q8s@[r].qs@, in_f as int);
}

/// The Q2_K kernels give the terms of their format, one activation row at a time and in a batch.
pub proof fn law_q2k_kernels(
    row: &[u8],
    q8s: &[Q8],
    in_f: usize,
    out: Vec<Vec<Term>>,
    r: int,
    one: Vec<Term>,
    any: Vec<Term>,
)
    requires
        call_ensures(vec_dot_q2k_batch, (row, q8s, in_f), out),
        0 <= r < q8s@.len(),
        call_ensures(vec_dot_q2k, (row, &q8s@[r], in_f), one),
        call_ensures(vec_dot::<Q2K>, (&Q2K, row, &q8s@[r], in_f), any),
    ensures
        out@.len() == q8s@.len(),
        out@[r]@ == any@,
        one@ == any@,
{
    crate::laws::law_terms_unique(&Q2K, out@[r]@, any@, row@, q8s@[r].qs@, in_f as int);
    crate::laws::law_terms_unique(&Q2K, one@, any@, row@, q8s@[r].qs@, in_f as int);
}

/// The Q3_K kernels give the terms of their format, one activation row at a time and in a batch.
pub proof fn law_q3k_kernels(
    row: &[u8],
    q8s: &[Q8],
    in_f: usize,
    out: Vec<Vec<Term>>,
    r: int,
    one: Vec<Term>,
    any: Vec<Term>,
)
    requires
        call_ensures(vec_dot_q3k_batch, (row, q8s, in_f), out),
        0 <= r < q8s@.len(),
        call_ensures(vec_dot_q3k, (row, &q8s@[r], in_f), one),
        call_ensures(vec_dot::<Q3K>, (&Q3K, row, &q8s@[r], in_f), any),
    ensures
        out@.len() == q8s@.len(),
        out@[r]@ == any@,
        one@ == any@,
{
    crate::laws::law_terms_unique(&Q3K, out@[r]@, any@, row@, q8s@[r].qs@, in_f as int);
    crate::laws::law_terms_unique(&Q3K, one@, any@, row@, q8s@[r].qs@, in_f as int);
}

/// The Q8_0 kernels give the terms of their format, one activation row at a time and in a batch.
pub proof fn law_q8_0_kernels(
    row: &[u8],
    q8s: &[Q8],
    in_f: usize,
    out: Vec<Vec<Term>>,
    r: int,
    one: Vec<Term>,
    any: Vec<Term>,
)
    requires
        call_ensures(vec_dot_q8_0_batch, (row, q8s, in_f), out),
        0 <= r < q8s@.len(),
        call_ensures(vec_dot_q8_0, (row, &q8s@[r], in_f), one),
        call_ensures(vec_dot::<Q8_0>, (&Q8_0, row, &q8s@[r], in_f), any),
    ensures
        out@.len() == q8s@.len(),
        out@[r]@ == any@,
        one@ == any@,
{
    crate::laws::law_terms_unique(&Q8_0, out@[r]@, any@, row@, q8s@[r].qs@, in_f as int);
    crate::laws::law_terms_unique(&Q8_0, one@, any@, row@, q8s@[r].qs@, in_f as int);
}

/// The IQ4XS kernels give the terms of their format, one activation row at a time and in a batch.
pub proof fn law_iq4xs_kernels(
    f: &Iq4Xs,
    row: &[u8],
    q8s: &[Q8],
    in_f: usize,
    out: Vec<Vec<Term>>,
    r: int,
    one: Vec<Term>,
    any: Vec<Term>,
)
    requires
        call_ensures(vec_dot_iq4xs_batch, (f, row, q8s, in_f), out),
        0 <= r < q8s@.len(),
        call_ensures(vec_dot_iq4xs, (f, row, &q8s@[r], in_f), one),
        call_ensures(vec_dot::<Iq4Xs>, (f, row, &q8s@[r], in_f), any),
    ensures
        out@.len() == q8s@.len(),
        out@[r]@ == any@,
        one@ == any@,
{
    crate::laws::law_terms_unique(f, out@[r]@, any@, row@, q8s@[r].qs@, in_f as int);
    crate::laws::law_terms_unique(f, one@, any@, row@, q8s@[r].qs@, in_f as int);
}

/// The IQ2S kernels give the terms of their format, one activation row at a time and in a batch.
pub proof fn law_iq2s_kernels(
    f: &Iq2S,
    row: &[u8],
    q8s: &[Q8],
    in_f: usize,
    out: Vec<Vec<Term>>,
    r: int,
    one: Vec<Term>,
    any: Vec<Term>,
)
    requires
        call_ensures(vec_dot_iq2s_batch, (f, row, q8s, in_f), out),
        0 <= r < q8s@.len(),
        call_ensures(vec_dot_iq2s, (f, row, &q8s@[r], in_f), one),
        call_ensures(vec_dot::<Iq2S>, (f, row, &q8s@[r], in_f), any),
    ensures
        out@.len() == q8s@.len(),
        out@[r]@ == any@,
        one@ == any@,
{
    crate::laws::law_terms_unique(f, out@[r]@, any@, row@, q8s@[r].qs@, in_f as int);
    crate::laws::law_terms_unique(f, one@, any@, row@, q8s@[r].qs@, in_f as int);
}

/// The IQ2XXS kernels give the terms of their format, one activation row at a time and in a batch.
pub proof fn law_iq2xxs_kernels(
    f: &Iq2Xxs,
    row: &[u8],
    q8s: &[Q8],
    in_f: usize,
    out: Vec<Vec<Term>>,
    r: int,
    one: Vec<Term>,
    any: Vec<Term>,
)
    requires
        call_ensures(vec_dot_iq2xxs_batch, (f, row, q8s, in_f), out),
        0 <= r < q8s@.len(),
        call_ensures(vec_dot_iq2xxs, (f, row, &q8s@[r], in_f), one),
        call_ensures(vec_dot::<Iq2Xxs>, (f, row, &q8s@[r], in_f), any),
    ensures
        out@.len() == q8s@.len(),
        out@[r]@ == any@,
        one@ == any@,
{
    crate::laws::law_terms_unique(f, out@[r]@, any@, row@, q8s@[r].qs@, in_f as int);
    crate::laws::law_terms_unique(f, one@, any@, row@, q8s@[r].qs@, in_f as int);
}

/// The IQ2XS kernels give the terms of their format, one activation row at a time and in a batch.
pub proof fn law_iq2xs_kernels(
    f: &Iq2Xs,
    row: &[u8],
    q8s: &[Q8],
    in_f: usize,
    out: Vec<Vec<Term>>,
    r: int,
    one: Vec<Term>,
    any: Vec<Term>,
)
    requires
        call_ensures(vec_dot_iq2xs_batch, (f, row, q8s, in_f), out),
        0 <= r < q8s@.len(),
        call_ensures(vec_dot_iq2xs, (f, row, &q8s@[r], in_f), one),
        call_ensures(vec_dot::<Iq2Xs>, (f, row, &q8s@[r], in_f), any),
    ensures
        out@.len() == q8s@.len(),
        out@[r]@ == any@,
        one@ == any@,
{
    crate::laws::law_terms_unique(f, out@[r]@, any@, row@, q8s@[r].qs@, in_f as int);
    crate::laws::law_terms_unique(f, one@, any@, row@, q8s@[r].qs@, in_f as int);
}

/// The IQ3S kernels give the terms of their format, one activation row at a time and in a batch.
pub proof fn law_iq3s_kernels(
    f: &Iq3S,
    row: &[u8],
    q8s: &[Q8],
    in_f: usize,
    out: Vec<Vec<Term>>,
    r: int,
    one: Vec<Term>,
    any: Vec<Term>,
)
    requires
        call_ensures(vec_dot_iq3s_batch, (f, row, q8s, in_f), out),
        0 <= r < q8s@.len(),
        call_ensures(vec_dot_iq3s, (f, row, &q8s@[r], in_f), one),
        call_ensures(vec_dot::<Iq3S>, (f, row, &q8s@[r], in_f), any),
    ensures
        out@.len() == q8s@.len(),
        out@[r]@ == any@,
        one@ == any@,
{
    crate::laws::law_terms_unique(f, out@[r]@, any@, row@, q8s@[r].qs@, in_f as int);
    crate::laws::law_terms_unique(f, one@, any@, row@, q8s@[r].qs@, in_f as int);
}

/// The IQ3XXS kernels give the terms of their format, one activation row at a time and in a batch.
pub proof fn law_iq3xxs_kernels(
    f: &Iq3Xxs,
    row: &[u8],
    q8s: &[Q8],
    in_f: usize,
    out: Vec<Vec<Term>>,
    r: int,
    one: Vec<Term>,
    any: Vec<Term>,
)
    requires
        call_ensures(vec_dot_iq3xxs_batch, (f, row, q8s, in_f), out),
        0 <= r < q8s@.len(),
        call_ensures(vec_dot_iq3xxs, (f, row, &q8s@[r], in_f), one),
        call_ensures(vec_dot::<Iq3Xxs>, (f, row, &q8s@[r], in_f), any),
    ensures
        out@.len() == q8s@.len(),
        out@[r]@ == any@,
        one@ == any@,
{
    crate::laws::law_terms_unique(f, out@[r]@, any@, row@, q8s@[r].qs@, in_f as int);
    crate::laws::law_terms_unique(f, one@, any@, row@, q8s@[r].qs@, in_f as int);
}

/// The IQ1S kernels give the terms of their format, one activation row at a time and in a batch.
pub proof fn law_iq1s_kernels(
    f: &Iq1S,
    row: &[u8],
    q8s: &[Q8],
    in_f: usize,
    out: Vec<Vec<Term>>,
    r: int,
    one: Vec<Term>,
    any: Vec<Term>,
)
    requires
        call_ensures(vec_dot_iq1s_batch, (f, row, q8s, in_f), out),
        0 <= r < q8s@.len(),
        call_ensures(vec_dot_iq1s, (f, row, &q8s@[r], in_f), one),
        call_ensures(vec_dot::<Iq1S>, (f, row, &q8s@[r], in_f), any),
    ensures
        out@.len() == q8s@.len(),
        out@[r]@ == any@,
        one@ == any@,
{
    crate::laws::law_terms_unique(f, out@[r]@, any@, row@, q8s@[r].qs@, in_f as int);
    crate::laws::law_terms_unique(f, one@, any@, row@, q8s@[r].qs@, in_f as int);
}

/// The IQ1M kernels give the terms of their format, one activation row at a time and in a batch.
pub proof fn law_iq1m_kernels(
    f: &Iq1M,
    row: &[u8],
    q8s: &[Q8],
    in_f: usize,
    out: Vec<Vec<Term>>,
    r: int,
    one: Vec<Term>,
    any: Vec<Term>,
)
    requires
        call_ensures(vec_dot_iq1m_batch, (f, row, q8s, in_f), out),
        0 <= r < q8s@.len(),
        call_ensures(vec_dot_iq1m, (f, row, &q8s@[r], in_f), one),
        call_ensures(vec_dot::<Iq1M>, (f, row, &q8s@[r], in_f), any),
    ensures
        out@.len() == q8s@.len(),
        out@[r]@ == any@,
        one@ == any@,
{
    crate::laws::law_terms_unique(f, out@[r]@, any@, row@, q8s@[r].qs@, in_f as int);
    crate::laws::law_terms_unique(f, one@, any@, row@, q8s@[r].qs@, in_f as int);
}

/// The TQ2_0 kernels give the terms of their format, one activation row at a time and in a batch.
pub proof fn law_tq2_0_kernels(
    row: &[u8],
    q8s: &[Q8],
    in_f: usize,
    out: Vec<Vec<Term>>,
    r: int,
    one: Vec<Term>,
    any: Vec<Term>,
)
    requires
        call_ensures(vec_dot_tq2_0_batch, (row, q8s, in_f), out),
        0 <= r < q8s@.len(),
        call_ensures(vec_dot_tq2_0, (row, &q8s@[r], in_f), one),
        call_ensures(vec_dot::<Tq2_0>, (&Tq2_0, row, &q8s@[r], in_f), any),
    ensures
        out@.len() == q8s@.len(),
        out@[r]@ == any@,
        one@ == any@,
{
    crate::laws::law_terms_unique(&Tq2_0, out@[r]@, any@, row@, q8s@[r].qs@, in_f as int);
    crate::laws::law_terms_unique(&Tq2_0, one@, any@, row@, q8s@[r].qs@, in_f as int);
}

/// The TQ1_0 kernels give the terms of their format, one activation row at a time and in a batch.
pub proof fn law_tq1_0_kernels(
    row: &[u8],
    q8s: &[Q8],
    in_f: usize,
    out: Vec<Vec<Term>>,
    r: int,
    one: Vec<Term>,
    any: Vec<Term>,
)
    requires
        call_ensures(vec_dot_tq1_0_batch, (row, q8s, in_f), out),
        0 <= r < q8s@.len(),
        call_ensures(vec_dot_tq1_0, (row, &q8s@[r], in_f), one),
        call_ensures(vec_dot::<Tq1_0>, (&Tq1_0, row, &q8s@[r], in_f), any),
    ensures
        out@.len() == q8s@.len(),
        out@[r]@ == any@,
        one@ == any@,
{
    crate::laws::law_terms_unique(&Tq1_0, out@[r]@, any@, row@, q8s@[r].qs@, in_f as int);
    crate::laws::law_terms_unique(&Tq1_0, one@, any@, row@, q8s@[r].qs@, in_f as int);
}

/// The Q8_0 kernel over 32-code blocks gives the terms of its format.
pub proof fn law_q8_0_32_batch(
    row: &[u8],
    q8s: &[Q8x32],
    in_f: usize,
    out: Vec<Vec<Term>>,
    any: Vec<Vec<Term>>,
    r: int,
)
    requires
        call_ensures(vec_dot_q8_0_32_batch, (row, q8s, in_f), out),
        call_ensures(vec_dot_32_batch::<Q8_0>, (&Q8_0, row, q8s, in_f), any),
        0 <= r < q8s@.len(),
    ensures
        out@.len() == q8s@.len(),
        out@[r]@ == any@[r]@,
{
    crate::laws::law_terms_unique(&Q8_0, out@[r]@, any@[r]@, row@, q8s@[r].qs@, in_f as int);
}

/// The Q5_0 kernel over 32-code blocks gives the terms of its format.
pub proof fn law_q5_0_32_batch(
    row: &[u8],
    q8s: &[Q8x32],
    in_f: usize,
    out: Vec<Vec<Term>>,
    any: Vec<Vec<Term>>,
    r: int,
)
    requires
        call_ensures(vec_dot_q5_0_32_batch, (row, q8s, in_f), out),
        call_ensures(vec_dot_32_batch::<Q5_0>, (&Q5_0, row, q8s, in_f), any),
        0 <= r < q8s@.len(),
    ensures
        out@.len() == q8s@.len(),
        out@[r]@ == any@[r]@,
{
    crate::laws::law_terms_unique(&Q5_0, out@[r]@, any@[r]@, row@, q8s@[r].qs@, in_f as int);
}

/// The Q4_0 kernel over 32-code blocks gives the terms of its format.
pub proof fn law_q4_0_32_batch(
    row: &[u8],
    q8s: &[Q8x32],
    in_f: usize,
    out: Vec<Vec<Term>>,
    any: Vec<Vec<Term>>,
    r: int,
)
    requires
        call_ensures(vec_dot_q4_0_32_batch, (row, q8s, in_f), out),
        call_ensures(vec_dot_32_batch::<Q4_0>, (&Q4_0, row, q8s, in_f), any),
        0 <= r < q8s@.len(),
    ensures
        out@.len() == q8s@.len(),
        out@[r]@ == any@[r]@,
{
    crate::laws::law_terms_unique(&Q4_0, out@[r]@, any@[r]@, row@, q8s@[r].qs@, in_f as int);
}

/// The Q2_0 kernel over 32-code blocks gives the terms of its format.
pub proof fn law_q2_0_batch(
    row: &[u8],
    q8s: &[Q8x32],
    in_f: usize,
    out: Vec<Vec<Term>>,
    any: Vec<Vec<Term>>,
    r: int,
)
    requires
        call_ensures(vec_dot_q2_0_batch, (row, q8s, in_f), out),
        call_ensures(vec_dot_32_batch::<Q2_0>, (&Q2_0, row, q8s, in_f), any),
        0 <= r < q8s@.len(),
    ensures
        out@.len() == q8s@.len(),
        out@[r]@ == any@[r]@,
{
    crate::laws::law_terms_unique(&Q2_0, out@[r]@, any@[r]@, row@, q8s@[r].qs@, in_f as int);
}

/// The Q4_1 kernel over 32-code blocks gives the terms of its format.
pub proof fn law_q4_1_32_batch(
    row: &[u8],
    q8s: &[Q8x32],
    in_f: usize,
    out: Vec<Vec<Term>>,
    any: Vec<Vec<Term>>,
    r: int,
)
    requires
        call_ensures(vec_dot_q4_1_32_batch, (row, q8s, in_f), out),
        call_ensures(vec_dot_32_batch::<Q4_1>, (&Q4_1, row, q8s, in_f), any),
        0 <= r < q8s@.len(),
    ensures
        out@.len() == q8s@.len(),
        out@[r]@ == any@[r]@,
{
    crate::laws::law_terms_unique(&Q4_1, out@[r]@, any@[r]@, row@, q8s@[r].qs@, in_f as int);
}

/// The Q5_1 kernel over 32-code blocks gives the terms of its format.
pub proof fn law_q5_1_32_batch(
    row: &[u8],
    q8s: &[Q8x32],
    in_f: usize,
    out: Vec<Vec<Term>>,
    any: Vec<Vec<Term>>,
    r: int,
)
    requires
        call_ensures(vec_dot_q5_1_32_batch, (row, q8s, in_f), out),
        call_ensures(vec_dot_32_batch::<Q5_1>, (&Q5_1, row, q8s, in_f), any),
        0 <= r < q8s@.len(),
    ensures
        out@.len() == q8s@.len(),
        out@[r]@ == any@[r]@,
{
    crate::laws::law_terms_unique(&Q5_1, out@[r]@, any@[r]@, row@, q8s@[r].qs@, in_f as int);
}

/// The IQ4NL kernel over 32-code blocks gives the terms of its format.
pub proof fn law_iq4nl_32_batch(
    f: &Iq4Nl,
    row: &[u8],
    q8s: &[Q8x32],
    in_f: usize,
    out: Vec<Vec<Term>>,
    any: Vec<Vec<Term>>,
    r: int,
)
    requires
        call_ensures(vec_dot_iq4nl_32_batch, (f, row, q8s, in_f), out),
        call_ensures(vec_dot_32_batch::<Iq4Nl>, (f, row, q8s, in_f), any),
        0 <= r < q8s@.len(),
    ensures
        out@.len() == q8s@.len(),
        out@[r]@ == any@[r]@,
{
    crate::laws::law_terms_unique(f, out@[r]@, any@[r]@, row@, q8s@[r].qs@, in_f as int);
}

/// The MXFP4 kernel over 32-code blocks gives the terms of its format.
pub proof fn law_mxfp4_32_batch(
    f: &Mxfp4,
    row: &[u8],
    q8s: &[Q8x32],
    in_f: usize,
    out: Vec<Vec<Term>>,
    any: Vec<Vec<Term>>,
    r: int,
)
    requires
        call_ensures(vec_dot_mxfp4_32_batch, (f, row, q8s, in_f), out),
        call_ensures(vec_dot_32_batch::<Mxfp4>, (f, row, q8s, in_f), any),
        0 <= r < q8s@.len(),
    ensures
        out@.len() == q8s@.len(),
        out@[r]@ == any@[r]@,
{
    crate::laws::law_terms_unique(f, out@[r]@, any@[r]@, row@, q8s@[r].qs@, in_f as int);
}

/// The NVFP4 kernel over 32-code blocks gives the terms of its format.
pub proof fn law_nvfp4_batch(
    f: &Nvfp4,
    row: &[u8],
    q8s: &[Q8x32],
    in_f: usize,
    out: Vec<Vec<Term>>,
    any: Vec<Vec<Term>>,
    r: int,
)
    requires
        call_ensures(vec_dot_nvfp4_batch, (f, row, q8s, in_f), out),
        call_ensures(vec_dot_32_batch::<Nvfp4>, (f, row, q8s, in_f), any),
        0 <= r < q8s@.len(),
    ensures
        out@.len() == q8s@.len(),
        out@[r]@ == any@[r]@,
{
    crate::laws::law_terms_unique(f, out@[r]@, any@[r]@, row@, q8s@[r].qs@, in_f as int);
}

/// A row that was decoded once gives the terms that the row itself gives.
pub proof fn law_decoded_row_gives_same_terms<F: WeightFormat>(
    f: &F,
    row: &[u8],
    q8: &Q8,
    in_f: usize,
    dec: Decoded,
    one: Vec<Term>,
    whole: Vec<Term>,
    qs: &[i8],
    sums: &[i32],
    run: Vec<Term>,
)
    requires
        call_ensures(decode_row::<F>, (f, row, in_f), dec),
        call_ensures(dot_super::<F>, (f, &dec, Ghost(row@), q8, in_f), one),
        call_ensures(dot_decoded::<F>, (f, &dec, Ghost(row@), qs, sums, in_f), run),
        qs@ == q8.qs@,
        call_ensures(vec_dot::<F>, (f, row, q8, in_f), whole),
    ensures
        one@ == whole@,
        run@ == whole@,
{
    crate::laws::law_terms_unique(f, one@, whole@, row@, q8.qs@, in_f as int);
    crate::laws::law_terms_unique(f, run@, whole@, row@, q8.qs@, in_f as int);
}

} // verus!
