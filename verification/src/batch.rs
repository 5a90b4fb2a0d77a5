//! Several weight rows against a batch of activation rows.
use vstd::prelude::*;
use crate::format::{is_dot, row_fits, Term, WeightFormat};
use crate::kernels::{
    dot_super, is_blk32_batch, is_super_batch, vec_dot_q4k_batch, vec_dot_q5_0_32_batch,
    vec_dot_q8_0_32_batch,
};
use crate::kquants::Q4K;
use crate::legacy::{Q5_0, Q8_0};
use crate::quant::{Q8, Q8x32};
use crate::rowdot::{are_run_sums, decode_row, decodes, Decoded};
use crate::sums::asum;
use crate::tile::{interleave8, is_interleaved, tile_token};

verus! {

/// The views of eight rows.
pub open spec fn row_views(rows: [&[u8]; 8]) -> Seq<Seq<u8>> {
    Seq::new(8, |i: int| rows@[i]@)
}

/// Decodes eight weight rows.
fn decode8<F: WeightFormat>(f: &F, rows: [&[u8]; 8], in_f: usize) -> (decs: Vec<Decoded>)
    requires
        f.valid(),
        forall|i: int| 0 <= i < 8 ==> row_fits(f, (#[trigger] rows@[i])@, in_f as int),
    ensures
        decs@.len() == 8,
        forall|i: int| 0 <= i < 8 ==> decodes(f, &(#[trigger] decs@[i]), rows@[i]@, in_f as int),
{
    let mut decs: Vec<Decoded> = Vec::new();
    let mut i: usize = 0;
    while i < 8
        invariant
            i <= 8,
            f.valid(),
            forall|k: int| 0 <= k < 8 ==> row_fits(f, (#[trigger] rows@[k])@, in_f as int),
            decs@.len() == i,
            forall|k: int| 0 <= k < i ==> decodes(f, &(#[trigger] decs@[k]), rows@[k]@, in_f as int),
        decreases 8 - i,
    {
        let row: &[u8] = rows[i];
        decs.push(decode_row(f, row, in_f));
        i = i + 1;
    }
    decs
}

/// Eight empty lists.
fn eight_lists() -> (outs: Vec<Vec<Vec<Term>>>)
    ensures
        outs@.len() == 8,
        forall|i: int| 0 <= i < 8 ==> (#[trigger] outs@[i])@.len() == 0,
{
    let mut outs: Vec<Vec<Vec<Term>>> = Vec::new();
    let mut i: usize = 0;
    while i < 8
        invariant
            i <= 8,
            outs@.len() == i,
            forall|k: int| 0 <= k < i ==> (#[trigger] outs@[k])@.len() == 0,
        decreases 8 - i,
    {
        outs.push(Vec::new());
        i = i + 1;
    }
    outs
}

/// Appends to each list the entry of the same index.
fn push8(outs: &mut Vec<Vec<Vec<Term>>>, toks: Vec<Vec<Term>>)
    requires
        old(outs)@.len() == 8,
        toks@.len() == 8,
    ensures
        final(outs)@.len() == 8,
        forall|i: int| 0 <= i < 8 ==> (#[trigger] final(outs)@[i])@ == old(outs)@[i]@.push(toks@[i]),
{
    let ghost before = outs@;
    let ghost all = toks@;
    let mut rest: Vec<Vec<Term>> = toks;
    let mut i: usize = 8;
    while 0 < i
        invariant
            i <= 8,
            outs@.len() == 8,
            before.len() == 8,
            all.len() == 8,
            rest@ == all.take(i as int),
            forall|k: int| 0 <= k < i ==> #[trigger] outs@[k] == before[k],
            forall|k: int| i <= k < 8 ==> (#[trigger] outs@[k])@ == before[k]@.push(all[k]),
        decreases i,
    {
        let next: Option<Vec<Term>> = rest.pop();
        if let Some(v) = next {
            outs[i - 1].push(v);
        }
        i = i - 1;
    }
}

/// Eight Q4_K rows against a batch of super-block activation rows: entry `[i][r]` holds the terms
/// of row `i` against activation row `r`. Rows too long to be interleaved go one by one.
pub fn vec_dot_q4k_batch8(rows: [&[u8]; 8], q8s: &[Q8], in_f: usize) -> (outs: Vec<Vec<Vec<Term>>>)
    requires
        in_f % 256 == 0,
        forall|i: int| 0 <= i < 8 ==> row_fits(&Q4K, (#[trigger] rows@[i])@, in_f as int),
        forall|r: int| 0 <= r < q8s@.len() ==> (#[trigger] q8s@[r]).wf() && in_f <= q8s@[r].qs@.len(),
    ensures
        outs@.len() == 8,
        forall|i: int| 0 <= i < 8 ==> is_super_batch(&Q4K, (#[trigger] outs@[i])@, rows@[i]@, q8s@, in_f as int),
{
    if in_f > usize::MAX / 8 {
        let mut outs: Vec<Vec<Vec<Term>>> = Vec::new();
        let mut i: usize = 0;
        while i < 8
            invariant
                i <= 8,
                in_f % 256 == 0,
                forall|k: int| 0 <= k < 8 ==> row_fits(&Q4K, (#[trigger] rows@[k])@, in_f as int),
                forall|r: int| 0 <= r < q8s@.len() ==> (#[trigger] q8s@[r]).wf() && in_f <= q8s@[r].qs@.len(),
                outs@.len() == i,
                forall|k: int|
                    0 <= k < i ==> is_super_batch(&Q4K, (#[trigger] outs@[k])@, rows@[k]@, q8s@, in_f as int),
            decreases 8 - i,
        {
            let row: &[u8] = rows[i];
            outs.push(vec_dot_q4k_batch(row, q8s, in_f));
            i = i + 1;
        }
        return outs;
    }
    let decs: Vec<Decoded> = decode8(&Q4K, rows, in_f);
    proof {
        assert forall|i: int, e: int| 0 <= i < 8 && 0 <= e < in_f implies 0 <= #[trigger] decs@[i].codes@[e] by {
            assert(decodes(&Q4K, &decs@[i], rows@[i]@, in_f as int));
        }
    }
    let ilv: Vec<u8> = interleave8(&decs, 0, in_f);
    let mut outs: Vec<Vec<Vec<Term>>> = eight_lists();
    let mut r: usize = 0;
    while r < q8s.len()
        invariant
            r <= q8s@.len(),
            in_f % 256 == 0,
            decs@.len() == 8,
            forall|i: int| 0 <= i < 8 ==> decodes(&Q4K, &(#[trigger] decs@[i]), rows@[i]@, in_f as int),
            is_interleaved(ilv@, decs@, 0, in_f as int),
            forall|k: int| 0 <= k < q8s@.len() ==> (#[trigger] q8s@[k]).wf() && in_f <= q8s@[k].qs@.len(),
            outs@.len() == 8,
            forall|i: int| 0 <= i < 8 ==> (#[trigger] outs@[i])@.len() == r,
            forall|i: int, k: int|
                0 <= i < 8 && 0 <= k < r ==> is_dot(
                    &Q4K,
                    (#[trigger] outs@[i]@[k])@,
                    rows@[i]@,
                    q8s@[k].qs@,
                    in_f as int,
                ),
        decreases q8s@.len() - r,
    {
        let q8: &Q8 = &q8s[r];
        assert(are_run_sums(q8.bsums@, q8.qs@, 32, in_f as int)) by {
            assert forall|t: int| 0 <= t < in_f as int / 32 implies #[trigger] q8.bsums@[t] == asum(
                q8.qs@,
                32 * t,
                32,
            ) by {
                assert(q8.bsums@[t] == asum(q8.qs@, 32 * t, 32));
            }
        }
        let toks: Vec<Vec<Term>> = tile_token(&Q4K, &decs, Ghost(row_views(rows)), &ilv, 0, &q8.qs, &q8.bsums, in_f);
        let ghost before = outs@;
        push8(&mut outs, toks);
        proof {
            assert forall|i: int, k: int| 0 <= i < 8 && 0 <= k < r + 1 implies is_dot(
                &Q4K,
                (#[trigger] outs@[i]@[k])@,
                rows@[i]@,
                q8s@[k].qs@,
                in_f as int,
            ) by {
                if k < r {
                    assert(outs@[i]@[k] == before[i]@[k]);
                } else {
                    assert(outs@[i]@[k] == toks@[i]);
                }
            }
        }
        r = r + 1;
    }
    outs
}

/// Eight rows of a 32-weight format against a batch of activation rows of 32-code blocks.
fn tile8_blk32<F: WeightFormat>(f: &F, rows: [&[u8]; 8], q8s: &[Q8x32], in_f: usize, bias: i32) -> (outs: Vec<
    Vec<Vec<Term>>,
>)
    requires
        f.valid(),
        f.shape().elems == 32,
        f.shape().sub == 32,
        8 * in_f <= usize::MAX,
        bias == 0 || bias == 128,
        bias == 0 ==> forall|blk: Seq<u8>, e: int| 0 <= e < 32 ==> 0 <= #[trigger] f.code(blk, e),
        forall|i: int| 0 <= i < 8 ==> row_fits(f, (#[trigger] rows@[i])@, in_f as int),
        forall|r: int| 0 <= r < q8s@.len() ==> (#[trigger] q8s@[r]).wf() && in_f <= q8s@[r].qs@.len(),
    ensures
        outs@.len() == 8,
        forall|i: int| 0 <= i < 8 ==> is_blk32_batch(f, (#[trigger] outs@[i])@, rows@[i]@, q8s@, in_f as int),
{
    let decs: Vec<Decoded> = decode8(f, rows, in_f);
    proof {
        assert(row_fits(f, rows@[0]@, in_f as int));
        assert forall|i: int, e: int| bias == 0 && 0 <= i < 8 && 0 <= e < in_f implies 0
            <= #[trigger] decs@[i].codes@[e] by {
            assert(decodes(f, &decs@[i], rows@[i]@, in_f as int));
        }
    }
    let ilv: Vec<u8> = interleave8(&decs, bias, in_f);
    let mut outs: Vec<Vec<Vec<Term>>> = eight_lists();
    let mut r: usize = 0;
    while r < q8s.len()
        invariant
            r <= q8s@.len(),
            f.valid(),
            f.shape().elems == 32,
            f.shape().sub == 32,
            bias == 0 || bias == 128,
            in_f % 32 == 0,
            decs@.len() == 8,
            forall|i: int| 0 <= i < 8 ==> decodes(f, &(#[trigger] decs@[i]), rows@[i]@, in_f as int),
            is_interleaved(ilv@, decs@, bias as int, in_f as int),
            forall|k: int| 0 <= k < q8s@.len() ==> (#[trigger] q8s@[k]).wf() && in_f <= q8s@[k].qs@.len(),
            outs@.len() == 8,
            forall|i: int| 0 <= i < 8 ==> (#[trigger] outs@[i])@.len() == r,
            forall|i: int, k: int|
                0 <= i < 8 && 0 <= k < r ==> is_dot(
                    f,
                    (#[trigger] outs@[i]@[k])@,
                    rows@[i]@,
                    q8s@[k].qs@,
                    in_f as int,
                ),
        decreases q8s@.len() - r,
    {
        let q8: &Q8x32 = &q8s[r];
        assert(are_run_sums(q8.bsum@, q8.qs@, 32, in_f as int)) by {
            assert forall|t: int| 0 <= t < in_f as int / 32 implies #[trigger] q8.bsum@[t] == asum(
                q8.qs@,
                32 * t,
                32,
            ) by {
                assert(q8.bsum@[t] == asum(q8.qs@, 32 * t, 32));
            }
        }
        let toks: Vec<Vec<Term>> = tile_token(f, &decs, Ghost(row_views(rows)), &ilv, bias, &q8.qs, &q8.bsum, in_f);
        let ghost before = outs@;
        push8(&mut outs, toks);
        proof {
            assert forall|i: int, k: int| 0 <= i < 8 && 0 <= k < r + 1 implies is_dot(
                f,
                (#[trigger] outs@[i]@[k])@,
                rows@[i]@,
                q8s@[k].qs@,
                in_f as int,
            ) by {
                if k < r {
                    assert(outs@[i]@[k] == before[i]@[k]);
                } else {
                    assert(outs@[i]@[k] == toks@[i]);
                }
            }
        }
        r = r + 1;
    }
    outs
}

/// Eight Q5_0 rows (`q5`) or Q8_0 rows against a batch of activation rows of 32-code blocks: entry
/// `[i][r]` holds the terms of row `i` against activation row `r`. The signed Q8_0 codes are made
/// unsigned by a bias of 128 inside the tile. Rows too long to be interleaved go one by one.
pub fn vec_dot_q32_batch8(rows: [&[u8]; 8], q8s: &[Q8x32], in_f: usize, q5: bool) -> (outs: Vec<Vec<Vec<Term>>>)
    requires
        forall|i: int|
            0 <= i < 8 ==> if q5 {
                row_fits(&Q5_0, (#[trigger] rows@[i])@, in_f as int)
            } else {
                row_fits(&Q8_0, rows@[i]@, in_f as int)
            },
        forall|r: int| 0 <= r < q8s@.len() ==> (#[trigger] q8s@[r]).wf() && in_f <= q8s@[r].qs@.len(),
    ensures
        outs@.len() == 8,
        forall|i: int|
            0 <= i < 8 ==> if q5 {
                is_blk32_batch(&Q5_0, (#[trigger] outs@[i])@, rows@[i]@, q8s@, in_f as int)
            } else {
                is_blk32_batch(&Q8_0, outs@[i]@, rows@[i]@, q8s@, in_f as int)
            },
{
    if in_f <= usize::MAX / 8 {
        if q5 {
            return tile8_blk32(&Q5_0, rows, q8s, in_f, 0);
        }
        return tile8_blk32(&Q8_0, rows, q8s, in_f, 128);
    }
    let mut outs: Vec<Vec<Vec<Term>>> = Vec::new();
    let mut i: usize = 0;
    while i < 8
        invariant
            i <= 8,
            forall|k: int|
                0 <= k < 8 ==> if q5 {
                    row_fits(&Q5_0, (#[trigger] rows@[k])@, in_f as int)
                } else {
                    row_fits(&Q8_0, rows@[k]@, in_f as int)
                },
            forall|r: int| 0 <= r < q8s@.len() ==> (#[trigger] q8s@[r]).wf() && in_f <= q8s@[r].qs@.len(),
            outs@.len() == i,
            forall|k: int|
                0 <= k < i ==> if q5 {
                    is_blk32_batch(&Q5_0, (#[trigger] outs@[k])@, rows@[k]@, q8s@, in_f as int)
                } else {
                    is_blk32_batch(&Q8_0, outs@[k]@, rows@[k]@, q8s@, in_f as int)
                },
        decreases 8 - i,
    {
        let row: &[u8] = rows[i];
        if q5 {
            outs.push(vec_dot_q5_0_32_batch(row, q8s, in_f));
        } else {
            outs.push(vec_dot_q8_0_32_batch(row, q8s, in_f));
        }
        i = i + 1;
    }
    outs
}

/// Two Q4_K rows against a batch of super-block activation rows.
pub fn vec_dot_q4k_batch2(row_a: &[u8], row_b: &[u8], q8s: &[Q8], in_f: usize) -> (outs: (
    Vec<Vec<Term>>,
    Vec<Vec<Term>>,
))
    requires
        in_f % 256 == 0,
        row_fits(&Q4K, row_a@, in_f as int),
        row_fits(&Q4K, row_b@, in_f as int),
        forall|r: int| 0 <= r < q8s@.len() ==> (#[trigger] q8s@[r]).wf() && in_f <= q8s@[r].qs@.len(),
    ensures
        is_super_batch(&Q4K, outs.0@, row_a@, q8s@, in_f as int),
        is_super_batch(&Q4K, outs.1@, row_b@, q8s@, in_f as int),
{
    let dec_a: Decoded = decode_row(&Q4K, row_a, in_f);
    let dec_b: Decoded = decode_row(&Q4K, row_b, in_f);
    let mut out_a: Vec<Vec<Term>> = Vec::new();
    let mut out_b: Vec<Vec<Term>> = Vec::new();
    let mut r: usize = 0;
    while r < q8s.len()
        invariant
            r <= q8s@.len(),
            in_f % 256 == 0,
            row_fits(&Q4K, row_a@, in_f as int),
            row_fits(&Q4K, row_b@, in_f as int),
            decodes(&Q4K, &dec_a, row_a@, in_f as int),
            decodes(&Q4K, &dec_b, row_b@, in_f as int),
            forall|k: int| 0 <= k < q8s@.len() ==> (#[trigger] q8s@[k]).wf() && in_f <= q8s@[k].qs@.len(),
            out_a@.len() == r,
            out_b@.len() == r,
            forall|k: int| 0 <= k < r ==> is_dot(&Q4K, (#[trigger] out_a@[k])@, row_a@, q8s@[k].qs@, in_f as int),
            forall|k: int| 0 <= k < r ==> is_dot(&Q4K, (#[trigger] out_b@[k])@, row_b@, q8s@[k].qs@, in_f as int),
        decreases q8s@.len() - r,
    {
        let q8: &Q8 = &q8s[r];
        out_a.push(dot_super(&Q4K, &dec_a, Ghost(row_a@), q8, in_f));
        out_b.push(dot_super(&Q4K, &dec_b, Ghost(row_b@), q8, in_f));
        r = r + 1;
    }
    (out_a, out_b)
}

/// A tile of eight rows gives each row the terms that the row alone gives, in the place of the row.
pub proof fn law_tile_is_its_rows(
    rows: [&[u8]; 8],
    q8s: &[Q8],
    in_f: usize,
    outs: Vec<Vec<Vec<Term>>>,
    i: int,
    r: int,
    one: Vec<Term>,
)
    requires
        call_ensures(vec_dot_q4k_batch8, (rows, q8s, in_f), outs),
        0 <= i < 8,
        0 <= r < q8s@.len(),
        call_ensures(crate::kernels::vec_dot_q4k, (rows@[i], &q8s@[r], in_f), one),
    ensures
        outs@.len() == 8,
        outs@[i]@.len() == q8s@.len(),
        outs@[i]@[r]@ == one@,
{
    assert(is_super_batch(&Q4K, outs@[i]@, rows@[i]@, q8s@, in_f as int));
    crate::laws::law_terms_unique(&Q4K, outs@[i]@[r]@, one@, rows@[i]@, q8s@[r].qs@, in_f as int);
}

/// A tile of eight rows over 32-code blocks gives each row the terms that the row alone gives: of the
/// 5-bit format where it is asked for, else of the 8-bit one.
pub proof fn law_tile32_is_its_rows(
    rows: [&[u8]; 8],
    q8s: &[Q8x32],
    in_f: usize,
    q5: bool,
    outs: Vec<Vec<Vec<Term>>>,
    i: int,
    r: int,
    five: Vec<Vec<Term>>,
    eight: Vec<Vec<Term>>,
)
    requires
        call_ensures(vec_dot_q32_batch8, (rows, q8s, in_f, q5), outs),
        0 <= i < 8,
        0 <= r < q8s@.len(),
        call_ensures(crate::kernels::vec_dot_q5_0_32_batch, (rows@[i], q8s, in_f), five),
        call_ensures(crate::kernels::vec_dot_q8_0_32_batch, (rows@[i], q8s, in_f), eight),
    ensures
        outs@.len() == 8,
        outs@[i]@.len() == q8s@.len(),
        q5 ==> outs@[i]@[r]@ == five@[r]@,
        !q5 ==> outs@[i]@[r]@ == eight@[r]@,
{
    if q5 {
        assert(is_blk32_batch(&Q5_0, outs@[i]@, rows@[i]@, q8s@, in_f as int));
        crate::laws::law_terms_unique(&Q5_0, outs@[i]@[r]@, five@[r]@, rows@[i]@, q8s@[r].qs@, in_f as int);
    } else {
        assert(is_blk32_batch(&Q8_0, outs@[i]@, rows@[i]@, q8s@, in_f as int));
        crate::laws::law_terms_unique(&Q8_0, outs@[i]@[r]@, eight@[r]@, rows@[i]@, q8s@[r].qs@, in_f as int);
    }
}

/// A pair of rows gives each row the terms that the row alone gives.
pub proof fn law_pair_is_its_rows(
    row_a: &[u8],
    row_b: &[u8],
    q8s: &[Q8],
    in_f: usize,
    outs: (Vec<Vec<Term>>, Vec<Vec<Term>>),
    r: int,
    a: Vec<Term>,
    b: Vec<Term>,
)
    requires
        call_ensures(vec_dot_q4k_batch2, (row_a, row_b, q8s, in_f), outs),
        0 <= r < q8s@.len(),
        call_ensures(crate::kernels::vec_dot_q4k, (row_a, &q8s@[r], in_f), a),
        call_ensures(crate::kernels::vec_dot_q4k, (row_b, &q8s@[r], in_f), b),
    ensures
        outs.0@.len() == q8s@.len(),
        outs.1@.len() == q8s@.len(),
        outs.0@[r]@ == a@,
        outs.1@[r]@ == b@,
{
    crate::laws::law_terms_unique(&Q4K, outs.0@[r]@, a@, row_a@, q8s@[r].qs@, in_f as int);
    crate::laws::law_terms_unique(&Q4K, outs.1@[r]@, b@, row_b@, q8s@[r].qs@, in_f as int);
}

} // verus!
