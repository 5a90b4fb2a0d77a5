//! What holds of the kernels taken together.
use vstd::prelude::*;
use vstd::arithmetic::div_mod::lemma_fundamental_div_mod;
use crate::bits::block_of;
use crate::dispatch::{is_row_batch, is_row_dot, Tables};
use crate::dtype::DType;
use crate::format::{is_dot, is_term, mins_at, row_fits, weights_at, Term, WeightFormat};
use crate::gemm::is_gemm;
use crate::kernels::{is_blk32_batch, is_super_batch};
use crate::legacy::Q8_0;
use crate::quant::{Q8, Q8x32};
use crate::rowdot::{decode_row, Decoded};
use crate::sums::{lemma_wdot_segment, wdot};

verus! {

/// A row and an activation row determine the terms of their dot product.
pub proof fn law_terms_unique<F: WeightFormat>(
    f: &F,
    t1: Seq<Term>,
    t2: Seq<Term>,
    row: Seq<u8>,
    a: Seq<i8>,
    in_f: int,
)
    requires
        is_dot(f, t1, row, a, in_f),
        is_dot(f, t2, row, a, in_f),
    ensures
        t1 == t2,
{
    assert forall|u: int| 0 <= u < t1.len() implies t1[u] == t2[u] by {
        assert(is_term(f, t1[u], row, a, u));
        assert(is_term(f, t2[u], row, a, u));
    }
    assert(t1 =~= t2);
}

/// A batch gives every activation row exactly the terms that the row alone gives, whether the batch
/// went through one row, a pair of rows or an eight-row tile.
pub proof fn law_batch_is_single<F: WeightFormat>(
    f: &F,
    out: Seq<Vec<Term>>,
    row: Seq<u8>,
    q8s: Seq<Q8>,
    in_f: int,
    r: int,
    single: Seq<Term>,
)
    requires
        is_super_batch(f, out, row, q8s, in_f),
        0 <= r < q8s.len(),
        is_dot(f, single, row, q8s[r].qs@, in_f),
    ensures
        out[r]@ == single,
{
    law_terms_unique(f, out[r]@, single, row, q8s[r].qs@, in_f);
}

/// The same over activation rows of 32-code blocks: two batches that hold the same activation row
/// give it the same terms, so a batch of one gives what a larger batch gives.
pub proof fn law_blk32_batch_is_single<F: WeightFormat>(
    f: &F,
    out: Seq<Vec<Term>>,
    row: Seq<u8>,
    q8s: Seq<Q8x32>,
    in_f: int,
    r: int,
    one: Seq<Vec<Term>>,
    q8: Seq<Q8x32>,
)
    requires
        is_blk32_batch(f, out, row, q8s, in_f),
        0 <= r < q8s.len(),
        q8.len() == 1,
        q8[0] == q8s[r],
        is_blk32_batch(f, one, row, q8, in_f),
    ensures
        out[r]@ == one[0]@,
{
    law_terms_unique(f, out[r]@, one[0]@, row, q8s[r].qs@, in_f);
}

/// A Q8_0 row gives the same terms over super-blocks as over 32-code blocks, for the same codes.
pub proof fn law_q8_0_representations_agree(
    out: Seq<Vec<Term>>,
    out32: Seq<Vec<Term>>,
    row: Seq<u8>,
    q8s: Seq<Q8>,
    q8s32: Seq<Q8x32>,
    in_f: int,
    r: int,
)
    requires
        is_super_batch(&Q8_0, out, row, q8s, in_f),
        is_blk32_batch(&Q8_0, out32, row, q8s32, in_f),
        0 <= r < q8s.len(),
        r < q8s32.len(),
        q8s[r].qs@ == q8s32[r].qs@,
    ensures
        out[r]@ == out32[r]@,
{
    law_terms_unique(&Q8_0, out[r]@, out32[r]@, row, q8s[r].qs@, in_f);
}

/// The sum of the first `n` integer parts of a list of terms.
pub open spec fn sum_sd(terms: Seq<Term>, n: nat) -> int
    decreases n,
{
    if n == 0 {
        0
    } else {
        sum_sd(terms, (n - 1) as nat) + terms[n - 1].sd
    }
}

proof fn lemma_prefix_sum<F: WeightFormat>(f: &F, terms: Seq<Term>, row: Seq<u8>, a: Seq<i8>, in_f: int, n: nat)
    requires
        is_dot(f, terms, row, a, in_f),
        n <= terms.len(),
        0 < f.shape().unit,
    ensures
        sum_sd(terms, n) == wdot(weights_at(f, row, 0), a, 0, (f.shape().unit * n) as nat),
    decreases n,
{
    let unit = f.shape().unit as int;
    if n == 0 {
        assert(unit * 0 == 0) by (nonlinear_arith);
    } else {
        let k = (n - 1) as nat;
        lemma_prefix_sum(f, terms, row, a, in_f, k);
        assert(is_term(f, terms[n - 1], row, a, n - 1));
        let w = weights_at(f, row, 0);
        let g = weights_at(f, row, unit * k);
        assert(unit * k + unit == unit * n) by (nonlinear_arith)
            requires
                n == k + 1,
        ;
        assert(0 <= unit * k) by (nonlinear_arith)
            requires
                0 < unit,
        ;
        assert forall|j: int| 0 <= j < unit implies #[trigger] g(j) * 1 == w(unit * k + j) by {
            assert(unit * k + j == 0 + (unit * k + j));
        }
        lemma_wdot_segment(w, g, 1, a, 0, (unit * k) as nat, unit as nat);
    }
}

/// No element is dropped: the integer parts of the terms add up to the dot product of all `in_f`
/// integer weights of the row with the activation codes.
pub proof fn law_terms_cover_row<F: WeightFormat>(f: &F, terms: Seq<Term>, row: Seq<u8>, a: Seq<i8>, in_f: int)
    requires
        is_dot(f, terms, row, a, in_f),
        row_fits(f, row, in_f),
        0 <= in_f,
    ensures
        sum_sd(terms, terms.len()) == wdot(weights_at(f, row, 0), a, 0, in_f as nat),
{
    f.lemma_shape();
    let sh = f.shape();
    let unit = sh.unit as int;
    let elems = sh.elems as int;
    crate::rowdot::lemma_shape_divides(sh);
    lemma_prefix_sum(f, terms, row, a, in_f, terms.len());
    lemma_fundamental_div_mod(in_f, elems);
    lemma_fundamental_div_mod(elems, unit);
    let q = in_f / elems;
    let p = elems / unit;
    assert(in_f == unit * (p * q)) by (nonlinear_arith)
        requires
            in_f == elems * q,
            elems == unit * p,
    ;
    vstd::arithmetic::div_mod::lemma_fundamental_div_mod_converse(in_f, unit, p * q, 0);
}

/// A row and an activation row determine the terms, whatever the type of the row.
pub proof fn law_row_terms_unique(
    dt: DType,
    tb: &Tables,
    t1: Seq<Term>,
    t2: Seq<Term>,
    row: Seq<u8>,
    a: Seq<i8>,
    in_f: int,
)
    requires
        is_row_dot(dt, tb, t1, row, a, in_f),
        is_row_dot(dt, tb, t2, row, a, in_f),
    ensures
        t1 == t2,
{
    match dt {
        DType::Q4K => law_terms_unique(&crate::kquants::Q4K, t1, t2, row, a, in_f),
        DType::Q5K => law_terms_unique(&crate::kquants::Q5K, t1, t2, row, a, in_f),
        DType::Q6K => law_terms_unique(&crate::kquants::Q6K, t1, t2, row, a, in_f),
        DType::Q2K => law_terms_unique(&crate::kquants::Q2K, t1, t2, row, a, in_f),
        DType::Q3K => law_terms_unique(&crate::kquants::Q3K, t1, t2, row, a, in_f),
        DType::Iq4Xs => law_terms_unique(&tb.iq4xs(), t1, t2, row, a, in_f),
        DType::Iq2S => law_terms_unique(&tb.iq2s(), t1, t2, row, a, in_f),
        DType::Iq2Xs => law_terms_unique(&tb.iq2xs(), t1, t2, row, a, in_f),
        DType::Iq2Xxs => law_terms_unique(&tb.iq2xxs(), t1, t2, row, a, in_f),
        DType::Iq3S => law_terms_unique(&tb.iq3s(), t1, t2, row, a, in_f),
        DType::Iq3Xxs => law_terms_unique(&tb.iq3xxs(), t1, t2, row, a, in_f),
        DType::Iq1S => law_terms_unique(&tb.iq1s(), t1, t2, row, a, in_f),
        DType::Iq1M => law_terms_unique(&tb.iq1m(), t1, t2, row, a, in_f),
        DType::Tq1_0 => law_terms_unique(&crate::ternary::Tq1_0, t1, t2, row, a, in_f),
        DType::Tq2_0 => law_terms_unique(&crate::ternary::Tq2_0, t1, t2, row, a, in_f),
        DType::Q8_0 => law_terms_unique(&Q8_0, t1, t2, row, a, in_f),
        DType::Q5_0 => law_terms_unique(&crate::legacy::Q5_0, t1, t2, row, a, in_f),
        DType::Q4_0 => law_terms_unique(&crate::legacy::Q4_0, t1, t2, row, a, in_f),
        DType::Q4_1 => law_terms_unique(&crate::legacy::Q4_1, t1, t2, row, a, in_f),
        DType::Q5_1 => law_terms_unique(&crate::legacy::Q5_1, t1, t2, row, a, in_f),
        DType::Iq4Nl => law_terms_unique(&tb.iq4nl(), t1, t2, row, a, in_f),
        DType::Mxfp4 => law_terms_unique(&tb.mxfp4(), t1, t2, row, a, in_f),
        DType::Q2_0 => law_terms_unique(&crate::legacy::Q2_0, t1, t2, row, a, in_f),
        DType::Nvfp4 => law_terms_unique(&tb.nvfp4(), t1, t2, row, a, in_f),
        _ => {},
    }
}

/// However the output rows of a bank are cut into ranges, every range gives the terms that the
/// whole bank gives.
pub proof fn law_ranges_give_the_bank(
    dt: DType,
    tb: &Tables,
    part: Seq<Vec<Vec<Term>>>,
    whole: Seq<Vec<Vec<Term>>>,
    wbytes: Seq<u8>,
    bpr: int,
    acts: Seq<Seq<i8>>,
    in_f: int,
    out_f: int,
    o0: int,
    o1: int,
    o: int,
    r: int,
)
    requires
        is_gemm(dt, tb, part, wbytes, bpr, acts, in_f, o0, o1),
        is_gemm(dt, tb, whole, wbytes, bpr, acts, in_f, 0, out_f),
        0 <= o0 <= o < o1 <= out_f,
        0 <= r < acts.len(),
    ensures
        part[o - o0]@[r]@ == whole[o]@[r]@,
{
    assert(is_row_batch(dt, tb, part[o - o0]@, block_of(wbytes, bpr, o0 + (o - o0)), acts, in_f));
    assert(is_row_batch(dt, tb, whole[o]@, block_of(wbytes, bpr, 0 + o), acts, in_f));
    law_row_terms_unique(dt, tb, part[o - o0]@[r]@, whole[o]@[r]@, block_of(wbytes, bpr, o), acts[r], in_f);
}

/// Where unit `k` of block `b` stands among the units of a row of blocks of `m` units.
proof fn lemma_unit_of_block(elems: int, unit: int, m: int, b: int, k: int)
    requires
        0 < unit,
        0 < m,
        elems == m * unit,
        0 <= b,
        0 <= k < m,
    ensures
        unit * (b * m + k) == b * elems + k * unit,
        (unit * (b * m + k)) / elems == b,
        (unit * (b * m + k)) % elems == k * unit,
        (k * unit) / unit == k,
        0 <= k * unit,
        k * unit + unit <= elems,
        0 <= b * elems,
        0 <= b * m,
{
    assert(unit * (b * m + k) == b * (m * unit) + k * unit) by (nonlinear_arith);
    assert(0 <= k * unit && k * unit + unit <= m * unit && 0 <= b * (m * unit) && 0 <= b * m) by (nonlinear_arith)
        requires
            0 <= k,
            k + 1 <= m,
            0 < unit,
            0 <= b,
            0 < m,
    ;
    vstd::arithmetic::div_mod::lemma_fundamental_div_mod_converse(unit * (b * m + k), elems, b, k * unit);
    vstd::arithmetic::div_mod::lemma_fundamental_div_mod_converse(k * unit, unit, k, 0);
}

/// What a kernel computes. A row is a run of blocks, each a run of units, and has one term for each
/// unit, with the scale of the unit. Where one activation code changes, the integer part of the term
/// of its unit changes by as much times the weight that the code meets, which is the element's code
/// less the offset, times the scale of its sub-block; the second part changes by as much times the
/// min of the sub-block; and no other term changes.
pub proof fn law_terms_follow_each_code<F: WeightFormat>(
    f: &F,
    t1: Seq<Term>,
    t2: Seq<Term>,
    row: Seq<u8>,
    a: Seq<i8>,
    c: Seq<i8>,
    in_f: int,
    m: int,
    b: int,
    k: int,
    x: int,
    s: int,
    y: int,
    v: int,
)
    requires
        is_dot(f, t1, row, a, in_f),
        is_dot(f, t2, row, c, in_f),
        row_fits(f, row, in_f),
        f.shape().elems == m * f.shape().unit,
        0 <= b,
        b * f.shape().elems + f.shape().elems <= in_f,
        0 <= k < m,
        0 <= x < f.shape().unit,
        0 <= s,
        0 <= y < f.shape().sub,
        k * f.shape().unit + x == s * f.shape().sub + y,
        forall|i: int|
            0 <= i < in_f && i != b * f.shape().elems + (k * f.shape().unit + x) ==> #[trigger] a[i] == c[i],
    ensures
        t1.len() * f.shape().unit == in_f,
        t2.len() == t1.len(),
        0 <= b * m + k < t1.len(),
        ({
            let blk = row.subrange(b * f.shape().bytes, b * f.shape().bytes + f.shape().bytes);
            let e = k * f.shape().unit + x;
            let i = b * f.shape().elems + e;
            let u = b * m + k;
            &&& t1[u].d == f.d(blk, k)
            &&& t1[u].aux == f.aux(blk, k)
            &&& t2[u].sd - t1[u].sd == ((f.code(blk, e) - f.shape().offset) * f.scale(blk, s)) * (c[i] - a[i])
            &&& t2[u].sm - t1[u].sm == f.min(blk, s) * (c[i] - a[i])
            &&& 0 <= v < t1.len() && v != u ==> t2[v] == t1[v]
        }),
{
    f.lemma_shape();
    let sh = f.shape();
    let (elems, unit, sub) = (sh.elems as int, sh.unit as int, sh.sub as int);
    let e = k * unit + x;
    let i = b * elems + e;
    let u = b * m + k;
    assert(0 < m) by (nonlinear_arith)
        requires
            elems == m * unit,
            0 < unit,
            0 < elems,
    ;
    lemma_unit_of_block(elems, unit, m, b, k);
    vstd::arithmetic::div_mod::lemma_fundamental_div_mod_converse(i, elems, b, e);
    vstd::arithmetic::div_mod::lemma_fundamental_div_mod_converse(e, sub, s, y);
    lemma_units_fill_row(in_f, elems, unit, m);
    let n = in_f / unit;
    assert(u < n) by {
        let q = in_f / elems;
        assert(b < q) by (nonlinear_arith)
            requires
                b * elems + elems <= in_f,
                in_f == elems * q,
                0 < elems,
        ;
        assert(b * m + m <= q * m) by (nonlinear_arith)
            requires
                b + 1 <= q,
                0 < m,
        ;
    }
    assert(is_term(f, t1[u], row, a, u) && is_term(f, t2[u], row, c, u));
    let at = unit * u;
    assert(at + unit <= in_f) by (nonlinear_arith)
        requires
            at == unit * u,
            u + 1 <= n,
            in_f == unit * n,
            0 < unit,
    ;
    assert forall|j: int| 0 <= j < unit && j != x implies #[trigger] a[at + j] == c[at + j] by {
        assert(at + j != i);
    }
    let w = weights_at(f, row, at);
    let g = mins_at(f, row, at);
    crate::sums::law_dot_follows_each_code(w, a, c, at, unit as nat, x);
    crate::sums::law_dot_follows_each_code(g, a, c, at, unit as nat, x);
    assert(at + x == i);
    if 0 <= v < t1.len() && v != u {
        assert(is_term(f, t1[v], row, a, v) && is_term(f, t2[v], row, c, v));
        let vt = unit * v;
        assert(0 <= vt && vt + unit <= in_f && (vt + unit <= at || at + unit <= vt)) by (nonlinear_arith)
            requires
                vt == unit * v,
                at == unit * u,
                0 <= v,
                v + 1 <= n,
                v != u,
                in_f == unit * n,
                0 < unit,
        ;
        assert forall|j: int| 0 <= j < unit implies #[trigger] a[vt + j] == c[vt + j] by {
            assert(vt + j != i);
        }
        crate::sums::lemma_dots_agree(weights_at(f, row, vt), a, c, vt, unit as nat);
        crate::sums::lemma_dots_agree(mins_at(f, row, vt), a, c, vt, unit as nat);
    }
}

/// Whole blocks are whole units.
proof fn lemma_units_fill_row(in_f: int, elems: int, unit: int, m: int)
    requires
        0 < unit,
        0 < elems,
        0 < m,
        elems == m * unit,
        in_f % elems == 0,
    ensures
        in_f == elems * (in_f / elems),
        in_f / unit == (in_f / elems) * m,
        in_f == unit * (in_f / unit),
        (in_f / unit) * unit == in_f,
{
    lemma_fundamental_div_mod(in_f, elems);
    let q = in_f / elems;
    assert(in_f == (q * m) * unit && unit * (q * m) == (q * m) * unit) by (nonlinear_arith)
        requires
            in_f == elems * q,
            elems == m * unit,
    ;
    vstd::arithmetic::div_mod::lemma_fundamental_div_mod_converse(in_f, unit, q * m, 0);
}

/// Against codes that are all zero the integer parts are zero.
pub proof fn law_zero_codes_give_zero<F: WeightFormat>(
    f: &F,
    terms: Seq<Term>,
    row: Seq<u8>,
    a: Seq<i8>,
    in_f: int,
    u: int,
)
    requires
        is_dot(f, terms, row, a, in_f),
        row_fits(f, row, in_f),
        0 <= in_f,
        0 <= u < terms.len(),
        forall|i: int| 0 <= i < in_f ==> #[trigger] a[i] == 0,
    ensures
        terms[u].sd == 0,
        terms[u].sm == 0,
{
    f.lemma_shape();
    let unit = f.shape().unit as int;
    assert(is_term(f, terms[u], row, a, u));
    lemma_fundamental_div_mod(in_f, unit);
    vstd::arithmetic::div_mod::lemma_mod_bound(in_f, unit);
    let n = in_f / unit;
    let at = unit * u;
    assert(0 <= at && at + unit <= unit * n) by (nonlinear_arith)
        requires
            at == unit * u,
            0 <= u,
            u + 1 <= n,
            0 < unit,
    ;
    assert forall|j: int| 0 <= j < unit implies #[trigger] a[at + j] == 0 by {}
    crate::sums::law_zeros_sum_to_zero(weights_at(f, row, at), a, at, unit as nat);
    crate::sums::law_zeros_sum_to_zero(mins_at(f, row, at), a, at, unit as nat);
}

/// Element `e` of block `b` of a decoded row has the code of that element of the block; a sub-block
/// its scale and min, and a unit its two numbers.
pub proof fn law_decoded_row<F: WeightFormat>(
    f: &F,
    row: &[u8],
    in_f: usize,
    dec: Decoded,
    b: int,
    e: int,
    ms: int,
    s: int,
    mu: int,
    k: int,
)
    requires
        call_ensures(decode_row::<F>, (f, row, in_f), dec),
        row_fits(f, row@, in_f as int),
        0 <= b,
        b * f.shape().elems + f.shape().elems <= in_f,
        0 <= e < f.shape().elems,
        f.shape().elems == ms * f.shape().sub,
        0 <= s < ms,
        f.shape().elems == mu * f.shape().unit,
        0 <= k < mu,
    ensures
        ({
            let blk = row@.subrange(b * f.shape().bytes, b * f.shape().bytes + f.shape().bytes);
            &&& dec.codes@.len() == in_f
            &&& dec.codes@[b * f.shape().elems + e] == f.code(blk, e)
            &&& dec.sc@[b * ms + s] == f.scale(blk, s)
            &&& dec.mins@[b * ms + s] == f.min(blk, s)
            &&& dec.d@[b * mu + k] == f.d(blk, k)
            &&& dec.aux@[b * mu + k] == f.aux(blk, k)
        }),
{
    f.lemma_shape();
    let sh = f.shape();
    let (elems, unit, sub) = (sh.elems as int, sh.unit as int, sh.sub as int);
    let i = b * elems + e;
    vstd::arithmetic::div_mod::lemma_fundamental_div_mod_converse(i, elems, b, e);
    assert(0 <= b * elems) by (nonlinear_arith)
        requires
            0 <= b,
            0 < elems,
    ;
    lemma_unit_of_block(elems, sub, ms, b, s);
    lemma_unit_of_block(elems, unit, mu, b, k);
    lemma_units_fill_row(in_f as int, elems, sub, ms);
    lemma_units_fill_row(in_f as int, elems, unit, mu);
    let q = in_f as int / elems;
    assert(b < q) by (nonlinear_arith)
        requires
            b * elems + elems <= in_f,
            in_f == elems * q,
            0 < elems,
    ;
    assert(b * ms + ms <= q * ms && b * mu + mu <= q * mu) by (nonlinear_arith)
        requires
            b + 1 <= q,
            0 < ms,
            0 < mu,
    ;
    assert(dec.codes@[i] == f.code(crate::format::home_block(f, row@, i), i % elems));
    assert(dec.sc@[b * ms + s] == f.scale(
        crate::format::home_block(f, row@, sub * (b * ms + s)),
        ((sub * (b * ms + s)) % elems) / sub,
    ));
    assert(dec.mins@[b * ms + s] == f.min(
        crate::format::home_block(f, row@, sub * (b * ms + s)),
        ((sub * (b * ms + s)) % elems) / sub,
    ));
    assert(dec.d@[b * mu + k] == f.d(
        crate::format::home_block(f, row@, unit * (b * mu + k)),
        ((unit * (b * mu + k)) % elems) / unit,
    ));
    assert(dec.aux@[b * mu + k] == f.aux(
        crate::format::home_block(f, row@, unit * (b * mu + k)),
        ((unit * (b * mu + k)) % elems) / unit,
    ));
}

} // verus!
