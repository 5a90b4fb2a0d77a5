//! Decoding a weight row once and dotting it against activation rows.
use vstd::prelude::*;
use vstd::arithmetic::div_mod::{
    lemma_div_denominator, lemma_fundamental_div_mod, lemma_fundamental_div_mod_converse, lemma_mod_breakdown,
};
use crate::bits::block;
use crate::format::{home_block, is_dot, is_term, mins_at, row_fits, weights_at, Shape, Term, WeightFormat};
use crate::sums::{
    asum, lemma_asum_bound, lemma_wdot_bound, lemma_wdot_const, lemma_wdot_segment, lemma_wdot_shift,
    wdot,
};

verus! {

/// A decoded weight row: one code per element, one scale and one min per sub-block, and the two
/// numbers of each unit.
pub struct Decoded {
    pub codes: Vec<i8>,
    pub sc: Vec<i32>,
    pub mins: Vec<i32>,
    pub d: Vec<u16>,
    pub aux: Vec<u16>,
}

/// `dec` holds the first `in_f` elements of the row.
pub open spec fn decodes<F: WeightFormat>(f: &F, dec: &Decoded, row: Seq<u8>, in_f: int) -> bool {
    let elems = f.shape().elems as int;
    let sub = f.shape().sub as int;
    let unit = f.shape().unit as int;
    &&& dec.codes@.len() == in_f
    &&& dec.sc@.len() == in_f / sub
    &&& dec.mins@.len() == in_f / sub
    &&& dec.d@.len() == in_f / unit
    &&& dec.aux@.len() == in_f / unit
    &&& forall|i: int|
        0 <= i < in_f ==> #[trigger] dec.codes@[i] == f.code(home_block(f, row, i), i % elems) && -128 <= dec.codes@[i]
            - f.shape().offset
    &&& forall|t: int|
        0 <= t < in_f / sub ==> #[trigger] dec.sc@[t] == f.scale(home_block(f, row, sub * t), ((sub * t) % elems) / sub)
            && -128 <= dec.sc@[t] <= 128
    &&& forall|t: int|
        0 <= t < in_f / sub ==> #[trigger] dec.mins@[t] == f.min(home_block(f, row, sub * t), ((sub * t) % elems) / sub)
            && 0 <= dec.mins@[t] <= 128
    &&& forall|u: int|
        0 <= u < in_f / unit ==> #[trigger] dec.d@[u] == f.d(home_block(f, row, unit * u), ((unit * u) % elems) / unit)
    &&& forall|u: int|
        0 <= u < in_f / unit ==> #[trigger] dec.aux@[u] == f.aux(
            home_block(f, row, unit * u),
            ((unit * u) % elems) / unit,
        )
}

/// Element `j` of run `t` of `sub` elements lies in the block and in the run of that block that
/// `t` names.
pub proof fn lemma_run(elems: int, sub: int, t: int, j: int)
    requires
        0 < sub,
        0 < elems,
        elems % sub == 0,
        0 <= t,
        0 <= j < sub,
    ensures
        (sub * t + j) / elems == t / (elems / sub),
        ((sub * t + j) % elems) / sub == t % (elems / sub),
        0 < elems / sub,
        elems == sub * (elems / sub),
{
    let q = elems / sub;
    lemma_fundamental_div_mod(elems, sub);
    assert(0 < q) by (nonlinear_arith)
        requires
            elems == sub * q,
            0 < sub,
            0 < elems,
    ;
    let x = sub * t + j;
    assert(0 <= x) by (nonlinear_arith)
        requires
            x == sub * t + j,
            0 < sub,
            0 <= t,
            0 <= j,
    ;
    lemma_fundamental_div_mod_converse(x, sub, t, j);
    lemma_div_denominator(x, sub, q);
    lemma_mod_breakdown(x, sub, q);
    let m = (x / sub) % q;
    lemma_fundamental_div_mod_converse(x % elems, sub, m, x % sub);
}

/// Block `b` of a row that fits lies inside the row.
proof fn lemma_block_in_row(nblk: int, bytes: int, b: int, len: int)
    requires
        0 <= b < nblk,
        0 < bytes,
        nblk * bytes <= len,
    ensures
        0 <= b * bytes,
        b * bytes + bytes <= len,
{
    assert(b * bytes + bytes <= nblk * bytes) by (nonlinear_arith)
        requires
            b < nblk,
            0 < bytes,
    ;
    assert(0 <= b * bytes) by (nonlinear_arith)
        requires
            0 <= b,
            0 < bytes,
    ;
}

/// Run `t` of a whole number of blocks lies in one of them.
pub proof fn lemma_run_in_blocks(in_f: int, elems: int, sub: int, t: int)
    requires
        0 < sub,
        0 < elems,
        elems % sub == 0,
        0 <= in_f,
        in_f % elems == 0,
        0 <= t < in_f / sub,
    ensures
        t / (elems / sub) < in_f / elems,
        sub * t + sub <= in_f,
        in_f % sub == 0,
{
    let q = elems / sub;
    let nblk = in_f / elems;
    lemma_run(elems, sub, t, 0);
    lemma_fundamental_div_mod(in_f, elems);
    assert(in_f == sub * (q * nblk)) by (nonlinear_arith)
        requires
            in_f == elems * nblk,
            elems == sub * q,
    ;
    assert(0 <= q * nblk) by (nonlinear_arith)
        requires
            0 < q,
            0 <= nblk,
    ;
    lemma_fundamental_div_mod_converse(in_f, sub, q * nblk, 0);
    assert(t < q * nblk);
    lemma_fundamental_div_mod(t, q);
    assert(t / q < nblk) by (nonlinear_arith)
        requires
            t < q * nblk,
            t == q * (t / q) + t % q,
            0 <= t % q,
            0 < q,
    ;
    assert(sub * t + sub <= in_f) by (nonlinear_arith)
        requires
            t + 1 <= q * nblk,
            in_f == sub * (q * nblk),
            0 < sub,
    ;
}

/// The sizes of a shape divide each other.
pub proof fn lemma_shape_divides(sh: Shape)
    requires
        sh.wf(),
    ensures
        sh.elems as int % sh.sub as int == 0,
        sh.elems as int % sh.unit as int == 0,
        sh.unit as int % sh.sub as int == 0,
{
    assert(32int % 8 == 0 && 32int % 16 == 0 && 32int % 32 == 0 && 64int % 8 == 0 && 64int % 16 == 0 && 64int % 32 == 0
        && 256int % 8 == 0 && 256int % 16 == 0 && 256int % 32 == 0 && 256int % 256 == 0 && 8int % 8 == 0 && 16int % 8
        == 0 && 16int % 16 == 0);
}

/// One code per element of the row.
fn decode_codes<F: WeightFormat>(f: &F, row: &[u8], in_f: usize) -> (codes: Vec<i8>)
    requires
        f.valid(),
        row_fits(f, row@, in_f as int),
    ensures
        codes@.len() == in_f,
        forall|i: int|
            0 <= i < in_f ==> #[trigger] codes@[i] == f.code(home_block(f, row@, i), i % f.shape().elems as int)
                && -128 <= codes@[i] - f.shape().offset,
{
    let sh: Shape = f.shape_of();
    let elems: usize = sh.elems;
    proof {
        f.lemma_shape();
    }
    let mut codes: Vec<i8> = Vec::new();
    let mut i: usize = 0;
    while i < in_f
        invariant
            f.valid(),
            sh == f.shape(),
            sh.wf(),
            elems == sh.elems,
            row_fits(f, row@, in_f as int),
            i <= in_f,
            codes@.len() == i,
            forall|k: int|
                0 <= k < i ==> #[trigger] codes@[k] == f.code(home_block(f, row@, k), k % f.shape().elems as int)
                    && -128 <= codes@[k] - f.shape().offset,
        decreases in_f - i,
    {
        let b: usize = i / elems;
        let e: usize = i % elems;
        proof {
            lemma_shape_divides(sh);
            lemma_run(elems as int, 1, i as int, 0);
            lemma_run_in_blocks(in_f as int, elems as int, 1, i as int);
            lemma_block_in_row(in_f as int / elems as int, sh.bytes as int, b as int, row@.len() as int);
        }
        let blk: &[u8] = block(row, sh.bytes, b);
        let c: i8 = f.code_at(blk, e);
        codes.push(c);
        i = i + 1;
    }
    codes
}

/// One scale and one min per sub-block of the row.
fn decode_subs<F: WeightFormat>(f: &F, row: &[u8], in_f: usize) -> (r: (Vec<i32>, Vec<i32>))
    requires
        f.valid(),
        row_fits(f, row@, in_f as int),
    ensures
        ({
            let elems = f.shape().elems as int;
            let sub = f.shape().sub as int;
            &&& r.0@.len() == in_f as int / sub
            &&& r.1@.len() == in_f as int / sub
            &&& forall|t: int|
                0 <= t < in_f as int / sub ==> #[trigger] r.0@[t] == f.scale(
                    home_block(f, row@, sub * t),
                    ((sub * t) % elems) / sub,
                ) && -128 <= r.0@[t] <= 128
            &&& forall|t: int|
                0 <= t < in_f as int / sub ==> #[trigger] r.1@[t] == f.min(
                    home_block(f, row@, sub * t),
                    ((sub * t) % elems) / sub,
                ) && 0 <= r.1@[t] <= 128
        }),
{
    let sh: Shape = f.shape_of();
    proof {
        f.lemma_shape();
    }
    let per: usize = sh.elems / sh.sub;
    let n: usize = in_f / sh.sub;
    let ghost elems = sh.elems as int;
    let ghost sub = sh.sub as int;
    let mut sc: Vec<i32> = Vec::new();
    let mut mins: Vec<i32> = Vec::new();
    let mut t: usize = 0;
    while t < n
        invariant
            f.valid(),
            sh == f.shape(),
            sh.wf(),
            elems == sh.elems,
            sub == sh.sub,
            per == elems / sub,
            n == in_f as int / sub,
            row_fits(f, row@, in_f as int),
            t <= n,
            sc@.len() == t,
            mins@.len() == t,
            forall|k: int|
                0 <= k < t ==> #[trigger] sc@[k] == f.scale(home_block(f, row@, sub * k), ((sub * k) % elems) / sub)
                    && -128 <= sc@[k] <= 128,
            forall|k: int|
                0 <= k < t ==> #[trigger] mins@[k] == f.min(home_block(f, row@, sub * k), ((sub * k) % elems) / sub)
                    && 0 <= mins@[k] <= 128,
        decreases n - t,
    {
        proof {
            lemma_shape_divides(sh);
            lemma_run(elems, sub, t as int, 0);
            lemma_run_in_blocks(in_f as int, elems, sub, t as int);
            lemma_block_in_row(in_f as int / elems, sh.bytes as int, t as int / per as int, row@.len() as int);
        }
        let b: usize = t / per;
        let s: usize = t % per;
        let blk: &[u8] = block(row, sh.bytes, b);
        sc.push(f.scale_at(blk, s));
        mins.push(f.min_at(blk, s));
        t = t + 1;
    }
    (sc, mins)
}

/// The two numbers of each unit of the row.
fn decode_units<F: WeightFormat>(f: &F, row: &[u8], in_f: usize) -> (r: (Vec<u16>, Vec<u16>))
    requires
        f.valid(),
        row_fits(f, row@, in_f as int),
    ensures
        ({
            let elems = f.shape().elems as int;
            let unit = f.shape().unit as int;
            &&& r.0@.len() == in_f as int / unit
            &&& r.1@.len() == in_f as int / unit
            &&& forall|u: int|
                0 <= u < in_f as int / unit ==> #[trigger] r.0@[u] == f.d(
                    home_block(f, row@, unit * u),
                    ((unit * u) % elems) / unit,
                )
            &&& forall|u: int|
                0 <= u < in_f as int / unit ==> #[trigger] r.1@[u] == f.aux(
                    home_block(f, row@, unit * u),
                    ((unit * u) % elems) / unit,
                )
        }),
{
    let sh: Shape = f.shape_of();
    proof {
        f.lemma_shape();
    }
    let per: usize = sh.elems / sh.unit;
    let n: usize = in_f / sh.unit;
    let ghost elems = sh.elems as int;
    let ghost unit = sh.unit as int;
    let mut d: Vec<u16> = Vec::new();
    let mut aux: Vec<u16> = Vec::new();
    let mut u: usize = 0;
    while u < n
        invariant
            f.valid(),
            sh == f.shape(),
            sh.wf(),
            elems == sh.elems,
            unit == sh.unit,
            per == elems / unit,
            n == in_f as int / unit,
            row_fits(f, row@, in_f as int),
            u <= n,
            d@.len() == u,
            aux@.len() == u,
            forall|k: int|
                0 <= k < u ==> #[trigger] d@[k] == f.d(home_block(f, row@, unit * k), ((unit * k) % elems) / unit),
            forall|k: int|
                0 <= k < u ==> #[trigger] aux@[k] == f.aux(home_block(f, row@, unit * k), ((unit * k) % elems) / unit),
        decreases n - u,
    {
        proof {
            lemma_shape_divides(sh);
            lemma_run(elems, unit, u as int, 0);
            lemma_run_in_blocks(in_f as int, elems, unit, u as int);
            lemma_block_in_row(in_f as int / elems, sh.bytes as int, u as int / per as int, row@.len() as int);
        }
        let b: usize = u / per;
        let k: usize = u % per;
        let blk: &[u8] = block(row, sh.bytes, b);
        d.push(f.d_at(blk, k));
        aux.push(f.aux_at(blk, k));
        u = u + 1;
    }
    (d, aux)
}

/// Decodes the first `in_f` elements of a weight row.
pub fn decode_row<F: WeightFormat>(f: &F, row: &[u8], in_f: usize) -> (dec: Decoded)
    requires
        f.valid(),
        row_fits(f, row@, in_f as int),
    ensures
        decodes(f, &dec, row@, in_f as int),
{
    let codes: Vec<i8> = decode_codes(f, row, in_f);
    let (sc, mins) = decode_subs(f, row, in_f);
    let (d, aux) = decode_units(f, row, in_f);
    Decoded { codes, sc, mins, d, aux }
}

/// `sums[t]` is the sum of run `t` of `sub` activation codes, for every run of the first `in_f`.
pub open spec fn are_run_sums(sums: Seq<i32>, a: Seq<i8>, sub: int, in_f: int) -> bool {
    &&& in_f / sub <= sums.len()
    &&& forall|t: int| 0 <= t < in_f / sub ==> #[trigger] sums[t] == asum(a, sub * t, sub as nat)
}

/// The dot product of `n` signed weights with `n` activation codes.
pub fn weight_dot(w: &[i8], wo: usize, a: &[i8], ao: usize, n: usize) -> (r: i32)
    requires
        n <= 256,
        wo + n <= w@.len(),
        ao + n <= a@.len(),
    ensures
        r == wdot(weights_from(w@, wo as int), a@, ao as int, n as nat),
        -16384 * n <= r <= 16384 * n,
{
    let wlen: usize = w.len();
    let alen: usize = a.len();
    let mut acc: i32 = 0;
    let mut l: usize = 0;
    while l < n
        invariant
            l <= n <= 256,
            wlen == w@.len(),
            alen == a@.len(),
            wo + n <= w@.len(),
            ao + n <= a@.len(),
            acc == wdot(weights_from(w@, wo as int), a@, ao as int, l as nat),
            -16384 * l <= acc <= 16384 * l,
        decreases n - l,
    {
        let c: i32 = w[wo + l] as i32;
        let x: i32 = a[ao + l] as i32;
        assert(-16384 <= c * x <= 16384) by (nonlinear_arith)
            requires
                -128 <= c <= 127,
                -128 <= x <= 127,
        ;
        acc = acc + c * x;
        l = l + 1;
    }
    acc
}

/// The signed weights that start at `wo`, as integer weights.
pub open spec fn weights_from(w: Seq<i8>, wo: int) -> spec_fn(int) -> int {
    |j: int| w[wo + j] as int
}

/// The weights of the first `k` elements of a unit, plus those of its next sub-block.
pub proof fn lemma_sub_block<F: WeightFormat>(
    f: &F,
    dec: &Decoded,
    row: Seq<u8>,
    a: Seq<i8>,
    in_f: int,
    base: int,
    k: int,
    t: int,
)
    requires
        f.shape().wf(),
        decodes(f, dec, row, in_f),
        in_f % f.shape().elems as int == 0,
        0 <= in_f,
        0 <= k,
        0 <= base,
        0 <= t < in_f / f.shape().sub as int,
        f.shape().sub * t == base + k,
    ensures
        ({
            let sub = f.shape().sub as int;
            let w = weights_at(f, row, base);
            let v = mins_at(f, row, base);
            let part = wdot(weights_from(dec.codes@, sub * t), a, sub * t, sub as nat) - f.shape().offset * asum(
                a,
                sub * t,
                sub as nat,
            );
            &&& wdot(w, a, base, (k + sub) as nat) == wdot(w, a, base, k as nat) + dec.sc@[t] * part
            &&& wdot(v, a, base, (k + sub) as nat) == wdot(v, a, base, k as nat) + dec.mins@[t] * asum(
                a,
                sub * t,
                sub as nat,
            )
            &&& -16384 * sub <= part <= 16384 * sub
        }),
{
    let sh = f.shape();
    let elems = sh.elems as int;
    let sub = sh.sub as int;
    let off = sh.offset as int;
    let w = weights_at(f, row, base);
    let v = mins_at(f, row, base);
    let g0 = weights_from(dec.codes@, sub * t);
    let g = |j: int| dec.codes@[sub * t + j] - off;
    let one = |j: int| 1int;
    let scale = dec.sc@[t] as int;
    let min = dec.mins@[t] as int;
    lemma_shape_divides(sh);
    lemma_run_in_blocks(in_f, elems, sub, t);
    lemma_run(elems, sub, t, 0);
    lemma_wdot_shift(g, g0, off, a, sub * t, sub as nat);
    assert forall|j: int| 0 <= j < sub implies #[trigger] g(j) * scale == w(k + j) && -128 <= g(j) <= 128 by {
        lemma_run(elems, sub, t, j);
        let i = sub * t + j;
        assert(dec.codes@[i] == f.code(home_block(f, row, i), i % elems));
        assert(home_block(f, row, i) == home_block(f, row, sub * t));
        assert(base + (k + j) == i);
    }
    assert forall|j: int| 0 <= j < sub implies #[trigger] one(j) * min == v(k + j) by {
        lemma_run(elems, sub, t, j);
        assert(base + (k + j) == sub * t + j);
    }
    lemma_wdot_segment(w, g, scale, a, base, k as nat, sub as nat);
    lemma_wdot_segment(v, one, min, a, base, k as nat, sub as nat);
    lemma_wdot_const(one, 1, a, base + k, sub as nat);
    lemma_wdot_bound(g, 128, a, sub * t, sub as nat);
}

/// The term of unit `u`.
fn unit_term<F: WeightFormat>(
    f: &F,
    dec: &Decoded,
    Ghost(row): Ghost<Seq<u8>>,
    a: &[i8],
    sums: &[i32],
    in_f: usize,
    u: usize,
) -> (r: Term)
    requires
        decodes(f, dec, row, in_f as int),
        in_f as int % f.shape().elems as int == 0,
        in_f <= a@.len(),
        are_run_sums(sums@, a@, f.shape().sub as int, in_f as int),
        u < in_f as int / f.shape().unit as int,
    ensures
        is_term(f, r, row, a@, u as int),
{
    let sh: Shape = f.shape_of();
    let sub: usize = sh.sub;
    let off: i32 = sh.offset;
    proof {
        f.lemma_shape();
        lemma_shape_divides(sh);
        lemma_run_in_blocks(in_f as int, sh.elems as int, sh.unit as int, u as int);
        assert(sh.unit * u == u * sh.unit) by (nonlinear_arith);
        assert(0 <= u * sh.unit) by (nonlinear_arith);
        lemma_fundamental_div_mod(sh.unit as int, sub as int);
    }
    let per: usize = sh.unit / sub;
    let base: usize = u * sh.unit;
    let ghost w = weights_at(f, row, base as int);
    let ghost v = mins_at(f, row, base as int);
    let mut sd: i32 = 0;
    let mut sm: i32 = 0;
    let mut s: usize = 0;
    proof {
        assert(sub * 0 == 0) by (nonlinear_arith);
    }
    while s < per
        invariant
            sh == f.shape(),
            sh.wf(),
            sub == sh.sub,
            off == sh.offset,
            per == sh.unit as int / sub as int,
            sh.unit == sub * per,
            base == u * sh.unit,
            base + sh.unit <= in_f,
            decodes(f, dec, row, in_f as int),
            in_f as int % f.shape().elems as int == 0,
            in_f <= a@.len(),
            are_run_sums(sums@, a@, f.shape().sub as int, in_f as int),
            w == weights_at(f, row, base as int),
            v == mins_at(f, row, base as int),
            s <= per,
            sd == wdot(w, a@, base as int, (sub * s) as nat),
            sm == wdot(v, a@, base as int, (sub * s) as nat),
            0 <= sub * s <= sh.unit,
            -2097152 * (sub * s) <= sd <= 2097152 * (sub * s),
            -16384 * (sub * s) <= sm <= 16384 * (sub * s),
        decreases per - s,
    {
        let ghost k = sub * s;
        proof {
            assert(sub * (s + 1) == sub * s + sub) by (nonlinear_arith);
            assert(sub * (s + 1) <= sub * per) by (nonlinear_arith)
                requires
                    s + 1 <= per,
                    0 < sub,
            ;
            assert(sub * (u * per + s) == base + sub * s) by (nonlinear_arith)
                requires
                    base == u * sh.unit,
                    sh.unit == sub * per,
            ;
            assert(0 <= u * per) by (nonlinear_arith);
            assert(u * per <= u * sh.unit) by (nonlinear_arith)
                requires
                    per <= sh.unit,
            ;
            let t = u * per + s;
            lemma_fundamental_div_mod(in_f as int, sub as int);
            assert(t < in_f as int / sub as int) by (nonlinear_arith)
                requires
                    sub * t + sub <= in_f,
                    in_f == sub * (in_f as int / sub as int) + in_f as int % sub as int,
                    0 <= in_f as int % sub as int,
                    in_f as int % (sub as int) < sub,
                    0 < sub,
            ;
            lemma_sub_block(f, dec, row, a@, in_f as int, base as int, k, t);
            lemma_asum_bound(a@, sub * t, sub as nat);
        }
        let t: usize = u * per + s;
        let at: usize = base + sub * s;
        let iprod: i32 = weight_dot(&dec.codes, at, a, at, sub);
        let bsum: i32 = sums[t];
        let scale: i32 = dec.sc[t];
        let min: i32 = dec.mins[t];
        proof {
            assert(-4096 <= bsum <= 4096);
            assert(-131072 <= off * bsum <= 131072) by (nonlinear_arith)
                requires
                    0 <= off <= 32,
                    -4096 <= bsum <= 4096,
            ;
        }
        let part: i32 = iprod - off * bsum;
        proof {
            assert(-2097152 * sub <= scale * part <= 2097152 * sub) by (nonlinear_arith)
                requires
                    -128 <= scale <= 128,
                    -16384 * sub <= part <= 16384 * sub,
            ;
            assert(-16384 * sub <= min * bsum <= 16384 * sub) by (nonlinear_arith)
                requires
                    0 <= min <= 128,
                    -128 * sub <= bsum <= 128 * sub,
            ;
        }
        sd = sd + scale * part;
        sm = sm + min * bsum;
        s = s + 1;
    }
    Term { d: dec.d[u], aux: dec.aux[u], sd, sm }
}

/// The terms of a decoded row against one activation row.
pub fn dot_decoded<F: WeightFormat>(
    f: &F,
    dec: &Decoded,
    Ghost(row): Ghost<Seq<u8>>,
    a: &[i8],
    sums: &[i32],
    in_f: usize,
) -> (terms: Vec<Term>)
    requires
        decodes(f, dec, row, in_f as int),
        in_f as int % f.shape().elems as int == 0,
        in_f <= a@.len(),
        are_run_sums(sums@, a@, f.shape().sub as int, in_f as int),
    ensures
        is_dot(f, terms@, row, a@, in_f as int),
{
    let sh: Shape = f.shape_of();
    proof {
        f.lemma_shape();
    }
    let n: usize = in_f / sh.unit;
    let mut terms: Vec<Term> = Vec::new();
    let mut u: usize = 0;
    while u < n
        invariant
            sh == f.shape(),
            decodes(f, dec, row, in_f as int),
            in_f as int % f.shape().elems as int == 0,
            in_f <= a@.len(),
            are_run_sums(sums@, a@, f.shape().sub as int, in_f as int),
            n == in_f as int / sh.unit as int,
            u <= n,
            terms@.len() == u,
            forall|k: int| 0 <= k < u ==> is_term(f, #[trigger] terms@[k], row, a@, k),
        decreases n - u,
    {
        let t: Term = unit_term(f, dec, Ghost(row), a, sums, in_f, u);
        terms.push(t);
        u = u + 1;
    }
    terms
}

/// A dot product of weights follows each code: zeros give zero, and a code that changes by some
/// amount changes it by that amount times its weight.
pub proof fn law_weight_dot(w: &[i8], wo: usize, a: &[i8], b: &[i8], ao: usize, n: usize, x: i32, y: i32, i: int)
    requires
        call_ensures(weight_dot, (w, wo, a, ao, n), x),
        call_ensures(weight_dot, (w, wo, b, ao, n), y),
        0 <= i < n,
        forall|j: int| 0 <= j < n && j != i ==> #[trigger] a@[ao + j] == b@[ao + j],
    ensures
        y - x == w@[wo + i] * (b@[ao + i] - a@[ao + i]),
        (forall|j: int| 0 <= j < n ==> #[trigger] a@[ao + j] == 0) ==> x == 0,
{
    crate::sums::law_dot_follows_each_code(weights_from(w@, wo as int), a@, b@, ao as int, n as nat, i);
    if forall|j: int| 0 <= j < n ==> #[trigger] a@[ao + j] == 0 {
        crate::sums::law_zeros_sum_to_zero(weights_from(w@, wo as int), a@, ao as int, n as nat);
    }
}

} // verus!
