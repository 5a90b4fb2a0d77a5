//! Eight weight rows at a time: the rows are interleaved so that one pass over the activation
//! codes feeds all eight.
use vstd::prelude::*;
use crate::format::{is_dot, is_term, mins_at, weights_at, Shape, Term, WeightFormat};
use crate::rowdot::{
    are_run_sums, decodes, lemma_run_in_blocks, lemma_shape_divides, lemma_sub_block, weights_from, Decoded,
};
use crate::sums::{
    asum, lemma_asum_bound, lemma_wdot_segment, lemma_wdot_shift, wdot,
};

verus! {

/// The row that lane `p` of a merged tile belongs to.
pub open spec fn perm(p: int) -> int {
    if p == 2 {
        4
    } else if p == 3 {
        5
    } else if p == 4 {
        2
    } else if p == 5 {
        3
    } else {
        p
    }
}

/// The row that lane `p` of a merged tile belongs to.
fn perm_of(p: usize) -> (r: usize)
    requires
        p < 8,
    ensures
        r == perm(p as int),
        r < 8,
{
    let table: [usize; 8] = [0, 1, 4, 5, 2, 3, 6, 7];
    table[p]
}

/// The element of its row that byte `n` of an interleaved tile holds.
pub open spec fn tile_elem(n: int) -> int {
    32 * (n / 256) + 8 * ((n % 256) / 64) + n % 8
}

/// Eight rows of unsigned codes, interleaved in groups of eight bytes: byte `t` of group `g` of
/// row `i` of run `k` (32 elements) stands at `256*k + 64*g + 8*i + t`.
pub open spec fn is_interleaved(ilv: Seq<u8>, decs: Seq<Decoded>, bias: int, in_f: int) -> bool {
    &&& ilv.len() == 8 * in_f
    &&& forall|n: int|
        0 <= n < 8 * in_f ==> #[trigger] ilv[n] == decs[(n % 64) / 8].codes@[tile_elem(n)] + bias
}

/// The codes of row `i` in run `k` of an interleaved tile.
pub open spec fn tile_row(ilv: Seq<u8>, k: int, i: int) -> spec_fn(int) -> int {
    |j: int| ilv[256 * k + 64 * (j / 8) + 8 * i + j % 8] as int
}

/// A byte of a tile of whole runs holds an element of its row.
proof fn lemma_tile_elem(n: int, in_f: int)
    requires
        0 <= n < 8 * in_f,
        in_f % 32 == 0,
    ensures
        0 <= tile_elem(n) < in_f,
        0 <= (n % 64) / 8 < 8,
{
    let q = in_f / 32;
    let k = n / 256;
    assert(in_f == 32 * q);
    assert(n == 256 * k + n % 256);
    assert(0 <= k < q);
    let g = (n % 256) / 64;
    assert(0 <= g < 4);
    assert(0 <= n % 8 < 8);
    assert(0 <= n % 64 < 64);
}

/// Interleaves eight decoded rows, with `bias` added to every code to make it unsigned.
pub fn interleave8(decs: &Vec<Decoded>, bias: i32, in_f: usize) -> (ilv: Vec<u8>)
    requires
        decs@.len() == 8,
        in_f % 32 == 0,
        8 * in_f <= usize::MAX,
        bias == 0 || bias == 128,
        forall|i: int| 0 <= i < 8 ==> (#[trigger] decs@[i]).codes@.len() == in_f,
        bias == 0 ==> forall|i: int, e: int|
            0 <= i < 8 && 0 <= e < in_f ==> 0 <= #[trigger] decs@[i].codes@[e],
    ensures
        is_interleaved(ilv@, decs@, bias as int, in_f as int),
{
    let mut ilv: Vec<u8> = Vec::new();
    let mut n: usize = 0;
    while n < 8 * in_f
        invariant
            n <= 8 * in_f <= usize::MAX,
            decs@.len() == 8,
            in_f % 32 == 0,
            bias == 0 || bias == 128,
            forall|i: int| 0 <= i < 8 ==> (#[trigger] decs@[i]).codes@.len() == in_f,
            bias == 0 ==> forall|i: int, e: int|
                0 <= i < 8 && 0 <= e < in_f ==> 0 <= #[trigger] decs@[i].codes@[e],
            ilv@.len() == n,
            forall|m: int|
                0 <= m < n ==> #[trigger] ilv@[m] == decs@[(m % 64) / 8].codes@[tile_elem(m)] + bias,
        decreases 8 * in_f - n,
    {
        let i: usize = (n % 64) / 8;
        proof {
            lemma_tile_elem(n as int, in_f as int);
        }
        let e: usize = 32 * (n / 256) + 8 * ((n % 256) / 64) + n % 8;
        let c: i8 = decs[i].codes[e];
        assert(bias == 0 ==> 0 <= decs@[i as int].codes@[e as int]);
        let byte: u8 = (c as i32 + bias) as u8;
        assert(byte == c + bias);
        ilv.push(byte);
        n = n + 1;
    }
    ilv
}

/// The codes that start at `co`, as integer weights.
pub open spec fn codes_from(codes: Seq<u8>, co: int) -> spec_fn(int) -> int {
    |j: int| codes[co + j] as int
}

/// The dot product of four unsigned codes with four activation codes: one 32-bit lane of a
/// byte-wise multiply-accumulate.
fn lane_dot(codes: &[u8], co: usize, a: &[i8], ao: usize) -> (r: i32)
    requires
        co + 4 <= codes@.len(),
        ao + 4 <= a@.len(),
    ensures
        r == wdot(codes_from(codes@, co as int), a@, ao as int, 4),
        -130560 <= r <= 130560,
{
    let clen: usize = codes.len();
    let alen: usize = a.len();
    let mut acc: i32 = 0;
    let mut l: usize = 0;
    while l < 4
        invariant
            l <= 4,
            clen == codes@.len(),
            alen == a@.len(),
            co + 4 <= codes@.len(),
            ao + 4 <= a@.len(),
            acc == wdot(codes_from(codes@, co as int), a@, ao as int, l as nat),
            -32640 * l <= acc <= 32640 * l,
        decreases 4 - l,
    {
        let c: i32 = codes[co + l] as i32;
        let x: i32 = a[ao + l] as i32;
        assert(-32640 <= c * x <= 32640) by (nonlinear_arith)
            requires
                0 <= c <= 255,
                -128 <= x <= 127,
        ;
        acc = acc + c * x;
        l = l + 1;
    }
    acc
}

/// Four more codes of a row of the tile add the dot product of those four.
proof fn lemma_tile_lane(ilv: Seq<u8>, k: int, i: int, a: Seq<i8>, g: int, h: int)
    requires
        0 <= k,
        0 <= i < 8,
        0 <= g < 4,
        h == 0 || h == 4,
    ensures
        wdot(tile_row(ilv, k, i), a, 32 * k, (8 * g + h + 4) as nat) == wdot(
            tile_row(ilv, k, i),
            a,
            32 * k,
            (8 * g + h) as nat,
        ) + wdot(codes_from(ilv, 256 * k + 64 * g + 8 * i + h), a, 32 * k + 8 * g + h, 4),
{
    let w = tile_row(ilv, k, i);
    let v = codes_from(ilv, 256 * k + 64 * g + 8 * i + h);
    let at = 8 * g + h;
    assert forall|j: int| 0 <= j < 4 implies #[trigger] v(j) * 1 == w(at + j) by {
        assert((at + j) / 8 == g);
        assert((at + j) % 8 == h + j);
    }
    lemma_wdot_segment(w, v, 1, a, 32 * k, at as nat, 4);
}

/// The sixteen lane sums of run `k`: lanes `2*i` and `2*i + 1` together hold the dot product of
/// row `i` with the run's 32 activation codes.
fn tile_run(ilv: &[u8], k: usize, a: &[i8]) -> (acc: [i32; 16])
    requires
        256 * k + 256 <= ilv@.len(),
        32 * k + 32 <= a@.len(),
    ensures
        forall|i: int|
            0 <= i < 8 ==> #[trigger] acc@[2 * i] + acc@[2 * i + 1] == wdot(tile_row(ilv@, k as int, i), a@, 32 * k, 32),
        forall|l: int| 0 <= l < 16 ==> -522240 <= #[trigger] acc@[l] <= 522240,
{
    let ilen: usize = ilv.len();
    let alen: usize = a.len();
    let mut acc: [i32; 16] = [0i32; 16];
    let mut g: usize = 0;
    while g < 4
        invariant
            g <= 4,
            ilen == ilv@.len(),
            alen == a@.len(),
            256 * k + 256 <= ilen,
            32 * k + 32 <= alen,
            forall|i: int|
                0 <= i < 8 ==> #[trigger] acc@[2 * i] + acc@[2 * i + 1] == wdot(
                    tile_row(ilv@, k as int, i),
                    a@,
                    32 * k,
                    (8 * g) as nat,
                ),
            forall|l: int| 0 <= l < 16 ==> -130560 * g <= #[trigger] acc@[l] <= 130560 * g,
        decreases 4 - g,
    {
        let mut i: usize = 0;
        while i < 8
            invariant
                i <= 8,
                g < 4,
                ilen == ilv@.len(),
                alen == a@.len(),
                256 * k + 256 <= ilen,
                32 * k + 32 <= alen,
                forall|q: int|
                    0 <= q < 8 ==> #[trigger] acc@[2 * q] + acc@[2 * q + 1] == wdot(
                        tile_row(ilv@, k as int, q),
                        a@,
                        32 * k,
                        if q < i {
                            (8 * g + 8) as nat
                        } else {
                            (8 * g) as nat
                        },
                    ),
                forall|l: int| 0 <= l < 2 * i ==> -130560 * (g + 1) <= #[trigger] acc@[l] <= 130560 * (g + 1),
                forall|l: int| 2 * i <= l < 16 ==> -130560 * g <= #[trigger] acc@[l] <= 130560 * g,
            decreases 8 - i,
        {
            let at: usize = 256 * k + 64 * g + 8 * i;
            let ao: usize = 32 * k + 8 * g;
            let x: i32 = lane_dot(ilv, at, a, ao);
            let y: i32 = lane_dot(ilv, at + 4, a, ao + 4);
            proof {
                lemma_tile_lane(ilv@, k as int, i as int, a@, g as int, 0);
                lemma_tile_lane(ilv@, k as int, i as int, a@, g as int, 4);
                assert(acc@[2 * (i as int)] + acc@[2 * (i as int) + 1] == wdot(
                    tile_row(ilv@, k as int, i as int),
                    a@,
                    32 * k,
                    (8 * g) as nat,
                ));
            }
            acc[2 * i] = acc[2 * i] + x;
            acc[2 * i + 1] = acc[2 * i + 1] + y;
            i = i + 1;
        }
        g = g + 1;
    }
    acc
}

/// Adds the two lanes of each row. The order of the sums is that of a pairwise add inside the two
/// halves of a vector pair: lane `p` holds row `perm(p)`.
fn pair_merge(lanes: &[i32; 16]) -> (r: [i32; 8])
    requires
        forall|l: int| 0 <= l < 16 ==> -1000000000 <= #[trigger] lanes@[l] <= 1000000000,
    ensures
        forall|p: int| 0 <= p < 8 ==> #[trigger] r@[p] == lanes@[2 * perm(p)] + lanes@[2 * perm(p) + 1],
{
    [
        lanes[0] + lanes[1],
        lanes[2] + lanes[3],
        lanes[8] + lanes[9],
        lanes[10] + lanes[11],
        lanes[4] + lanes[5],
        lanes[6] + lanes[7],
        lanes[12] + lanes[13],
        lanes[14] + lanes[15],
    ]
}

/// A row of an interleaved tile is the row of codes with the bias added.
proof fn lemma_tile_row(ilv: Seq<u8>, decs: Seq<Decoded>, bias: int, in_f: int, k: int, i: int, a: Seq<i8>)
    requires
        is_interleaved(ilv, decs, bias, in_f),
        0 <= k,
        32 * k + 32 <= in_f,
        0 <= i < 8,
    ensures
        wdot(tile_row(ilv, k, i), a, 32 * k, 32) == wdot(weights_from(decs[i].codes@, 32 * k), a, 32 * k, 32) + bias
            * asum(a, 32 * k, 32),
{
    let g = tile_row(ilv, k, i);
    let h = weights_from(decs[i].codes@, 32 * k);
    assert forall|j: int| 0 <= j < 32 implies #[trigger] h(j) == g(j) - bias by {
        let q = j / 8;
        let t = j % 8;
        let n = 256 * k + 64 * q + 8 * i + t;
        assert(0 <= q < 4 && 0 <= t < 8 && j == 8 * q + t);
        assert(n / 256 == k);
        assert(n % 256 == 64 * q + 8 * i + t);
        assert((n % 256) / 64 == q);
        assert(n % 64 == 8 * i + t);
        assert(n % 8 == t);
        assert((n % 64) / 8 == i);
        assert(tile_elem(n) == 32 * k + j);
        assert(ilv[n] == decs[(n % 64) / 8].codes@[tile_elem(n)] + bias);
    }
    lemma_wdot_shift(h, g, bias, a, 32 * k, 32);
}

/// The terms of unit `u` for eight rows at once, in merged lane order. The lanes are scaled before
/// they are merged, and the bias and the offset of the codes are taken off through the sums of
/// the activation codes.
fn tile_unit<F: WeightFormat>(
    f: &F,
    decs: &Vec<Decoded>,
    Ghost(rows): Ghost<Seq<Seq<u8>>>,
    ilv: &[u8],
    bias: i32,
    a: &[i8],
    sums: &[i32],
    in_f: usize,
    u: usize,
) -> (r: [Term; 8])
    requires
        f.shape().sub == 32,
        decs@.len() == 8,
        bias == 0 || bias == 128,
        forall|i: int| 0 <= i < 8 ==> decodes(f, &(#[trigger] decs@[i]), rows[i], in_f as int),
        is_interleaved(ilv@, decs@, bias as int, in_f as int),
        in_f as int % f.shape().elems as int == 0,
        in_f <= a@.len(),
        are_run_sums(sums@, a@, 32, in_f as int),
        u < in_f as int / f.shape().unit as int,
    ensures
        forall|p: int| 0 <= p < 8 ==> is_term(f, #[trigger] r@[p], rows[perm(p)], a@, u as int),
{
    let sh: Shape = f.shape_of();
    let off: i32 = sh.offset;
    proof {
        f.lemma_shape();
        lemma_shape_divides(sh);
        lemma_run_in_blocks(in_f as int, sh.elems as int, sh.unit as int, u as int);
        assert(sh.unit * u == u * sh.unit) by (nonlinear_arith);
        assert(0 <= u * sh.unit) by (nonlinear_arith);
    }
    let per: usize = sh.unit / 32;
    let base: usize = u * sh.unit;
    let mut lanes: [i32; 16] = [0i32; 16];
    let mut corr: [i32; 8] = [0i32; 8];
    let mut sm: [i32; 8] = [0i32; 8];
    let mut s: usize = 0;
    while s < per
        invariant
            sh == f.shape(),
            sh.wf(),
            sh.sub == 32,
            off == sh.offset,
            per == sh.unit as int / 32,
            sh.unit == 32 * per,
            base == u * sh.unit,
            base + sh.unit <= in_f,
            decs@.len() == 8,
            bias == 0 || bias == 128,
            forall|i: int| 0 <= i < 8 ==> decodes(f, &(#[trigger] decs@[i]), rows[i], in_f as int),
            is_interleaved(ilv@, decs@, bias as int, in_f as int),
            in_f as int % f.shape().elems as int == 0,
            in_f <= a@.len(),
            are_run_sums(sums@, a@, 32, in_f as int),
            s <= per <= 8,
            forall|i: int|
                0 <= i < 8 ==> #[trigger] lanes@[2 * i] + lanes@[2 * i + 1] - corr@[i] == wdot(
                    weights_at(f, rows[i], base as int),
                    a@,
                    base as int,
                    (32 * s) as nat,
                ),
            forall|p: int|
                0 <= p < 8 ==> #[trigger] sm@[p] == wdot(
                    mins_at(f, rows[perm(p)], base as int),
                    a@,
                    base as int,
                    (32 * s) as nat,
                ),
            forall|l: int| 0 <= l < 16 ==> -66846720 * s <= #[trigger] lanes@[l] <= 66846720 * s,
            forall|i: int| 0 <= i < 8 ==> -83886080 * s <= #[trigger] corr@[i] <= 83886080 * s,
            forall|p: int| 0 <= p < 8 ==> -524288 * s <= #[trigger] sm@[p] <= 524288 * s,
        decreases per - s,
    {
        proof {
            assert(u * per * 32 == base) by (nonlinear_arith)
                requires
                    base == u * sh.unit,
                    sh.unit == 32 * per,
            ;
            assert(0 <= u * per) by (nonlinear_arith);
        }
        let t: usize = u * per + s;
        assert(32 * t == base + 32 * s);
        let acc: [i32; 16] = tile_run(ilv, t, a);
        let bsum: i32 = sums[t];
        proof {
            lemma_asum_bound(a@, 32 * t, 32);
            assert(sums@[t as int] == asum(a@, 32 * t, 32));
        }
        let ghost lanes0 = lanes@;
        let ghost corr0 = corr@;
        let ghost sm0 = sm@;
        let mut i: usize = 0;
        while i < 8
            invariant
                i <= 8,
                sh == f.shape(),
                sh.wf(),
                sh.sub == 32,
                off == sh.offset,
                s < 8,
                base + sh.unit <= in_f,
                32 * t == base + 32 * s,
                32 * t + 32 <= in_f,
                decs@.len() == 8,
                bias == 0 || bias == 128,
                forall|q: int| 0 <= q < 8 ==> decodes(f, &(#[trigger] decs@[q]), rows[q], in_f as int),
                is_interleaved(ilv@, decs@, bias as int, in_f as int),
                in_f as int % f.shape().elems as int == 0,
                bsum == asum(a@, 32 * t, 32),
                -4096 <= bsum <= 4096,
                lanes0.len() == 16,
                corr0.len() == 8,
                sm0.len() == 8,
                forall|q: int|
                    0 <= q < 8 ==> #[trigger] acc@[2 * q] + acc@[2 * q + 1] == wdot(
                        tile_row(ilv@, t as int, q),
                        a@,
                        32 * t,
                        32,
                    ),
                forall|l: int| 0 <= l < 16 ==> -522240 <= #[trigger] acc@[l] <= 522240,
                forall|q: int|
                    0 <= q < 8 ==> #[trigger] lanes0[2 * q] + lanes0[2 * q + 1] - corr0[q] == wdot(
                        weights_at(f, rows[q], base as int),
                        a@,
                        base as int,
                        (32 * s) as nat,
                    ),
                forall|p: int|
                    0 <= p < 8 ==> #[trigger] sm0[p] == wdot(
                        mins_at(f, rows[perm(p)], base as int),
                        a@,
                        base as int,
                        (32 * s) as nat,
                    ),
                forall|l: int| 0 <= l < 16 ==> -66846720 * s <= #[trigger] lanes0[l] <= 66846720 * s,
                forall|q: int| 0 <= q < 8 ==> -83886080 * s <= #[trigger] corr0[q] <= 83886080 * s,
                forall|p: int| 0 <= p < 8 ==> -524288 * s <= #[trigger] sm0[p] <= 524288 * s,
                forall|q: int|
                    0 <= q < i ==> #[trigger] lanes@[2 * q] + lanes@[2 * q + 1] - corr@[q] == wdot(
                        weights_at(f, rows[q], base as int),
                        a@,
                        base as int,
                        (32 * s + 32) as nat,
                    ),
                forall|p: int|
                    0 <= p < i ==> #[trigger] sm@[p] == wdot(
                        mins_at(f, rows[perm(p)], base as int),
                        a@,
                        base as int,
                        (32 * s + 32) as nat,
                    ),
                forall|l: int| 2 * i <= l < 16 ==> #[trigger] lanes@[l] == lanes0[l],
                forall|q: int| i <= q < 8 ==> #[trigger] corr@[q] == corr0[q],
                forall|p: int| i <= p < 8 ==> #[trigger] sm@[p] == sm0[p],
                forall|l: int| 0 <= l < 2 * i ==> -66846720 * (s + 1) <= #[trigger] lanes@[l] <= 66846720 * (s + 1),
                forall|q: int| 0 <= q < i ==> -83886080 * (s + 1) <= #[trigger] corr@[q] <= 83886080 * (s + 1),
                forall|p: int| 0 <= p < i ==> -524288 * (s + 1) <= #[trigger] sm@[p] <= 524288 * (s + 1),
            decreases 8 - i,
        {
            let row: usize = perm_of(i);
            let ghost dec = decs@[i as int];
            proof {
                assert(decodes(f, &decs@[i as int], rows[i as int], in_f as int));
                assert(decodes(f, &decs@[row as int], rows[row as int], in_f as int));
                lemma_sub_block(f, &decs@[i as int], rows[i as int], a@, in_f as int, base as int, 32 * s as int, t as int);
                lemma_sub_block(f, &decs@[row as int], rows[row as int], a@, in_f as int, base as int, 32 * s as int, t as int);
                lemma_tile_row(ilv@, decs@, bias as int, in_f as int, t as int, i as int, a@);
            }
            let scale: i32 = decs[i].sc[t];
            let min: i32 = decs[row].mins[t];
            let x: i32 = acc[2 * i];
            let y: i32 = acc[2 * i + 1];
            let shift: i32 = bias + off;
            proof {
                assert(-128 <= decs@[i as int].sc@[t as int] <= 128);
                assert(0 <= decs@[row as int].mins@[t as int] <= 128);
                assert(-66846720 <= x * scale <= 66846720) by (nonlinear_arith)
                    requires
                        -522240 <= x <= 522240,
                        -128 <= scale <= 128,
                ;
                assert(-66846720 <= y * scale <= 66846720) by (nonlinear_arith)
                    requires
                        -522240 <= y <= 522240,
                        -128 <= scale <= 128,
                ;
                assert(-655360 <= shift * bsum <= 655360) by (nonlinear_arith)
                    requires
                        0 <= shift <= 160,
                        -4096 <= bsum <= 4096,
                ;
                let sb = shift * bsum;
                assert(-83886080 <= scale * sb <= 83886080) by (nonlinear_arith)
                    requires
                        -655360 <= sb <= 655360,
                        -128 <= scale <= 128,
                ;
                assert(-524288 <= min * bsum <= 524288) by (nonlinear_arith)
                    requires
                        -4096 <= bsum <= 4096,
                        0 <= min <= 128,
                ;
                let w = wdot(weights_from(dec.codes@, 32 * t), a@, 32 * t, 32);
                assert(acc@[2 * (i as int)] + acc@[2 * (i as int) + 1] == w + bias * bsum);
                assert(x * scale + y * scale - scale * sb == scale * (w - off * bsum)) by (nonlinear_arith)
                    requires
                        x + y == w + bias * bsum,
                        sb == shift * bsum,
                        shift == bias + off,
                ;
                assert(lanes0[2 * (i as int)] + lanes0[2 * (i as int) + 1] - corr0[i as int] == wdot(
                    weights_at(f, rows[i as int], base as int),
                    a@,
                    base as int,
                    (32 * s) as nat,
                ));
                assert(lanes@[2 * i as int] == lanes0[2 * i as int]);
                assert(lanes@[2 * i + 1 as int] == lanes0[2 * i + 1 as int]);
                assert(corr@[i as int] == corr0[i as int]);
                assert(sm@[i as int] == sm0[i as int]);
            }
            lanes[2 * i] = lanes[2 * i] + x * scale;
            lanes[2 * i + 1] = lanes[2 * i + 1] + y * scale;
            corr[i] = corr[i] + scale * (shift * bsum);
            sm[i] = sm[i] + min * bsum;
            i = i + 1;
        }
        s = s + 1;
        assert(32 * s == 32 * (s - 1) + 32);
    }
    let sd: [i32; 8] = pair_merge(&lanes);
    let mut r: [Term; 8] = [Term { d: 0, aux: 0, sd: 0, sm: 0 }; 8];
    let mut p: usize = 0;
    while p < 8
        invariant
            p <= 8,
            sh == f.shape(),
            base == u * sh.unit,
            sh.unit * u == u * sh.unit,
            decs@.len() == 8,
            forall|i: int| 0 <= i < 8 ==> decodes(f, &(#[trigger] decs@[i]), rows[i], in_f as int),
            u < in_f as int / f.shape().unit as int,
            forall|q: int| 0 <= q < 8 ==> #[trigger] sd@[q] == lanes@[2 * perm(q)] + lanes@[2 * perm(q) + 1],
            forall|i: int|
                0 <= i < 8 ==> #[trigger] lanes@[2 * i] + lanes@[2 * i + 1] - corr@[i] == wdot(
                    weights_at(f, rows[i], base as int),
                    a@,
                    base as int,
                    sh.unit as nat,
                ),
            forall|q: int|
                0 <= q < 8 ==> #[trigger] sm@[q] == wdot(
                    mins_at(f, rows[perm(q)], base as int),
                    a@,
                    base as int,
                    sh.unit as nat,
                ),
            forall|l: int| 0 <= l < 16 ==> -534773760 <= #[trigger] lanes@[l] <= 534773760,
            forall|i: int| 0 <= i < 8 ==> -671088640 <= #[trigger] corr@[i] <= 671088640,
            forall|q: int| 0 <= q < p ==> is_term(f, #[trigger] r@[q], rows[perm(q)], a@, u as int),
        decreases 8 - p,
    {
        let row: usize = perm_of(p);
        let ghost i = row as int;
        assert(decodes(f, &decs@[i], rows[i], in_f as int));
        assert(lanes@[2 * i] + lanes@[2 * i + 1] - corr@[i] == wdot(
            weights_at(f, rows[i], base as int),
            a@,
            base as int,
            sh.unit as nat,
        ));
        r[p] = Term { d: decs[row].d[u], aux: decs[row].aux[u], sd: sd[p] - corr[row], sm: sm[p] };
        p = p + 1;
    }
    r
}

/// The terms of eight interleaved rows against one activation row, un-permuted: entry `i` belongs
/// to row `i`.
pub fn tile_token<F: WeightFormat>(
    f: &F,
    decs: &Vec<Decoded>,
    Ghost(rows): Ghost<Seq<Seq<u8>>>,
    ilv: &[u8],
    bias: i32,
    a: &[i8],
    sums: &[i32],
    in_f: usize,
) -> (toks: Vec<Vec<Term>>)
    requires
        f.shape().sub == 32,
        decs@.len() == 8,
        bias == 0 || bias == 128,
        forall|i: int| 0 <= i < 8 ==> decodes(f, &(#[trigger] decs@[i]), rows[i], in_f as int),
        is_interleaved(ilv@, decs@, bias as int, in_f as int),
        in_f as int % f.shape().elems as int == 0,
        in_f <= a@.len(),
        are_run_sums(sums@, a@, 32, in_f as int),
    ensures
        toks@.len() == 8,
        forall|i: int| 0 <= i < 8 ==> is_dot(f, (#[trigger] toks@[i])@, rows[i], a@, in_f as int),
{
    let sh: Shape = f.shape_of();
    proof {
        f.lemma_shape();
    }
    let n: usize = in_f / sh.unit;
    let mut toks: Vec<Vec<Term>> = Vec::new();
    let mut i: usize = 0;
    while i < 8
        invariant
            i <= 8,
            toks@.len() == i,
            forall|k: int| 0 <= k < i ==> (#[trigger] toks@[k])@.len() == 0,
        decreases 8 - i,
    {
        toks.push(Vec::new());
        i = i + 1;
    }
    let mut u: usize = 0;
    while u < n
        invariant
            u <= n,
            n == in_f as int / f.shape().unit as int,
            f.shape().sub == 32,
            decs@.len() == 8,
            bias == 0 || bias == 128,
            forall|k: int| 0 <= k < 8 ==> decodes(f, &(#[trigger] decs@[k]), rows[k], in_f as int),
            is_interleaved(ilv@, decs@, bias as int, in_f as int),
            in_f as int % f.shape().elems as int == 0,
            in_f <= a@.len(),
            are_run_sums(sums@, a@, 32, in_f as int),
            toks@.len() == 8,
            forall|k: int| 0 <= k < 8 ==> (#[trigger] toks@[k])@.len() == u,
            forall|k: int, v: int|
                0 <= k < 8 && 0 <= v < u ==> is_term(f, #[trigger] toks@[k]@[v], rows[k], a@, v),
        decreases n - u,
    {
        let t: [Term; 8] = tile_unit(f, decs, Ghost(rows), ilv, bias, a, sums, in_f, u);
        let mut p: usize = 0;
        while p < 8
            invariant
                p <= 8,
                forall|q: int| 0 <= q < 8 ==> is_term(f, #[trigger] t@[q], rows[perm(q)], a@, u as int),
                toks@.len() == 8,
                forall|k: int|
                    0 <= k < 8 ==> (#[trigger] toks@[k])@.len() == if perm(k) < p {
                        u + 1
                    } else {
                        u as int
                    },
                forall|k: int, v: int|
                    0 <= k < 8 && 0 <= v < toks@[k]@.len() ==> is_term(f, #[trigger] toks@[k]@[v], rows[k], a@, v),
            decreases 8 - p,
        {
            let row: usize = perm_of(p);
            assert(is_term(f, t@[p as int], rows[row as int], a@, u as int));
            toks[row].push(t[p]);
            p = p + 1;
        }
        u = u + 1;
    }
    toks
}

/// Where a code of a tile stands: the codes of eight rows follow one another, eight at a time.
pub proof fn law_tile_places(decs: &Vec<Decoded>, bias: i32, in_f: usize, ilv: Vec<u8>, i: int, k: int, g: int, t: int)
    requires
        call_ensures(interleave8, (decs, bias, in_f), ilv),
        0 <= i < 8,
        0 <= k,
        0 <= g < 4,
        0 <= t < 8,
        32 * k + 32 <= in_f,
    ensures
        ilv@.len() == 8 * in_f,
        ilv@[256 * k + 64 * g + 8 * i + t] == decs@[i].codes@[32 * k + 8 * g + t] + bias,
{
    let n = 256 * k + 64 * g + 8 * i + t;
    assert(n / 256 == k);
    assert(n % 256 == 64 * g + 8 * i + t);
    assert((n % 256) / 64 == g);
    assert(n % 64 == 8 * i + t);
    assert(n % 8 == t);
    assert((n % 64) / 8 == i);
    assert(ilv@[n] == decs@[(n % 64) / 8].codes@[tile_elem(n)] + bias);
}

/// A token over a tile gives each of the eight rows the terms that the row alone gives.
pub proof fn law_token_over_tile<F: WeightFormat>(
    f: &F,
    decs: &Vec<Decoded>,
    rows: Seq<Seq<u8>>,
    ilv: &[u8],
    bias: i32,
    a: &[i8],
    sums: &[i32],
    in_f: usize,
    toks: Vec<Vec<Term>>,
    i: int,
    one: Vec<Term>,
)
    requires
        call_ensures(tile_token::<F>, (f, decs, Ghost(rows), ilv, bias, a, sums, in_f), toks),
        0 <= i < 8,
        call_ensures(crate::rowdot::dot_decoded::<F>, (f, &decs@[i], Ghost(rows[i]), a, sums, in_f), one),
    ensures
        toks@.len() == 8,
        toks@[i]@ == one@,
{
    crate::laws::law_terms_unique(f, toks@[i]@, one@, rows[i], a@, in_f as int);
}

} // verus!
