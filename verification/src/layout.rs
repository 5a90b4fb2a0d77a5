//! Where an operation finds its operands: gated activations, rotary pairs, convolution windows and
//! delta-rule heads.
use vstd::prelude::*;
use vstd::arithmetic::div_mod::{
    lemma_div_is_ordered, lemma_fundamental_div_mod, lemma_fundamental_div_mod_converse, lemma_mod_bound,
};
use crate::ops::{at, copy_run, lemma_at, overlaid};

verus! {

/// How a gated activation lays out its gating and up rows.
#[derive(Clone, Copy)]
pub struct GatedLayout {
    /// Outputs per row.
    pub nff: usize,
    /// The place of the first up element.
    pub up_off: usize,
    /// Distance of the up rows; 0 for packed rows.
    pub up_stride: usize,
    /// Distance of the gating rows; 0 for packed rows.
    pub gate_stride: usize,
    /// Width of a block whose second half gates one head; 0 where gating rows are plain.
    pub gate_block_width: usize,
}

impl GatedLayout {
    /// A block has two halves.
    pub open spec fn wf(self) -> bool {
        self.gate_block_width != 1
    }

    /// The place of gating element `i` of row `r`.
    pub open spec fn gate_place(self, r: int, i: int) -> int {
        let half = self.gate_block_width as int / 2;
        if self.gate_block_width > 0 {
            r * self.gate_stride + (i / half) * self.gate_block_width + half + i % half
        } else if self.gate_stride > 0 {
            r * self.gate_stride + i
        } else {
            r * self.nff + i
        }
    }

    /// The place of up element `i` of row `r`.
    pub open spec fn up_place(self, r: int, i: int) -> int {
        if self.up_stride == 0 {
            r * self.nff + self.up_off + i
        } else {
            r * self.up_stride + self.up_off + i
        }
    }

    /// The places of `rows` rows lie in tensors of `gate_len` and `up_len` elements.
    pub open spec fn fit(self, rows: int, gate_len: int, up_len: int) -> bool {
        rows > 0 && self.nff > 0 ==> self.gate_place(rows - 1, self.nff - 1) < gate_len && self.up_place(
            rows - 1,
            self.nff - 1,
        ) < up_len
    }

    /// Whether the layout is sound and the places of `rows` rows lie in tensors of `gate_len` and
    /// `up_len` elements.
    pub fn fits(self, rows: usize, gate_len: usize, up_len: usize) -> (r: bool)
        ensures
            r == (self.wf() && self.fit(rows as int, gate_len as int, up_len as int)),
    {
        if self.gate_block_width == 1 {
            return false;
        }
        if rows == 0 || self.nff == 0 {
            return true;
        }
        let last: usize = self.nff - 1;
        let gate_stride: usize = if self.gate_block_width > 0 || self.gate_stride > 0 {
            self.gate_stride
        } else {
            self.nff
        };
        let up_stride: usize = if self.up_stride == 0 {
            self.nff
        } else {
            self.up_stride
        };
        let gate_row: u128 = product(rows - 1, gate_stride);
        let up_row: u128 = product(rows - 1, up_stride);
        proof {
            self.lemma_places(rows - 1, self.nff - 1, rows as int);
        }
        if gate_row >= gate_len as u128 || up_row >= up_len as u128 {
            proof {
                if self.gate_block_width > 0 {
                    lemma_mod_bound(last as int, self.gate_block_width as int / 2);
                }
            }
            return false;
        }
        let inside: u128 = if self.gate_block_width > 0 {
            let half: usize = self.gate_block_width / 2;
            proof {
                lemma_fundamental_div_mod(last as int, half as int);
                lemma_mod_bound(last as int, half as int);
            }
            product(last / half, self.gate_block_width) + half as u128 + (last % half) as u128
        } else {
            last as u128
        };
        gate_row + inside < gate_len as u128 && up_row + self.up_off as u128 + (last as u128) < up_len as u128
    }

    /// No place lies behind that of the last element.
    proof fn lemma_places(self, r: int, i: int, rows: int)
        requires
            self.wf(),
            0 <= r < rows,
            0 <= i < self.nff,
        ensures
            0 <= self.gate_place(r, i) <= self.gate_place(rows - 1, self.nff - 1),
            0 <= self.up_place(r, i) <= self.up_place(rows - 1, self.nff - 1),
            0 <= r * self.gate_stride,
            0 <= r * self.nff,
            0 <= r * self.up_stride,
            self.gate_block_width > 0 ==> 0 <= (i / (self.gate_block_width as int / 2)) * self.gate_block_width,
    {
        let last = self.nff - 1;
        assert(0 <= r * self.gate_stride <= (rows - 1) * self.gate_stride) by (nonlinear_arith)
            requires
                0 <= r <= rows - 1,
        ;
        assert(0 <= r * self.nff <= (rows - 1) * self.nff) by (nonlinear_arith)
            requires
                0 <= r <= rows - 1,
        ;
        assert(0 <= r * self.up_stride <= (rows - 1) * self.up_stride) by (nonlinear_arith)
            requires
                0 <= r <= rows - 1,
        ;
        if self.gate_block_width > 0 {
            let w = self.gate_block_width as int;
            let half = w / 2;
            lemma_fundamental_div_mod(i, half);
            lemma_fundamental_div_mod(last, half);
            lemma_mod_bound(i, half);
            lemma_mod_bound(last, half);
            lemma_div_is_ordered(i, last, half);
            let (q, p) = (i / half, last / half);
            assert(0 <= q) by (nonlinear_arith)
                requires
                    i == half * q + i % half,
                    0 <= i,
                    i % half < half,
            ;
            assert(0 <= q * w <= p * w) by (nonlinear_arith)
                requires
                    0 <= q <= p,
                    0 <= w,
            ;
            if q < p {
                assert(q * w + w <= p * w) by (nonlinear_arith)
                    requires
                        q + 1 <= p,
                        0 <= w,
                ;
            }
        }
    }
}

/// The product of two lengths.
fn product(a: usize, b: usize) -> (r: u128)
    ensures
        r == a * b,
        r <= 0xffff_ffff_ffff_fffe_0000_0000_0000_0001,
{
    proof {
        assert(0 <= a * b <= 0xffff_ffff_ffff_fffe_0000_0000_0000_0001) by (nonlinear_arith)
            requires
                0 <= a <= 0xffff_ffff_ffff_ffff,
                0 <= b <= 0xffff_ffff_ffff_ffff,
        ;
    }
    a as u128 * b as u128
}

/// The gating and the up element of every output, row by row.
pub open spec fn are_gated<T, U>(
    out: Seq<(T, U)>,
    gate: Seq<T>,
    up: Seq<U>,
    lay: GatedLayout,
    rows: int,
) -> bool {
    &&& out.len() == rows * lay.nff
    &&& forall|r: int, i: int|
        0 <= r < rows && 0 <= i < lay.nff ==> #[trigger] at(out, lay.nff as int, r, i) == (
            gate[lay.gate_place(r, i)],
            up[lay.up_place(r, i)],
        )
}

/// The operands of a gated activation.
pub fn gated_operands<T: Copy, U: Copy>(gate: &[T], up: &[U], lay: GatedLayout, rows: usize) -> (out: Vec<(T, U)>)
    requires
        lay.wf(),
        lay.fit(rows as int, gate@.len() as int, up@.len() as int),
    ensures
        are_gated(out@, gate@, up@, lay, rows as int),
{
    let glen: usize = gate.len();
    let ulen: usize = up.len();
    let half: usize = lay.gate_block_width / 2;
    let mut out: Vec<(T, U)> = Vec::new();
    let mut r: usize = 0;
    proof {
        assert(0 * lay.nff == 0) by (nonlinear_arith);
    }
    while r < rows
        invariant
            r <= rows,
            glen == gate@.len(),
            ulen == up@.len(),
            half == lay.gate_block_width / 2,
            lay.wf(),
            lay.fit(rows as int, glen as int, ulen as int),
            are_gated(out@, gate@, up@, lay, r as int),
        decreases rows - r,
    {
        let ghost before = out@;
        let mut i: usize = 0;
        while i < lay.nff
            invariant
                r < rows,
                i <= lay.nff,
                glen == gate@.len(),
                ulen == up@.len(),
                half == lay.gate_block_width / 2,
                lay.wf(),
                lay.fit(rows as int, glen as int, ulen as int),
                before.len() == r * lay.nff,
                out@.len() == before.len() + i,
                forall|q: int| 0 <= q < before.len() ==> #[trigger] out@[q] == before[q],
                forall|q: int|
                    before.len() <= q < out@.len() ==> #[trigger] out@[q] == (
                        gate@[lay.gate_place(r as int, q - before.len())],
                        up@[lay.up_place(r as int, q - before.len())],
                    ),
            decreases lay.nff - i,
        {
            proof {
                lay.lemma_places(r as int, i as int, rows as int);
            }
            let gi: usize = if lay.gate_block_width > 0 {
                proof {
                    lemma_fundamental_div_mod(i as int, half as int);
                    lemma_mod_bound(i as int, half as int);
                }
                r * lay.gate_stride + (i / half) * lay.gate_block_width + half + i % half
            } else if lay.gate_stride > 0 {
                r * lay.gate_stride + i
            } else {
                r * lay.nff + i
            };
            let ui: usize = if lay.up_stride == 0 {
                r * lay.nff + lay.up_off + i
            } else {
                r * lay.up_stride + lay.up_off + i
            };
            out.push((gate[gi], up[ui]));
            i = i + 1;
        }
        proof {
            assert((r + 1) * lay.nff == r * lay.nff + lay.nff) by (nonlinear_arith);
            assert forall|q: int, i: int| 0 <= q < r + 1 && 0 <= i < lay.nff implies #[trigger] at(
                out@,
                lay.nff as int,
                q,
                i,
            ) == (gate@[lay.gate_place(q, i)], up@[lay.up_place(q, i)]) by {
                if q < r {
                    lemma_at(lay.nff as int, q, i, r as int);
                    assert(at(before, lay.nff as int, q, i) == (gate@[lay.gate_place(q, i)], up@[lay.up_place(q, i)]));
                    assert(out@[q * lay.nff + i] == before[q * lay.nff + i]);
                } else {
                    let k = r * lay.nff + i;
                    assert(out@[k] == (
                        gate@[lay.gate_place(r as int, k - before.len())],
                        up@[lay.up_place(r as int, k - before.len())],
                    ));
                }
            }
        }
        r = r + 1;
    }
    out
}

/// The operands of a gated activation over rows of a gate half and an up half.
pub fn fused_operands<T: Copy>(gu: &[T], rows: usize, nff: usize) -> (out: Vec<(T, T)>)
    requires
        2 * nff <= usize::MAX,
        rows * (2 * nff) <= gu@.len(),
    ensures
        out@.len() == rows * nff,
        forall|r: int, i: int|
            0 <= r < rows && 0 <= i < nff ==> #[trigger] at(out@, nff as int, r, i) == (
                at(gu@, 2 * nff, r, i),
                at(gu@, 2 * nff, r, nff + i),
            ),
{
    let lay: GatedLayout = GatedLayout {
        nff,
        up_off: nff,
        up_stride: 2 * nff,
        gate_stride: 2 * nff,
        gate_block_width: 0,
    };
    proof {
        if rows > 0 && nff > 0 {
            lemma_at(2 * nff, rows - 1, 2 * nff - 1, rows as int);
        }
    }
    let out: Vec<(T, T)> = gated_operands(gu, gu, lay, rows);
    proof {
        assert forall|r: int, i: int| 0 <= r < rows && 0 <= i < nff implies #[trigger] at(out@, nff as int, r, i) == (
            at(gu@, 2 * nff, r, i),
            at(gu@, 2 * nff, r, nff + i),
        ) by {
            assert(at(out@, lay.nff as int, r, i) == (gu@[lay.gate_place(r, i)], gu@[lay.up_place(r, i)]));
        }
    }
    out
}

/// How the rotated dimensions of a head are paired.
#[derive(Clone, Copy, PartialEq, Eq, Structural, Debug)]
pub enum RopeStyle {
    /// Neighbours: dimension `2p` with dimension `2p + 1`.
    Interleaved,
    /// The two halves: dimension `p` with dimension `p + rope_dim / 2`.
    SplitHalf,
}

/// The dimensions of pair `p`.
pub open spec fn rope_pair_of(style: RopeStyle, rope_dim: int, p: int) -> (int, int) {
    match style {
        RopeStyle::Interleaved => (2 * p, 2 * p + 1),
        RopeStyle::SplitHalf => (p, p + rope_dim / 2),
    }
}

/// The dimensions of pair `p`.
pub fn rope_pair(style: RopeStyle, rope_dim: usize, p: usize) -> (r: (usize, usize))
    requires
        p < rope_dim / 2,
    ensures
        (r.0 as int, r.1 as int) == rope_pair_of(style, rope_dim as int, p as int),
        r.0 < rope_dim,
        r.1 < rope_dim,
{
    match style {
        RopeStyle::Interleaved => (2 * p, 2 * p + 1),
        RopeStyle::SplitHalf => (p, p + rope_dim / 2),
    }
}

/// Every rotated dimension is in exactly one pair, once; an odd last dimension is in none.
pub proof fn law_rope_pairs_partition(style: RopeStyle, rope_dim: int, i: int)
    requires
        0 <= i < rope_dim,
    ensures
        i < 2 * (rope_dim / 2) ==> exists|p: int|
            {
                &&& 0 <= p < rope_dim / 2
                &&& (#[trigger] rope_pair_of(style, rope_dim, p)).0 == i || rope_pair_of(style, rope_dim, p).1 == i
                &&& rope_pair_of(style, rope_dim, p).0 != rope_pair_of(style, rope_dim, p).1
                &&& forall|q: int|
                    0 <= q < rope_dim / 2 && ((#[trigger] rope_pair_of(style, rope_dim, q)).0 == i || rope_pair_of(
                        style,
                        rope_dim,
                        q,
                    ).1 == i) ==> q == p
            },
        i >= 2 * (rope_dim / 2) ==> forall|q: int|
            0 <= q < rope_dim / 2 ==> (#[trigger] rope_pair_of(style, rope_dim, q)).0 != i && rope_pair_of(
                style,
                rope_dim,
                q,
            ).1 != i,
{
    if i < 2 * (rope_dim / 2) {
        let p = match style {
            RopeStyle::Interleaved => i / 2,
            RopeStyle::SplitHalf => if i < rope_dim / 2 {
                i
            } else {
                i - rope_dim / 2
            },
        };
        assert(rope_pair_of(style, rope_dim, p).0 == i || rope_pair_of(style, rope_dim, p).1 == i);
    }
}

/// The history of a causal convolution of width `kernel`: the last `kernel - 1` rows, oldest first.
pub open spec fn history_rows<T>(state: Seq<T>, channels: int, kernel: int) -> Seq<Seq<T>> {
    Seq::new((kernel - 1) as nat, |j: int| Seq::new(channels as nat, |ch: int| at(state, channels, j, ch)))
}

/// The window of channel `ch`: what the history holds of it, oldest first, then the current row's
/// element.
pub fn conv_window<T: Copy>(state: &[T], x: &[T], channels: usize, kernel: usize, ch: usize) -> (w: Vec<T>)
    requires
        1 <= kernel,
        ch < channels,
        (kernel - 1) * channels <= state@.len(),
        channels <= x@.len(),
    ensures
        w@.len() == kernel,
        forall|j: int|
            0 <= j < kernel - 1 ==> #[trigger] w@[j] == history_rows(state@, channels as int, kernel as int)[j][ch as int],
        w@[kernel - 1] == x@[ch as int],
{
    let len: usize = state.len();
    let mut w: Vec<T> = Vec::new();
    let mut j: usize = 0;
    while j < kernel - 1
        invariant
            1 <= kernel,
            j <= kernel - 1,
            ch < channels,
            len == state@.len(),
            (kernel - 1) * channels <= len,
            w@.len() == j,
            forall|k: int| 0 <= k < j ==> #[trigger] w@[k] == at(state@, channels as int, k, ch as int),
        decreases kernel - 1 - j,
    {
        proof {
            lemma_at(channels as int, j as int, ch as int, kernel - 1);
        }
        w.push(state[j * channels + ch]);
        j = j + 1;
    }
    w.push(x[ch]);
    w
}

/// Drops the oldest row of the history and appends the current row.
pub fn shift_history<T: Copy>(state: &mut Vec<T>, x: &[T], channels: usize, kernel: usize)
    requires
        1 <= kernel,
        (kernel - 1) * channels <= old(state)@.len(),
        channels <= x@.len(),
    ensures
        kernel == 1 ==> final(state)@ == old(state)@,
        kernel >= 2 ==> final(state)@ == overlaid(
            old(state)@,
            0,
            old(state)@.subrange(channels as int, (kernel - 1) * channels) + x@.take(channels as int),
        ),
{
    if kernel < 2 {
        return ;
    }
    let ghost before = state@;
    let len: usize = state.len();
    proof {
        assert((kernel - 1) * channels == (kernel - 2) * channels + channels) by (nonlinear_arith);
        assert(0 <= (kernel - 2) * channels) by (nonlinear_arith)
            requires
                2 <= kernel,
        ;
    }
    let keep: usize = (kernel - 2) * channels;
    let mut i: usize = 0;
    while i < keep
        invariant
            i <= keep,
            len == state@.len(),
            before.len() == len,
            keep + channels <= len,
            forall|k: int| 0 <= k < i ==> #[trigger] state@[k] == before[k + channels],
            forall|k: int| i <= k < len ==> #[trigger] state@[k] == before[k],
        decreases keep - i,
    {
        let v: T = state[i + channels];
        state.set(i, v);
        i = i + 1;
    }
    let ghost moved = state@;
    copy_run(state, keep, x, 0, channels);
    assert(state@ =~= overlaid(
        before,
        0,
        before.subrange(channels as int, (kernel - 1) * channels) + x@.take(channels as int),
    ));
}

/// A shift turns the history into its rows but the oldest, followed by the current row.
pub proof fn law_shift_appends_row<T>(before: Seq<T>, after: Seq<T>, x: Seq<T>, channels: int, kernel: int)
    requires
        2 <= kernel,
        0 <= channels <= x.len(),
        (kernel - 1) * channels <= before.len(),
        after == overlaid(before, 0, before.subrange(channels, (kernel - 1) * channels) + x.take(channels)),
    ensures
        history_rows(after, channels, kernel) == history_rows(before, channels, kernel).push(x.take(channels)).skip(1),
{
    let got = history_rows(after, channels, kernel);
    let want = history_rows(before, channels, kernel).push(x.take(channels)).skip(1);
    assert((kernel - 1) * channels == (kernel - 2) * channels + channels) by (nonlinear_arith);
    assert(0 <= (kernel - 2) * channels) by (nonlinear_arith)
        requires
            2 <= kernel,
            0 <= channels,
    ;
    assert forall|j: int| 0 <= j < kernel - 1 implies got[j] == want[j] by {
        assert forall|ch: int| 0 <= ch < channels implies got[j][ch] == want[j][ch] by {
            lemma_at(channels, j, ch, kernel - 1);
            assert((j + 1) * channels == j * channels + channels) by (nonlinear_arith);
            if j == kernel - 2 {
                assert(want[j] == x.take(channels));
            } else {
                lemma_at(channels, j, ch, kernel - 2);
                assert(want[j] == history_rows(before, channels, kernel)[j + 1]);
            }
        }
        assert(got[j] =~= want[j]);
    }
    assert(got =~= want);
}

/// One step of a scan: where the history held the last rows of `first` followed by the first `t`
/// inputs, it holds the last rows of `first` followed by the first `t + 1` inputs after the shift.
pub proof fn law_history_is_last_rows<T>(first: Seq<Seq<T>>, inputs: Seq<Seq<T>>, t: int)
    requires
        0 <= t < inputs.len(),
        1 <= first.len(),
    ensures
        (first + inputs.take(t)).skip(t).push(inputs[t]).skip(1) == (first + inputs.take(t + 1)).skip(t + 1),
{
    assert((first + inputs.take(t)).skip(t).push(inputs[t]).skip(1) =~= (first + inputs.take(t + 1)).skip(t + 1));
}

/// The history after the elements `inputs` went through it: as many of the last elements as it had
/// at first, oldest first.
pub open spec fn history_after<T>(first: Seq<T>, inputs: Seq<T>) -> Seq<T> {
    (first + inputs).skip(inputs.len() as int)
}

/// Window `i` of a scan, of channel `ch` of row `t` at `i = t*channels + ch`: the channel's elements
/// of the rows `t` up to `t + kernel` of the history followed by the inputs.
pub open spec fn scan_window<T>(first: Seq<T>, inputs: Seq<T>, channels: int, kernel: int, i: int) -> Seq<T> {
    Seq::new(kernel as nat, |j: int| (first + inputs)[(i / channels + j) * channels + i % channels])
}

/// The windows of a scan over `rows` rows: one for each channel of each row.
pub open spec fn scan_windows<T>(first: Seq<T>, inputs: Seq<T>, rows: int, channels: int, kernel: int) -> Seq<Seq<T>> {
    Seq::new((rows * channels) as nat, |i: int| scan_window(first, inputs, channels, kernel, i))
}

/// The window of a channel at row `t` holds its elements of the rows `t` up to `t + kernel` of the
/// history followed by the inputs.
pub proof fn law_scan_windows<T>(
    first: Seq<T>,
    inputs: Seq<T>,
    rows: int,
    channels: int,
    kernel: int,
    t: int,
    ch: int,
    j: int,
)
    requires
        first.len() == (kernel - 1) * channels,
        inputs.len() == rows * channels,
        0 <= t < rows,
        0 <= ch < channels,
        0 <= j < kernel,
    ensures
        0 <= t * channels + ch < scan_windows(first, inputs, rows, channels, kernel).len(),
        scan_windows(first, inputs, rows, channels, kernel)[t * channels + ch].len() == kernel,
        0 <= (t + j) * channels + ch < (first + inputs).len(),
        scan_windows(first, inputs, rows, channels, kernel)[t * channels + ch][j] == (first + inputs)[(t + j) * channels
            + ch],
{
    lemma_at(channels, t, ch, rows);
    lemma_at(channels, t + j, ch, rows + kernel - 1);
    assert((rows + kernel - 1) * channels == rows * channels + (kernel - 1) * channels) by (nonlinear_arith);
    lemma_fundamental_div_mod_converse(t * channels + ch, channels, t, ch);
}

/// A run of inputs may be cut in two: the history that the first part leaves, and the second part
/// after it, give the history of the whole.
pub proof fn law_history_of_two_parts<T>(h: Seq<T>, a: Seq<T>, b: Seq<T>)
    ensures
        history_after(h, a).len() == h.len(),
        history_after(history_after(h, a), b) == history_after(h, a + b),
{
    assert(history_after(history_after(h, a), b) =~= history_after(h, a + b));
}

/// A scan may be cut in two: the windows of the first rows, and those of the other rows over the
/// history that the first leave, are together the windows of all rows.
pub proof fn law_scan_of_two_parts<T>(
    h: Seq<T>,
    a: Seq<T>,
    b: Seq<T>,
    r1: int,
    r2: int,
    channels: int,
    kernel: int,
)
    requires
        0 <= r1,
        0 <= r2,
        0 <= channels,
        1 <= kernel,
        h.len() == (kernel - 1) * channels,
        a.len() == r1 * channels,
        b.len() == r2 * channels,
    ensures
        scan_windows(h, a + b, r1 + r2, channels, kernel) == scan_windows(h, a, r1, channels, kernel) + scan_windows(
            history_after(h, a),
            b,
            r2,
            channels,
            kernel,
        ),
{
    let all = scan_windows(h, a + b, r1 + r2, channels, kernel);
    let one = scan_windows(h, a, r1, channels, kernel);
    let two = scan_windows(history_after(h, a), b, r2, channels, kernel);
    let both = one + two;
    assert((r1 + r2) * channels == r1 * channels + r2 * channels) by (nonlinear_arith);
    assert((a + b).len() == (r1 + r2) * channels);
    assert forall|i: int| 0 <= i < all.len() implies all[i] == both[i] by {
        assert(0 < channels) by (nonlinear_arith)
            requires
                0 < (r1 + r2) * channels,
                0 <= channels,
        ;
        let t = i / channels;
        let ch = i % channels;
        lemma_fundamental_div_mod(i, channels);
        lemma_mod_bound(i, channels);
        assert(i == t * channels + ch) by (nonlinear_arith)
            requires
                i == channels * t + ch,
        ;
        assert(0 <= t < r1 + r2) by (nonlinear_arith)
            requires
                0 <= i < (r1 + r2) * channels,
                i == t * channels + ch,
                0 <= ch < channels,
        ;
        if t < r1 {
            lemma_at(channels, t, ch, r1);
        } else {
            assert(i == r1 * channels + ((t - r1) * channels + ch)) by (nonlinear_arith)
                requires
                    i == t * channels + ch,
            ;
            lemma_at(channels, t - r1, ch, r2);
        }
        assert forall|j: int| 0 <= j < kernel implies all[i][j] == both[i][j] by {
            law_scan_windows(h, a + b, r1 + r2, channels, kernel, t, ch, j);
            if t < r1 {
                law_scan_windows(h, a, r1, channels, kernel, t, ch, j);
            } else {
                law_scan_windows(history_after(h, a), b, r2, channels, kernel, t - r1, ch, j);
                assert((t + j) * channels + ch == r1 * channels + ((t - r1 + j) * channels + ch)) by (nonlinear_arith);
            }
        }
        assert(all[i] =~= both[i]);
    }
    assert(all =~= both);
}

/// The windows of every channel of every row of a run, in the order of the rows. The history goes
/// on to the last rows of the run; what stands behind it stays.
pub fn conv_scan<T: Copy>(state: &mut Vec<T>, xs: &[T], rows: usize, channels: usize, kernel: usize) -> (w: Vec<
    Vec<T>,
>)
    requires
        1 <= kernel,
        (kernel - 1) * channels <= old(state)@.len(),
        rows * channels <= xs@.len(),
    ensures
        w@.len() == rows * channels,
        forall|i: int|
            0 <= i < w@.len() ==> (#[trigger] w@[i])@ == scan_windows(
                old(state)@.take((kernel - 1) * channels),
                xs@.take(rows * channels),
                rows as int,
                channels as int,
                kernel as int,
            )[i],
        final(state)@ == history_after(old(state)@.take((kernel - 1) * channels), xs@.take(rows * channels)) + old(
            state,
        )@.skip((kernel - 1) * channels),
{
    let ghost n = (kernel - 1) * channels;
    let ghost first = state@.take(n);
    let ghost rest = state@.skip(n);
    let ghost inputs = xs@.take(rows * channels);
    let ghost all = first + inputs;
    let ghost want = scan_windows(first, inputs, rows as int, channels as int, kernel as int);
    proof {
        assert(0 <= n) by (nonlinear_arith)
            requires
                n == (kernel - 1) * channels,
                1 <= kernel,
        ;
        assert(0 <= rows * channels) by (nonlinear_arith);
        assert(state@ =~= all.subrange(0, n) + rest);
    }
    let len: usize = xs.len();
    let mut w: Vec<Vec<T>> = Vec::new();
    let mut t: usize = 0;
    while t < rows
        invariant
            1 <= kernel,
            len == xs@.len(),
            t <= rows,
            n == (kernel - 1) * channels,
            0 <= n,
            first.len() == n,
            rows * channels <= xs@.len(),
            inputs == xs@.take(rows * channels),
            all == first + inputs,
            want == scan_windows(first, inputs, rows as int, channels as int, kernel as int),
            0 <= t * channels <= rows * channels,
            state@ == all.subrange(t * channels, t * channels + n) + rest,
            w@.len() == t * channels,
            forall|i: int| 0 <= i < w@.len() ==> (#[trigger] w@[i])@ == want[i],
        decreases rows - t,
    {
        proof {
            assert((t + 1) * channels == t * channels + channels) by (nonlinear_arith);
            assert((t + 1) * channels <= rows * channels) by (nonlinear_arith)
                requires
                    t + 1 <= rows,
            ;
        }
        let x: &[T] = vstd::slice::slice_subrange(xs, t * channels, t * channels + channels);
        let mut ch: usize = 0;
        while ch < channels
            invariant
                1 <= kernel,
                t < rows,
                ch <= channels,
                n == (kernel - 1) * channels,
                first.len() == n,
                inputs.len() == rows * channels,
                all == first + inputs,
                want == scan_windows(first, inputs, rows as int, channels as int, kernel as int),
                state@ == all.subrange(t * channels, t * channels + n) + rest,
                0 <= n,
                0 <= t * channels,
                t * channels + channels <= rows * channels,
                x@ == inputs.subrange(t * channels, t * channels + channels),
                w@.len() == t * channels + ch,
                forall|i: int| 0 <= i < w@.len() ==> (#[trigger] w@[i])@ == want[i],
            decreases channels - ch,
        {
            let win: Vec<T> = conv_window(state, x, channels, kernel, ch);
            proof {
                let i = t * channels + ch;
                law_scan_windows(first, inputs, rows as int, channels as int, kernel as int, t as int, ch as int, 0);
                assert forall|j: int| 0 <= j < kernel implies win@[j] == want[i][j] by {
                    law_scan_windows(first, inputs, rows as int, channels as int, kernel as int, t as int, ch as int, j);
                    assert((t + j) * channels == t * channels + j * channels) by (nonlinear_arith);
                    if j < kernel - 1 {
                        lemma_at(channels as int, j, ch as int, kernel - 1);
                        assert(win@[j] == state@[j * channels + ch]);
                    }
                }
                assert(win@ =~= want[i]);
            }
            w.push(win);
            ch = ch + 1;
        }
        shift_history(state, x, channels, kernel);
        proof {
            if kernel >= 2 {
                assert(n == (kernel - 2) * channels + channels) by (nonlinear_arith)
                    requires
                        n == (kernel - 1) * channels,
                ;
                assert(0 <= (kernel - 2) * channels) by (nonlinear_arith)
                    requires
                        2 <= kernel,
                ;
            } else {
                assert(n == 0) by (nonlinear_arith)
                    requires
                        n == (kernel - 1) * channels,
                        kernel == 1,
                ;
            }
            assert(state@ =~= all.subrange(t * channels + channels, t * channels + channels + n) + rest);
        }
        t = t + 1;
    }
    proof {
        assert(all.subrange(rows * channels, rows * channels + n) =~= history_after(first, inputs));
    }
    w
}

/// Where value head `h` of row `t` finds its operands.
#[derive(Clone, Copy)]
pub struct DeltaHead {
    /// The start of its query and key: key heads repeat over the value heads.
    pub qk_at: usize,
    /// The start of its value and of its output.
    pub v_at: usize,
    /// The place of its gates.
    pub gate_at: usize,
    /// The place of its state, of one row for each query element.
    pub state_at: usize,
}

/// Where value head `h` of row `t` finds its operands: `nk` key heads of `kd` elements and `nv`
/// value heads of `vd` elements to a row.
pub fn delta_head(t: usize, h: usize, nk: usize, kd: usize, nv: usize, vd: usize) -> (r: DeltaHead)
    requires
        0 < nk,
        h < nv,
        (t + 1) * (nk * kd) <= usize::MAX,
        (t + 1) * (nv * vd) <= usize::MAX,
        (t + 1) * nv <= usize::MAX,
        nv * (kd * vd) <= usize::MAX,
        nk * kd <= usize::MAX,
        nv * vd <= usize::MAX,
        kd * vd <= usize::MAX,
    ensures
        r.qk_at == t * (nk * kd) + (h as int % nk as int) * kd,
        r.v_at == t * (nv * vd) + h * vd,
        r.gate_at == t * nv + h,
        r.state_at == h * (kd * vd),
        r.qk_at + kd <= (t + 1) * (nk * kd),
        r.v_at + vd <= (t + 1) * (nv * vd),
        r.gate_at < (t + 1) * nv,
        r.state_at + kd * vd <= nv * (kd * vd),
{
    let kh: usize = h % nk;
    let qk: usize = nk * kd;
    let v: usize = nv * vd;
    let st: usize = kd * vd;
    proof {
        lemma_mod_bound(h as int, nk as int);
        assert(0 <= kh * kd && kh * kd + kd <= nk * kd) by (nonlinear_arith)
            requires
                0 <= kh,
                kh + 1 <= nk,
                0 <= kd,
        ;
        assert(0 <= h * vd && h * vd + vd <= nv * vd) by (nonlinear_arith)
            requires
                0 <= h,
                h + 1 <= nv,
                0 <= vd,
        ;
        assert(0 <= h * st && h * st + st <= nv * st) by (nonlinear_arith)
            requires
                0 <= h,
                h + 1 <= nv,
                0 <= st,
        ;
        assert((t + 1) * qk == t * qk + qk && (t + 1) * v == t * v + v && (t + 1) * nv == t * nv + nv)
            by (nonlinear_arith);
        assert(0 <= t * qk && 0 <= t * v && 0 <= t * nv) by (nonlinear_arith);
    }
    DeltaHead { qk_at: t * qk + kh * kd, v_at: t * v + h * vd, gate_at: t * nv + h, state_at: h * st }
}

/// An interleaved pair is two neighbours; a split-half pair joins a dimension of the first half with
/// the one half the rotated dimensions further on. The pairs come in the order of their first
/// members.
pub proof fn law_rope_styles(style: RopeStyle, rope_dim: usize, p: usize, r: (usize, usize), half: int)
    requires
        call_ensures(rope_pair, (style, rope_dim, p), r),
        2 * half <= rope_dim < 2 * half + 2,
        p < half,
    ensures
        style is Interleaved ==> r.0 == p + p && r.1 == r.0 + 1,
        style is SplitHalf ==> r.0 == p && r.1 - r.0 == half,
{
}

/// A gated activation fits where the last operand of its last row does.
pub proof fn law_gated_fits(lay: GatedLayout, rows: usize, gate_len: usize, up_len: usize, r: bool)
    requires
        call_ensures(GatedLayout::fits, (lay, rows, gate_len, up_len), r),
        lay.gate_block_width == 0,
    ensures
        rows == 0 || lay.nff == 0 ==> r,
        rows > 0 && lay.nff > 0 ==> (r <==> {
            &&& (rows - 1) * (if lay.gate_stride > 0 {
                lay.gate_stride as int
            } else {
                lay.nff as int
            }) + lay.nff <= gate_len
            &&& lay.up_off + (rows - 1) * (if lay.up_stride > 0 {
                lay.up_stride as int
            } else {
                lay.nff as int
            }) + lay.nff <= up_len
        }),
{
}

/// Plain gating rows: element `i` of row `r` meets element `i` of that row of either operand, at the
/// distance of its rows; rows without a distance are packed.
pub proof fn law_gated_rows<T: Copy, U: Copy>(
    gate: &[T],
    up: &[U],
    lay: GatedLayout,
    rows: usize,
    out: Vec<(T, U)>,
    r: int,
    i: int,
)
    requires
        call_ensures(gated_operands::<T, U>, (gate, up, lay, rows), out),
        lay.gate_block_width == 0,
        0 <= r < rows,
        0 <= i < lay.nff,
    ensures
        out@.len() == rows * lay.nff,
        lay.gate_stride > 0 ==> out@[r * lay.nff + i].0 == gate@[r * lay.gate_stride + i],
        lay.gate_stride == 0 ==> out@[r * lay.nff + i].0 == gate@[r * lay.nff + i],
        lay.up_stride > 0 ==> out@[r * lay.nff + i].1 == up@[lay.up_off + r * lay.up_stride + i],
        lay.up_stride == 0 ==> out@[r * lay.nff + i].1 == up@[lay.up_off + r * lay.nff + i],
{
    assert(at(out@, lay.nff as int, r, i) == (gate@[lay.gate_place(r, i)], up@[lay.up_place(r, i)]));
}

/// Gating in blocks: element `x` of head `h` is gated by element `x` of the second half of block `h`
/// of the row.
pub proof fn law_gated_blocks<T: Copy, U: Copy>(
    gate: &[T],
    up: &[U],
    lay: GatedLayout,
    rows: usize,
    out: Vec<(T, U)>,
    r: int,
    half: int,
    h: int,
    x: int,
)
    requires
        call_ensures(gated_operands::<T, U>, (gate, up, lay, rows), out),
        2 * half <= lay.gate_block_width < 2 * half + 2,
        0 <= r < rows,
        0 <= h,
        0 <= x < half,
        h * half + x < lay.nff,
    ensures
        out@.len() == rows * lay.nff,
        out@[r * lay.nff + (h * half + x)].0 == gate@[r * lay.gate_stride + h * lay.gate_block_width + half + x],
        lay.up_stride > 0 ==> out@[r * lay.nff + (h * half + x)].1
            == up@[lay.up_off + r * lay.up_stride + (h * half + x)],
        lay.up_stride == 0 ==> out@[r * lay.nff + (h * half + x)].1 == up@[lay.up_off + r * lay.nff + (h * half + x)],
{
    let i = h * half + x;
    assert(0 <= h * half) by (nonlinear_arith)
        requires
            0 <= h,
            0 <= half,
    ;
    lemma_fundamental_div_mod_converse(i, half, h, x);
    assert(at(out@, lay.nff as int, r, i) == (gate@[lay.gate_place(r, i)], up@[lay.up_place(r, i)]));
}

/// A fused row is its gating half and its up half.
pub proof fn law_fused_halves<T: Copy>(gu: &[T], rows: usize, nff: usize, out: Vec<(T, T)>, r: int, i: int)
    requires
        call_ensures(fused_operands::<T>, (gu, rows, nff), out),
        0 <= r < rows,
        0 <= i < nff,
    ensures
        out@.len() == rows * nff,
        out@[r * nff + i].0 == gu@[r * (nff + nff) + i],
        out@[r * nff + i].1 == gu@[r * (nff + nff) + nff + i],
{
    assert(at(out@, nff as int, r, i) == (at(gu@, 2 * nff, r, i), at(gu@, 2 * nff, r, nff + i)));
}

/// The window of a channel is the channel's element of each row of the history, then that of the
/// current row.
pub proof fn law_window_of_channel<T: Copy>(
    state: &[T],
    x: &[T],
    channels: usize,
    kernel: usize,
    ch: usize,
    w: Vec<T>,
    j: int,
)
    requires
        call_ensures(conv_window::<T>, (state, x, channels, kernel, ch), w),
        ch < channels,
        0 <= j < kernel,
    ensures
        w@.len() == kernel,
        j < kernel - 1 ==> w@[j] == state@[j * channels + ch],
        j == kernel - 1 ==> w@[j] == x@[ch as int],
{
    if j < kernel - 1 {
        assert(w@[j] == history_rows(state@, channels as int, kernel as int)[j][ch as int]);
    }
}

/// A shift moves every row of the history one place down, puts the current row last, and spares what
/// stands behind the history.
pub proof fn law_shift_moves_rows<T: Copy>(
    state: &mut Vec<T>,
    x: &[T],
    channels: usize,
    kernel: usize,
    j: int,
    ch: int,
    i: int,
)
    requires
        call_ensures(shift_history::<T>, (state, x, channels, kernel), ()),
        1 <= kernel,
        (kernel - 1) * channels <= old(state)@.len(),
        channels <= x@.len(),
        0 <= j < kernel - 1,
        0 <= ch < channels,
    ensures
        final(state)@.len() == old(state)@.len(),
        j < kernel - 2 ==> final(state)@[j * channels + ch] == old(state)@[(j + 1) * channels + ch],
        j == kernel - 2 ==> final(state)@[j * channels + ch] == x@[ch],
        (kernel - 1) * channels <= i < old(state)@.len() ==> final(state)@[i] == old(state)@[i],
{
    let n = (kernel - 1) * channels;
    assert(n == (kernel - 2) * channels + channels) by (nonlinear_arith)
        requires
            n == (kernel - 1) * channels,
    ;
    assert(0 <= (kernel - 2) * channels) by (nonlinear_arith)
        requires
            2 <= kernel,
    ;
    assert((j + 1) * channels == j * channels + channels) by (nonlinear_arith);
    lemma_at(channels as int, j, ch, kernel - 1);
    if j < kernel - 2 {
        lemma_at(channels as int, j, ch, kernel - 2);
    }
}

/// Tap `j` of channel `ch` of row `t` is the channel's element of row `t + j`, where the rows of the
/// history come first and the rows of the run after them; and so are the rows that the history holds
/// in the end, after the last row of the run.
pub proof fn law_scan_taps<T: Copy>(
    state: &mut Vec<T>,
    xs: &[T],
    rows: usize,
    channels: usize,
    kernel: usize,
    w: Vec<Vec<T>>,
    t: int,
    ch: int,
    j: int,
    i: int,
)
    requires
        call_ensures(conv_scan::<T>, (state, xs, rows, channels, kernel), w),
        1 <= kernel,
        (kernel - 1) * channels <= old(state)@.len(),
        rows * channels <= xs@.len(),
        0 <= t < rows,
        0 <= ch < channels,
        0 <= j < kernel,
    ensures
        w@.len() == rows * channels,
        w@[t * channels + ch]@.len() == kernel,
        t + j < kernel - 1 ==> w@[t * channels + ch]@[j] == old(state)@[(t + j) * channels + ch],
        t + j >= kernel - 1 ==> w@[t * channels + ch]@[j] == xs@[(t + j - (kernel - 1)) * channels + ch],
        final(state)@.len() == old(state)@.len(),
        j < kernel - 1 && rows + j < kernel - 1 ==> final(state)@[j * channels + ch]
            == old(state)@[(rows + j) * channels
            + ch],
        j < kernel - 1 && rows + j >= kernel - 1 ==> final(state)@[j * channels + ch] == xs@[(rows + j - (kernel - 1))
            * channels + ch],
        (kernel - 1) * channels <= i < old(state)@.len() ==> final(state)@[i] == old(state)@[i],
{
    let n = (kernel - 1) * channels;
    let first = old(state)@.take(n);
    let inputs = xs@.take(rows * channels);
    assert(0 <= n && 0 <= rows * channels) by (nonlinear_arith)
        requires
            n == (kernel - 1) * channels,
            1 <= kernel,
    ;
    lemma_at(channels as int, t, ch, rows as int);
    law_scan_windows(first, inputs, rows as int, channels as int, kernel as int, t, ch, j);
    lemma_joined_row(channels as int, kernel - 1, t + j, ch, rows as int);
    if j < kernel - 1 {
        lemma_at(channels as int, j, ch, kernel - 1);
        lemma_joined_row(channels as int, kernel - 1, rows + j, ch, rows as int);
        assert((rows + j) * channels == rows * channels + j * channels) by (nonlinear_arith);
    }
}

/// Where row `r` of `h` rows followed by `rows` others stands.
proof fn lemma_joined_row(channels: int, h: int, r: int, ch: int, rows: int)
    requires
        0 <= ch < channels,
        0 <= h,
        0 <= r < h + rows,
    ensures
        r < h ==> 0 <= r * channels + ch < h * channels,
        r >= h ==> r * channels + ch == h * channels + ((r - h) * channels + ch) && 0 <= (r - h) * channels + ch < rows
            * channels,
{
    if r < h {
        lemma_at(channels, r, ch, h);
    } else {
        lemma_at(channels, r - h, ch, rows);
        assert(r * channels == h * channels + (r - h) * channels) by (nonlinear_arith);
    }
}

/// Each value head has its own value, gates and state; the key heads are taken in turn.
pub proof fn law_delta_heads(
    t: usize,
    h: usize,
    nk: usize,
    kd: usize,
    nv: usize,
    vd: usize,
    r: DeltaHead,
    turns: int,
    kh: int,
)
    requires
        call_ensures(delta_head, (t, h, nk, kd, nv, vd), r),
        0 <= kh < nk,
        h == turns * nk + kh,
    ensures
        r.qk_at == (t * nk + kh) * kd,
        r.v_at == (t * nv + h) * vd,
        r.gate_at == t * nv + h,
        r.state_at == h * kd * vd,
{
    lemma_fundamental_div_mod_converse(h as int, nk as int, turns, kh);
    assert(t * (nk * kd) + kh * kd == (t * nk + kh) * kd) by (nonlinear_arith);
    assert(t * (nv * vd) + h * vd == (t * nv + h) * vd) by (nonlinear_arith);
    assert(h * (kd * vd) == h * kd * vd) by (nonlinear_arith);
}

/// Gating in blocks fits where the gating element of the last output does: that of element `x` of
/// head `h`. A block of one element has no halves.
pub proof fn law_gated_blocks_fit(
    lay: GatedLayout,
    rows: usize,
    gate_len: usize,
    up_len: usize,
    r: bool,
    half: int,
    h: int,
    x: int,
)
    requires
        call_ensures(GatedLayout::fits, (lay, rows, gate_len, up_len), r),
        0 < lay.gate_block_width,
        2 * half <= lay.gate_block_width < 2 * half + 2,
        0 < half ==> 0 <= h && 0 <= x < half && lay.nff - 1 == h * half + x,
        0 < lay.nff,
    ensures
        half == 0 ==> !r,
        half > 0 && rows == 0 ==> r,
        half > 0 && rows > 0 ==> (r <==> {
            &&& (rows - 1) * lay.gate_stride + h * lay.gate_block_width + half + x < gate_len
            &&& lay.up_off + (rows - 1) * (if lay.up_stride > 0 {
                lay.up_stride as int
            } else {
                lay.nff as int
            }) + lay.nff <= up_len
        }),
{
    if half > 0 {
        lemma_fundamental_div_mod_converse(lay.nff - 1, half, h, x);
    }
}

/// A run of no rows leaves the history as it was and has no windows.
pub proof fn law_scan_of_nothing<T: Copy>(state: &mut Vec<T>, xs: &[T], channels: usize, kernel: usize, w: Vec<Vec<T>>)
    requires
        call_ensures(conv_scan::<T>, (state, xs, 0usize, channels, kernel), w),
        1 <= kernel,
        (kernel - 1) * channels <= old(state)@.len(),
    ensures
        w@.len() == 0,
        final(state)@ == old(state)@,
{
    let n = (kernel - 1) * channels;
    assert(0 <= n) by (nonlinear_arith)
        requires
            n == (kernel - 1) * channels,
            1 <= kernel,
    ;
    assert(0 * channels == 0) by (nonlinear_arith);
    assert(final(state)@ =~= old(state)@);
}

} // verus!
