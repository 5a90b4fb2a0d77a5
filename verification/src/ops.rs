//! Moving elements between tensors: runs, strided runs, gathered rows, transposition, and packing
//! of interleaved heads.
use vstd::prelude::*;
use vstd::arithmetic::div_mod::{lemma_fundamental_div_mod, lemma_mod_bound};

verus! {

/// `dst` with the elements of `src` from place `at` on.
pub open spec fn overlaid<T>(dst: Seq<T>, at: int, src: Seq<T>) -> Seq<T> {
    Seq::new(
        dst.len(),
        |i: int|
            if at <= i < at + src.len() {
                src[i - at]
            } else {
                dst[i]
            },
    )
}

/// Copies `n` elements of `src` from place `src_at` on to `dst` from place `dst_at` on.
pub fn copy_run<T: Copy>(dst: &mut Vec<T>, dst_at: usize, src: &[T], src_at: usize, n: usize)
    requires
        dst_at + n <= old(dst)@.len(),
        src_at + n <= src@.len(),
    ensures
        final(dst)@ == overlaid(old(dst)@, dst_at as int, src@.subrange(src_at as int, src_at + n)),
{
    let ghost before = dst@;
    let dlen: usize = dst.len();
    let slen: usize = src.len();
    let mut i: usize = 0;
    while i < n
        invariant
            i <= n,
            dlen == dst@.len(),
            slen == src@.len(),
            dst_at + n <= dlen,
            src_at + n <= slen,
            before.len() == dlen,
            forall|k: int|
                0 <= k < dlen ==> #[trigger] dst@[k] == if dst_at <= k < dst_at + i {
                    src@[src_at + (k - dst_at)]
                } else {
                    before[k]
                },
        decreases n - i,
    {
        dst.set(dst_at + i, src[src_at + i]);
        i = i + 1;
    }
    assert(dst@ =~= overlaid(before, dst_at as int, src@.subrange(src_at as int, src_at + n)));
}

/// Where rows of elements start: at `at`, and `stride` apart.
#[derive(Clone, Copy)]
pub struct Rows {
    pub at: usize,
    pub stride: usize,
}

impl Rows {
    /// The start of row `r`.
    pub open spec fn start(self, r: int) -> int {
        self.at + r * self.stride
    }

    /// Rows of `n` elements up to row `rows` lie in a tensor of `len` elements.
    pub open spec fn fit(self, rows: int, n: int, len: int) -> bool {
        rows > 0 ==> self.start(rows - 1) + n <= len
    }

    /// Whether rows of `n` elements up to row `rows` lie in a tensor of `len` elements.
    pub fn fits(self, rows: usize, n: usize, len: usize) -> (r: bool)
        ensures
            r == self.fit(rows as int, n as int, len as int),
    {
        if rows == 0 {
            return true;
        }
        proof {
            assert(0 <= (rows - 1) * self.stride <= 0xffff_ffff_ffff_fffe_0000_0000_0000_0001) by (nonlinear_arith)
                requires
                    1 <= rows <= 0xffff_ffff_ffff_ffff,
                    0 <= self.stride <= 0xffff_ffff_ffff_ffff,
            ;
        }
        let behind: u128 = (rows - 1) as u128 * self.stride as u128;
        if behind > len as u128 {
            return false;
        }
        behind + self.at as u128 + n as u128 <= len as u128
    }

    /// A row before the last starts no later than the last.
    proof fn lemma_start(self, r: int, rows: int)
        requires
            0 <= r < rows,
        ensures
            0 <= self.start(r) <= self.start(rows - 1),
            0 <= r * self.stride,
    {
        assert(0 <= r * self.stride <= (rows - 1) * self.stride) by (nonlinear_arith)
            requires
                0 <= r <= rows - 1,
                0 <= self.stride,
        ;
    }
}

/// `dst` after the first `rows` rows of `n` elements were copied, one after the other: where rows
/// overlap, the later one stays.
pub open spec fn strided_copy<T>(dst: Seq<T>, to: Rows, src: Seq<T>, from: Rows, rows: int, n: int) -> Seq<T>
    decreases rows,
{
    if rows <= 0 {
        dst
    } else {
        overlaid(
            strided_copy(dst, to, src, from, rows - 1, n),
            to.start(rows - 1),
            src.subrange(from.start(rows - 1), from.start(rows - 1) + n),
        )
    }
}

/// Copies rows of `n` elements.
pub fn copy_strided<T: Copy>(dst: &mut Vec<T>, to: Rows, src: &[T], from: Rows, rows: usize, n: usize)
    requires
        to.fit(rows as int, n as int, old(dst)@.len() as int),
        from.fit(rows as int, n as int, src@.len() as int),
    ensures
        final(dst)@ == strided_copy(old(dst)@, to, src@, from, rows as int, n as int),
        final(dst)@.len() == old(dst)@.len(),
{
    let ghost before = dst@;
    let dlen: usize = dst.len();
    let slen: usize = src.len();
    let mut r: usize = 0;
    while r < rows
        invariant
            r <= rows,
            dlen == dst@.len(),
            slen == src@.len(),
            to.fit(rows as int, n as int, dlen as int),
            from.fit(rows as int, n as int, slen as int),
            dst@ == strided_copy(before, to, src@, from, r as int, n as int),
        decreases rows - r,
    {
        proof {
            to.lemma_start(r as int, rows as int);
            from.lemma_start(r as int, rows as int);
        }
        copy_run(dst, to.at + r * to.stride, src, from.at + r * from.stride, n);
        r = r + 1;
    }
}

/// A copy keeps the length.
proof fn lemma_strided_len<T>(dst: Seq<T>, to: Rows, src: Seq<T>, from: Rows, rows: int, n: int)
    ensures
        strided_copy(dst, to, src, from, rows, n).len() == dst.len(),
    decreases rows,
{
    if rows > 0 {
        lemma_strided_len(dst, to, src, from, rows - 1, n);
    }
}

/// Rows that do not overlap: element `j` of row `r` of the destination is element `j` of row `r` of
/// the source.
pub proof fn law_strided_rows<T>(dst: Seq<T>, to: Rows, src: Seq<T>, from: Rows, rows: int, n: int, r: int, j: int)
    requires
        n <= to.stride,
        to.fit(rows, n, dst.len() as int),
        from.fit(rows, n, src.len() as int),
        0 <= r < rows,
        0 <= j < n,
    ensures
        strided_copy(dst, to, src, from, rows, n)[to.start(r) + j] == src[from.start(r) + j],
    decreases rows,
{
    to.lemma_start(r, rows);
    from.lemma_start(rows - 1, rows);
    lemma_strided_len(dst, to, src, from, rows - 1, n);
    if r < rows - 1 {
        to.lemma_start(rows - 2, rows);
        from.lemma_start(rows - 2, rows);
        law_strided_rows(dst, to, src, from, rows - 1, n, r, j);
        assert(to.start(r) + n <= to.start(rows - 1)) by {
            assert(r * to.stride + to.stride <= (rows - 1) * to.stride) by (nonlinear_arith)
                requires
                    r + 1 <= rows - 1,
                    0 <= to.stride,
            ;
        }
    }
}

/// Elements that no row holds stay as they are.
pub proof fn law_strided_leaves_gaps<T>(dst: Seq<T>, to: Rows, src: Seq<T>, from: Rows, rows: int, n: int, i: int)
    requires
        0 <= rows,
        to.fit(rows, n, dst.len() as int),
        from.fit(rows, n, src.len() as int),
        0 <= n,
        0 <= i < dst.len(),
        forall|r: int| 0 <= r < rows ==> !(#[trigger] to.start(r) <= i < to.start(r) + n),
    ensures
        strided_copy(dst, to, src, from, rows, n)[i] == dst[i],
    decreases rows,
{
    if rows > 0 {
        if rows > 1 {
            to.lemma_start(rows - 2, rows);
            from.lemma_start(rows - 2, rows);
        }
        from.lemma_start(rows - 1, rows);
        lemma_strided_len(dst, to, src, from, rows - 1, n);
        law_strided_leaves_gaps(dst, to, src, from, rows - 1, n, i);
        assert(!(to.start(rows - 1) <= i < to.start(rows - 1) + n));
    }
}

/// Element `j` of row `c` of a tensor of rows of `rs` elements.
pub open spec fn at<T>(s: Seq<T>, rs: int, c: int, j: int) -> T {
    s[c * rs + j]
}

/// Element `j` of row `c` lies in the first `rows` rows.
pub proof fn lemma_at(rs: int, c: int, j: int, rows: int)
    requires
        0 <= c < rows,
        0 <= j < rs,
    ensures
        0 <= c * rs + j < rows * rs,
        c * rs + rs <= rows * rs,
        0 <= c * rs,
{
    assert(0 <= c * rs && c * rs + rs <= rows * rs) by (nonlinear_arith)
        requires
            0 <= c,
            c + 1 <= rows,
            0 < rs,
    ;
}

/// Rows of `n` elements, row `i` from place `starts[i]` of `src` on.
fn collect_runs<T: Copy>(src: &[T], starts: &Vec<usize>, n: usize) -> (out: Vec<T>)
    requires
        forall|i: int| 0 <= i < starts@.len() ==> #[trigger] starts@[i] + n <= src@.len(),
    ensures
        out@.len() == starts@.len() * n,
        forall|i: int, j: int|
            0 <= i < starts@.len() && 0 <= j < n ==> #[trigger] at(out@, n as int, i, j) == src@[starts@[i] + j],
{
    let len: usize = src.len();
    let mut out: Vec<T> = Vec::new();
    let mut i: usize = 0;
    proof {
        assert(0 * n == 0) by (nonlinear_arith);
    }
    while i < starts.len()
        invariant
            i <= starts@.len(),
            len == src@.len(),
            forall|k: int| 0 <= k < starts@.len() ==> #[trigger] starts@[k] + n <= len,
            out@.len() == i * n,
            forall|k: int, j: int|
                0 <= k < i && 0 <= j < n ==> #[trigger] at(out@, n as int, k, j) == src@[starts@[k] + j],
        decreases starts@.len() - i,
    {
        let s: usize = starts[i];
        let ghost before = out@;
        let mut j: usize = 0;
        while j < n
            invariant
                j <= n,
                len == src@.len(),
                s + n <= len,
                before.len() == i * n,
                out@.len() == before.len() + j,
                forall|q: int| 0 <= q < before.len() ==> #[trigger] out@[q] == before[q],
                forall|q: int| before.len() <= q < before.len() + j ==> #[trigger] out@[q] == src@[s + (q - before.len())],
            decreases n - j,
        {
            out.push(src[s + j]);
            j = j + 1;
        }
        proof {
            assert((i + 1) * n == i * n + n) by (nonlinear_arith);
            assert forall|k: int, j: int| 0 <= k < i + 1 && 0 <= j < n implies #[trigger] at(out@, n as int, k, j)
                == src@[starts@[k] + j] by {
                if k < i {
                    lemma_at(n as int, k, j, i as int);
                    assert(at(before, n as int, k, j) == src@[starts@[k] + j]);
                } else {
                    assert(out@[i * n + j] == src@[s + (i * n + j - before.len())]);
                }
            }
        }
        i = i + 1;
    }
    out
}

/// `out` holds the columns `off` up to `off + n` of the rows of `src`.
pub open spec fn are_columns<T>(out: Seq<T>, src: Seq<T>, rows: int, stride: int, off: int, n: int) -> bool {
    &&& out.len() == rows * n
    &&& forall|t: int, j: int|
        0 <= t < rows && 0 <= j < n ==> #[trigger] at(out, n, t, j) == at(src, stride, t, off + j)
}

/// The columns `off` up to `off + n` of the rows of a tensor, packed.
pub fn take_columns<T: Copy>(src: &[T], rows: usize, stride: usize, off: usize, n: usize) -> (out: Vec<T>)
    requires
        (Rows { at: off, stride }).fit(rows as int, n as int, src@.len() as int),
    ensures
        are_columns(out@, src@, rows as int, stride as int, off as int, n as int),
{
    let len: usize = src.len();
    let ghost place = Rows { at: off, stride };
    let mut starts: Vec<usize> = Vec::new();
    let mut t: usize = 0;
    while t < rows
        invariant
            t <= rows,
            len == src@.len(),
            place == (Rows { at: off, stride }),
            place.fit(rows as int, n as int, len as int),
            starts@.len() == t,
            forall|k: int| 0 <= k < t ==> #[trigger] starts@[k] == off + k * stride && starts@[k] + n <= len,
        decreases rows - t,
    {
        proof {
            place.lemma_start(t as int, rows as int);
        }
        starts.push(off + t * stride);
        t = t + 1;
    }
    collect_runs(src, &starts, n)
}

/// The query, key and value parts of rows that hold all three: `qk` query elements, as many key
/// elements, then `v` value elements.
pub fn split_qkv<T: Copy>(src: &[T], rows: usize, stride: usize, qk: usize, v: usize) -> (out: (Vec<T>, Vec<T>, Vec<T>))
    requires
        2 * qk + v <= usize::MAX,
        (Rows { at: 0, stride }).fit(rows as int, 2 * qk + v, src@.len() as int),
    ensures
        are_columns(out.0@, src@, rows as int, stride as int, 0, qk as int),
        are_columns(out.1@, src@, rows as int, stride as int, qk as int, qk as int),
        are_columns(out.2@, src@, rows as int, stride as int, 2 * qk, v as int),
{
    let q: Vec<T> = take_columns(src, rows, stride, 0, qk);
    let k: Vec<T> = take_columns(src, rows, stride, qk, qk);
    let w: Vec<T> = take_columns(src, rows, stride, 2 * qk, v);
    (q, k, w)
}

/// The rows of `src` at the given numbers.
pub fn gather_rows<T: Copy>(src: &[T], rs: usize, rows: &Vec<usize>) -> (out: Vec<T>)
    requires
        forall|p: int| 0 <= p < rows@.len() ==> (#[trigger] rows@[p] + 1) * rs <= src@.len(),
    ensures
        out@.len() == rows@.len() * rs,
        forall|p: int, j: int|
            0 <= p < rows@.len() && 0 <= j < rs ==> #[trigger] at(out@, rs as int, p, j) == at(
                src@,
                rs as int,
                rows@[p] as int,
                j,
            ),
{
    let len: usize = src.len();
    let mut starts: Vec<usize> = Vec::new();
    let mut p: usize = 0;
    while p < rows.len()
        invariant
            p <= rows@.len(),
            len == src@.len(),
            forall|k: int| 0 <= k < rows@.len() ==> (#[trigger] rows@[k] + 1) * rs <= len,
            starts@.len() == p,
            forall|k: int| 0 <= k < p ==> #[trigger] starts@[k] == rows@[k] * rs && starts@[k] + rs <= len,
        decreases rows@.len() - p,
    {
        let r: usize = rows[p];
        proof {
            assert((r + 1) * rs == r * rs + rs) by (nonlinear_arith);
            assert(0 <= r * rs) by (nonlinear_arith);
            assert((rows@[p as int] + 1) * rs <= len);
        }
        starts.push(r * rs);
        p = p + 1;
    }
    collect_runs(src, &starts, rs)
}

/// Head `h` of row `r` of interleaved rows starts here: a head's query is followed by as many
/// gating elements.
pub open spec fn head_start(stride: int, hd: int, r: int, h: int) -> int {
    r * stride + h * (2 * hd)
}

/// The query heads of interleaved rows, packed head by head.
pub fn unpack_heads<T: Copy>(src: &[T], rows: usize, n_head: usize, hd: usize, stride: usize) -> (out: Vec<T>)
    requires
        rows * n_head <= usize::MAX,
        2 * hd <= usize::MAX,
        rows > 0 && n_head > 0 ==> head_start(stride as int, hd as int, rows - 1, n_head - 1) + hd <= src@.len(),
    ensures
        out@.len() == (rows * n_head) * hd,
        forall|r: int, h: int, j: int|
            0 <= r < rows && 0 <= h < n_head && 0 <= j < hd ==> #[trigger] at(out@, hd as int, r * n_head + h, j)
                == src@[head_start(stride as int, hd as int, r, h) + j],
{
    let len: usize = src.len();
    let mut starts: Vec<usize> = Vec::new();
    let mut r: usize = 0;
    proof {
        assert(0 * n_head == 0) by (nonlinear_arith);
    }
    while r < rows
        invariant
            r <= rows,
            len == src@.len(),
            rows * n_head <= usize::MAX,
            2 * hd <= usize::MAX,
            rows > 0 && n_head > 0 ==> head_start(stride as int, hd as int, rows - 1, n_head - 1) + hd <= len,
            starts@.len() == r * n_head,
            forall|k: int| 0 <= k < starts@.len() ==> #[trigger] starts@[k] + hd <= len,
            forall|q: int, h: int|
                0 <= q < r && 0 <= h < n_head ==> #[trigger] at(starts@, n_head as int, q, h) == head_start(
                    stride as int,
                    hd as int,
                    q,
                    h,
                ),
        decreases rows - r,
    {
        let ghost before = starts@;
        let mut h: usize = 0;
        while h < n_head
            invariant
                r < rows,
                h <= n_head,
                len == src@.len(),
                2 * hd <= usize::MAX,
                rows > 0 && n_head > 0 ==> head_start(stride as int, hd as int, rows - 1, n_head - 1) + hd <= len,
                before.len() == r * n_head,
                starts@.len() == before.len() + h,
                forall|k: int| 0 <= k < before.len() ==> #[trigger] starts@[k] == before[k],
                forall|k: int| 0 <= k < starts@.len() ==> #[trigger] starts@[k] + hd <= len,
                forall|k: int|
                    before.len() <= k < starts@.len() ==> #[trigger] starts@[k] == head_start(
                        stride as int,
                        hd as int,
                        r as int,
                        k - before.len(),
                    ),
            decreases n_head - h,
        {
            proof {
                lemma_head_bound(stride as int, hd as int, r as int, h as int, rows as int, n_head as int);
            }
            starts.push(r * stride + h * (2 * hd));
            h = h + 1;
        }
        proof {
            assert((r + 1) * n_head == r * n_head + n_head) by (nonlinear_arith);
            assert forall|q: int, h: int| 0 <= q < r + 1 && 0 <= h < n_head implies #[trigger] at(
                starts@,
                n_head as int,
                q,
                h,
            ) == head_start(stride as int, hd as int, q, h) by {
                if q < r {
                    lemma_at(n_head as int, q, h, r as int);
                    assert(at(before, n_head as int, q, h) == head_start(stride as int, hd as int, q, h));
                    assert(starts@[q * n_head + h] == before[q * n_head + h]);
                } else {
                    assert(starts@[r * n_head + h] == head_start(
                        stride as int,
                        hd as int,
                        r as int,
                        r * n_head + h - before.len(),
                    ));
                }
            }
        }
        r = r + 1;
    }
    let out: Vec<T> = collect_runs(src, &starts, hd);
    proof {
        assert forall|r: int, h: int, j: int| 0 <= r < rows && 0 <= h < n_head && 0 <= j < hd implies #[trigger] at(
            out@,
            hd as int,
            r * n_head + h,
            j,
        ) == src@[head_start(stride as int, hd as int, r, h) + j] by {
            lemma_at(n_head as int, r, h, rows as int);
            assert(at(starts@, n_head as int, r, h) == head_start(stride as int, hd as int, r, h));
            assert(at(out@, hd as int, r * n_head + h, j) == src@[starts@[r * n_head + h] + j]);
        }
    }
    out
}

proof fn lemma_head_bound(stride: int, hd: int, r: int, h: int, rows: int, n_head: int)
    requires
        0 <= stride,
        0 <= hd,
        0 <= r < rows,
        0 <= h < n_head,
    ensures
        0 <= r * stride,
        0 <= h * (2 * hd),
        head_start(stride, hd, r, h) <= head_start(stride, hd, rows - 1, n_head - 1),
{
    assert(0 <= r * stride <= (rows - 1) * stride) by (nonlinear_arith)
        requires
            0 <= r <= rows - 1,
            0 <= stride,
    ;
    assert(0 <= h * (2 * hd) <= (n_head - 1) * (2 * hd)) by (nonlinear_arith)
        requires
            0 <= h <= n_head - 1,
            0 <= hd,
    ;
}

/// `out` is the transpose of `src`, which holds `cols` rows of `rows` elements.
pub open spec fn is_transposed<T>(out: Seq<T>, src: Seq<T>, rows: int, cols: int) -> bool {
    &&& out.len() == rows * cols
    &&& forall|r: int, o: int|
        0 <= r < rows && 0 <= o < cols ==> #[trigger] at(out, cols, r, o) == at(src, rows, o, r)
}

/// The transpose of `cols` rows of `rows` elements.
pub fn transpose<T: Copy>(src: &[T], rows: usize, cols: usize) -> (out: Vec<T>)
    requires
        src@.len() == cols * rows,
    ensures
        is_transposed(out@, src@, rows as int, cols as int),
{
    let len: usize = src.len();
    let mut out: Vec<T> = Vec::new();
    let mut r: usize = 0;
    proof {
        assert(0 * cols == 0) by (nonlinear_arith);
    }
    while r < rows
        invariant
            r <= rows,
            len == src@.len(),
            len == cols * rows,
            out@.len() == r * cols,
            forall|q: int, o: int|
                0 <= q < r && 0 <= o < cols ==> #[trigger] at(out@, cols as int, q, o) == at(src@, rows as int, o, q),
        decreases rows - r,
    {
        let ghost before = out@;
        let mut o: usize = 0;
        while o < cols
            invariant
                o <= cols,
                r < rows,
                len == src@.len(),
                len == cols * rows,
                before.len() == r * cols,
                out@.len() == before.len() + o,
                forall|q: int| 0 <= q < before.len() ==> #[trigger] out@[q] == before[q],
                forall|q: int|
                    before.len() <= q < out@.len() ==> #[trigger] out@[q] == at(
                        src@,
                        rows as int,
                        q - before.len(),
                        r as int,
                    ),
            decreases cols - o,
        {
            proof {
                lemma_at(rows as int, o as int, r as int, cols as int);
            }
            out.push(src[o * rows + r]);
            o = o + 1;
        }
        proof {
            assert((r + 1) * cols == r * cols + cols) by (nonlinear_arith);
            assert forall|q: int, o: int| 0 <= q < r + 1 && 0 <= o < cols implies #[trigger] at(
                out@,
                cols as int,
                q,
                o,
            ) == at(src@, rows as int, o, q) by {
                if q < r {
                    lemma_at(cols as int, q, o, r as int);
                    assert(at(before, cols as int, q, o) == at(src@, rows as int, o, q));
                    assert(out@[q * cols + o] == before[q * cols + o]);
                } else {
                    assert(out@[r * cols + o] == at(src@, rows as int, r * cols + o - before.len(), r as int));
                }
            }
        }
        r = r + 1;
    }
    out
}

/// Transposing twice gives the tensor back.
pub proof fn law_transpose_twice<T>(src: Seq<T>, once: Seq<T>, twice: Seq<T>, rows: int, cols: int)
    requires
        0 <= rows,
        0 <= cols,
        src.len() == cols * rows,
        is_transposed(once, src, rows, cols),
        is_transposed(twice, once, cols, rows),
    ensures
        twice == src,
{
    assert forall|i: int| 0 <= i < src.len() implies twice[i] == src[i] by {
        if rows == 0 {
            assert(cols * rows == 0) by (nonlinear_arith)
                requires
                    rows == 0,
            ;
        }
        lemma_fundamental_div_mod(i, rows);
        lemma_mod_bound(i, rows);
        let o = i / rows;
        let r = i % rows;
        assert(i == o * rows + r && 0 <= o < cols) by (nonlinear_arith)
            requires
                i == rows * o + r,
                0 <= r < rows,
                0 <= i < cols * rows,
        ;
        assert(at(twice, rows, o, r) == at(once, cols, r, o));
        assert(at(once, cols, r, o) == at(src, rows, o, r));
    }
    assert(twice =~= src);
}

/// A copied run takes its place, and nothing else changes.
pub proof fn law_run_is_copied<T: Copy>(dst: &mut Vec<T>, to: usize, src: &[T], from: usize, n: usize, k: int)
    requires
        call_ensures(copy_run::<T>, (dst, to, src, from, n), ()),
        to + n <= old(dst)@.len(),
        from + n <= src@.len(),
        0 <= k < old(dst)@.len(),
    ensures
        final(dst)@.len() == old(dst)@.len(),
        k < to || to + n <= k ==> final(dst)@[k] == old(dst)@[k],
        to <= k < to + n ==> final(dst)@[k] == src@[from + (k - to)],
{
}

/// A number of rows fits exactly where the end of the last one does.
pub proof fn law_rows_fit(at: usize, stride: usize, rows: usize, n: usize, len: usize, r: bool)
    requires
        call_ensures(Rows::fits, (Rows { at, stride }, rows, n, len), r),
    ensures
        rows == 0 ==> r,
        rows > 0 ==> (r <==> at + (rows - 1) * stride + n <= len),
{
}

/// Element `k` of a strided copy is untouched where no row reaches it.
proof fn lemma_strided_gap<T>(dst: Seq<T>, to: Rows, src: Seq<T>, from: Rows, rows: int, n: int, k: int)
    requires
        0 <= k < dst.len(),
        0 <= n,
        to.fit(rows, n, dst.len() as int),
        from.fit(rows, n, src.len() as int),
        forall|q: int| 0 <= q < rows ==> !(#[trigger] to.start(q) <= k < to.start(q) + n),
    ensures
        strided_copy(dst, to, src, from, rows, n).len() == dst.len(),
        strided_copy(dst, to, src, from, rows, n)[k] == dst[k],
    decreases rows,
{
    if rows > 0 {
        lemma_rows_below(to, rows, n, dst.len() as int);
        lemma_rows_below(from, rows, n, src.len() as int);
        lemma_strided_gap(dst, to, src, from, rows - 1, n, k);
        assert(!(to.start(rows - 1) <= k < to.start(rows - 1) + n));
    }
}

/// Where some rows fit, one fewer do.
proof fn lemma_rows_below(a: Rows, rows: int, n: int, len: int)
    requires
        rows > 0,
        0 <= n,
        a.fit(rows, n, len),
    ensures
        a.fit(rows - 1, n, len),
        0 <= a.start(rows - 1),
        a.start(rows - 1) + n <= len,
{
    assert(0 <= (rows - 1) * a.stride) by (nonlinear_arith)
        requires
            rows > 0,
    ;
    assert((rows - 1) * a.stride == (rows - 2) * a.stride + a.stride) by (nonlinear_arith);
}

/// Element `j` of row `r` of a strided copy, where no later row takes its place.
proof fn lemma_strided_row<T>(dst: Seq<T>, to: Rows, src: Seq<T>, from: Rows, rows: int, n: int, r: int, j: int)
    requires
        0 <= j < n,
        0 <= r < rows,
        to.fit(rows, n, dst.len() as int),
        from.fit(rows, n, src.len() as int),
        forall|q: int| r < q < rows ==> !(#[trigger] to.start(q) <= to.start(r) + j < to.start(q) + n),
    ensures
        strided_copy(dst, to, src, from, rows, n).len() == dst.len(),
        0 <= to.start(r) + j < dst.len(),
        strided_copy(dst, to, src, from, rows, n)[to.start(r) + j] == src[from.start(r) + j],
    decreases rows,
{
    lemma_rows_below(to, rows, n, dst.len() as int);
    lemma_rows_below(from, rows, n, src.len() as int);
    if r < rows - 1 {
        lemma_strided_row(dst, to, src, from, rows - 1, n, r, j);
        assert(!(to.start(rows - 1) <= to.start(r) + j < to.start(rows - 1) + n));
    } else {
        lemma_strided_len(dst, to, src, from, rows - 1, n);
    }
}

/// A strided copy puts element `j` of row `r` a stride further for each row before it, unless a
/// later row covers the place; a place that no row covers stays as it was.
pub proof fn law_strided_copy<T: Copy>(
    dst: &mut Vec<T>,
    to: Rows,
    src: &[T],
    from: Rows,
    rows: usize,
    n: usize,
    r: int,
    j: int,
    k: int,
)
    requires
        call_ensures(copy_strided::<T>, (dst, to, src, from, rows, n), ()),
        to.fit(rows as int, n as int, old(dst)@.len() as int),
        from.fit(rows as int, n as int, src@.len() as int),
        0 <= r < rows,
        0 <= j < n,
        0 <= k < old(dst)@.len(),
    ensures
        final(dst)@.len() == old(dst)@.len(),
        (forall|q: int|
            r < q < rows ==> !(#[trigger] (to.at + q * to.stride) <= to.at + r * to.stride + j < to.at + q * to.stride
                + n)) ==> final(dst)@[to.at + r * to.stride + j] == src@[from.at + r * from.stride + j],
        (forall|q: int| 0 <= q < rows ==> !(#[trigger] (to.at + q * to.stride) <= k < to.at + q * to.stride + n))
            ==> final(dst)@[k] == old(dst)@[k],
{
    if forall|q: int|
        r < q < rows ==> !(#[trigger] (to.at + q * to.stride) <= to.at + r * to.stride + j < to.at + q * to.stride
            + n) {
        assert forall|q: int| r < q < rows implies !(#[trigger] to.start(q) <= to.start(r) + j < to.start(q) + n) by {
            assert(to.start(q) == to.at + q * to.stride);
        }
        lemma_strided_row(old(dst)@, to, src@, from, rows as int, n as int, r, j);
    }
    if forall|q: int| 0 <= q < rows ==> !(#[trigger] (to.at + q * to.stride) <= k < to.at + q * to.stride + n) {
        assert forall|q: int| 0 <= q < rows implies !(#[trigger] to.start(q) <= k < to.start(q) + n) by {
            assert(to.start(q) == to.at + q * to.stride);
        }
        lemma_strided_gap(old(dst)@, to, src@, from, rows as int, n as int, k);
    }
}

/// The columns of a row follow one another, the rows come in their order.
pub proof fn law_columns<T: Copy>(
    src: &[T],
    rows: usize,
    stride: usize,
    off: usize,
    n: usize,
    out: Vec<T>,
    t: int,
    j: int,
)
    requires
        call_ensures(take_columns::<T>, (src, rows, stride, off, n), out),
        0 <= t < rows,
        0 <= j < n,
    ensures
        out@.len() == rows * n,
        out@[t * n + j] == src@[t * stride + off + j],
{
    assert(at(out@, n as int, t, j) == at(src@, stride as int, t, off + j));
}

/// A row of a joined tensor is its query part, its key part of the same length and its value part.
pub proof fn law_qkv_parts<T: Copy>(
    src: &[T],
    rows: usize,
    stride: usize,
    qk: usize,
    v: usize,
    out: (Vec<T>, Vec<T>, Vec<T>),
    t: int,
    j: int,
)
    requires
        call_ensures(split_qkv::<T>, (src, rows, stride, qk, v), out),
        0 <= t < rows,
        0 <= j,
    ensures
        out.0@.len() == rows * qk,
        out.1@.len() == rows * qk,
        out.2@.len() == rows * v,
        j < qk ==> out.0@[t * qk + j] == src@[t * stride + j],
        j < qk ==> out.1@[t * qk + j] == src@[t * stride + qk + j],
        j < v ==> out.2@[t * v + j] == src@[t * stride + qk + qk + j],
{
    if j < qk {
        assert(at(out.0@, qk as int, t, j) == at(src@, stride as int, t, 0 + j));
        assert(at(out.1@, qk as int, t, j) == at(src@, stride as int, t, qk + j));
    }
    if j < v {
        assert(at(out.2@, v as int, t, j) == at(src@, stride as int, t, 2 * qk + j));
    }
}

/// A gathered row is the row of the given number.
pub proof fn law_rows_are_gathered<T: Copy>(src: &[T], rs: usize, rows: &Vec<usize>, out: Vec<T>, p: int, j: int)
    requires
        call_ensures(gather_rows::<T>, (src, rs, rows), out),
        0 <= p < rows@.len(),
        0 <= j < rs,
    ensures
        out@.len() == rows@.len() * rs,
        out@[p * rs + j] == src@[rows@[p] * rs + j],
{
    assert(at(out@, rs as int, p, j) == at(src@, rs as int, rows@[p] as int, j));
}

/// Of interleaved heads every first half is kept, packed head by head and row by row.
pub proof fn law_heads_are_unpacked<T: Copy>(
    src: &[T],
    rows: usize,
    n_head: usize,
    hd: usize,
    stride: usize,
    out: Vec<T>,
    r: int,
    h: int,
    j: int,
)
    requires
        call_ensures(unpack_heads::<T>, (src, rows, n_head, hd, stride), out),
        0 <= r < rows,
        0 <= h < n_head,
        0 <= j < hd,
    ensures
        out@.len() == rows * n_head * hd,
        out@[(r * n_head + h) * hd + j] == src@[r * stride + h * hd + h * hd + j],
{
    assert(at(out@, hd as int, r * n_head + h, j) == src@[head_start(stride as int, hd as int, r, h) + j]);
    assert(h * (2 * hd) == h * hd + h * hd) by (nonlinear_arith);
}

/// Rows become columns: an element keeps its two numbers and swaps them.
pub proof fn law_transposed<T: Copy>(src: &[T], rows: usize, cols: usize, out: Vec<T>, r: int, o: int)
    requires
        call_ensures(transpose::<T>, (src, rows, cols), out),
        0 <= r < rows,
        0 <= o < cols,
    ensures
        out@.len() == rows * cols,
        out@[r * cols + o] == src@[o * rows + r],
{
    assert(at(out@, cols as int, r, o) == at(src@, rows as int, o, r));
}

} // verus!
