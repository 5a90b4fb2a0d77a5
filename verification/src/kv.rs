//! The key/value cache: ring writes, the range of keys a query attends to, and where they are.
use vstd::prelude::*;
use vstd::arithmetic::div_mod::{
    lemma_fundamental_div_mod, lemma_fundamental_div_mod_converse, lemma_mod_bound, lemma_mod_decreases, lemma_small_mod,
};
use crate::bits::{le16, le16_of, signed, signed_of};
use crate::dtype::DType;
use crate::ops::{at, copy_run};

verus! {

/// The cache row that holds position `p` of a cache of `cap` rows.
pub open spec fn ring_row_of(cap: int, p: int) -> int {
    if cap > 0 {
        p % cap
    } else {
        p
    }
}

/// The cache row that holds position `p`.
pub fn ring_row(cap: usize, p: usize) -> (r: usize)
    ensures
        r == ring_row_of(cap as int, p as int),
{
    if cap > 0 {
        p % cap
    } else {
        p
    }
}

/// A contiguous piece of a write: `n` source rows from `src` on go to the cache rows from `dst` on.
#[derive(Clone, Copy)]
pub struct Seg {
    pub src: usize,
    pub dst: usize,
    pub n: usize,
}

/// The number of rows that a write of `rows` rows at position `pos` puts before the wrap.
pub open spec fn rows_before_wrap(cap: int, pos: int, rows: int) -> int {
    if cap > 0 && pos % cap + rows > cap {
        cap - pos % cap
    } else {
        rows
    }
}

/// The two pieces of a write of `rows` rows at position `pos`: up to the end of the ring, and from
/// its start. The second piece is empty where the write does not cross the end.
pub fn write_segments(cap: usize, pos: usize, rows: usize) -> (segs: (Seg, Seg))
    requires
        pos + rows <= usize::MAX,
    ensures
        segs.0.src == 0,
        segs.0.dst == ring_row_of(cap as int, pos as int),
        segs.0.n == rows_before_wrap(cap as int, pos as int, rows as int),
        segs.0.n + segs.1.n == rows,
        segs.1.n > 0 ==> segs.1.src == segs.0.n && segs.1.dst == 0,
{
    let at: usize = ring_row(cap, pos);
    proof {
        if cap > 0 {
            lemma_mod_decreases(pos as nat, cap as nat);
        }
    }
    if cap > 0 && at + rows > cap {
        let first: usize = cap - at;
        (Seg { src: 0, dst: at, n: first }, Seg { src: first, dst: 0, n: rows - first })
    } else {
        (Seg { src: 0, dst: at, n: rows }, Seg { src: 0, dst: 0, n: 0 })
    }
}

/// The source row that a write leaves in cache row `c`, or -1 where it leaves the row alone. Rows
/// written after the wrap win.
pub open spec fn landing(cap: int, pos: int, rows: int, c: int) -> int {
    let first = rows_before_wrap(cap, pos, rows);
    if c < rows - first {
        first + c
    } else if pos % cap <= c < pos % cap + first {
        c - pos % cap
    } else {
        -1
    }
}

/// `new` is the cache after the write: every row of `rs` elements holds the source row that landed
/// in it, or what it held before; nothing behind the `cap` rows changed.
pub open spec fn is_ring_write<T>(
    old_cache: Seq<T>,
    new: Seq<T>,
    src: Seq<T>,
    rs: int,
    cap: int,
    pos: int,
    rows: int,
) -> bool {
    &&& new.len() == old_cache.len()
    &&& forall|c: int, j: int|
        0 <= c < cap && 0 <= j < rs ==> #[trigger] at(new, rs, c, j) == (if landing(cap, pos, rows, c) >= 0 {
            at(src, rs, landing(cap, pos, rows, c), j)
        } else {
            at(old_cache, rs, c, j)
        })
    &&& forall|i: int| cap * rs <= i < new.len() ==> #[trigger] new[i] == old_cache[i]
}

/// An element lies in the run of rows that its row lies in.
proof fn lemma_row_in_run(rs: int, c: int, j: int, lo: int, n: int)
    requires
        0 <= c,
        0 <= j < rs,
        0 <= lo,
        0 <= n,
    ensures
        lo * rs <= c * rs + j < lo * rs + n * rs <==> lo <= c < lo + n,
        0 <= c * rs,
{
    assert(0 <= c * rs) by (nonlinear_arith)
        requires
            0 <= c,
            0 < rs,
    ;
    if lo <= c < lo + n {
        assert(lo * rs <= c * rs) by (nonlinear_arith)
            requires
                lo <= c,
                0 < rs,
        ;
        assert(c * rs + rs <= lo * rs + n * rs) by (nonlinear_arith)
            requires
                c + 1 <= lo + n,
                0 < rs,
        ;
    } else if c < lo {
        assert(c * rs + rs <= lo * rs) by (nonlinear_arith)
            requires
                c + 1 <= lo,
                0 < rs,
        ;
    } else {
        assert(lo * rs + n * rs <= c * rs) by (nonlinear_arith)
            requires
                lo + n <= c,
                0 < rs,
        ;
    }
}

/// Writes `rows` rows of `rs` elements into a ring cache of `cap` rows, the first at position
/// `pos`.
pub fn write_kv<T: Copy>(cache: &mut Vec<T>, src: &[T], rs: usize, cap: usize, pos: usize, rows: usize)
    requires
        0 < cap,
        cap * rs <= old(cache)@.len(),
        rows * rs <= src@.len(),
        pos + rows <= usize::MAX,
        pos % cap + rows <= 2 * cap,
    ensures
        is_ring_write(old(cache)@, final(cache)@, src@, rs as int, cap as int, pos as int, rows as int),
{
    let ghost before = cache@;
    let clen: usize = cache.len();
    let slen: usize = src.len();
    let (a, b) = write_segments(cap, pos, rows);
    proof {
        lemma_mod_bound(pos as int, cap as int);
        assert(a.dst + a.n <= cap);
        assert(b.n <= cap);
        assert((a.dst + a.n) * rs <= cap * rs) by (nonlinear_arith)
            requires
                a.dst + a.n <= cap,
        ;
        assert(b.n * rs <= cap * rs) by (nonlinear_arith)
            requires
                b.n <= cap,
        ;
        assert((a.dst + a.n) * rs == a.dst * rs + a.n * rs) by (nonlinear_arith);
        assert((a.n + b.n) * rs == a.n * rs + b.n * rs) by (nonlinear_arith);
        assert(0 <= a.dst * rs && 0 <= a.n * rs && 0 <= b.n * rs) by (nonlinear_arith);
    }
    copy_run(cache, a.dst * rs, src, 0, a.n * rs);
    let ghost mid = cache@;
    if b.n > 0 {
        copy_run(cache, 0, src, a.n * rs, b.n * rs);
    }
    proof {
        let pr = pos as int % cap as int;
        let first = a.n as int;
        assert forall|c: int, j: int| 0 <= c < cap && 0 <= j < rs implies #[trigger] at(cache@, rs as int, c, j) == (
        if landing(cap as int, pos as int, rows as int, c) >= 0 {
            at(src@, rs as int, landing(cap as int, pos as int, rows as int, c), j)
        } else {
            at(before, rs as int, c, j)
        }) by {
            lemma_row_in_run(rs as int, c, j, pr, first);
            lemma_row_in_run(rs as int, c, j, 0, b.n as int);
            lemma_row_in_run(rs as int, c, j, 0, cap as int);
            let i = c * rs + j;
            assert(0 * rs == 0) by (nonlinear_arith);
            if c < b.n {
                assert(cache@[i] == src@[a.n * rs + (i - 0)]);
                assert((first + c) * rs == first * rs + c * rs) by (nonlinear_arith);
            } else {
                assert(cache@[i] == mid[i]);
                if pr <= c < pr + first {
                    assert(mid[i] == src@[0 + (i - pr * rs)]);
                    assert((c - pr) * rs == c * rs - pr * rs) by (nonlinear_arith);
                }
            }
        }
    }
}

/// A row that is written at most once: the source row that lands in the cache row of position
/// `pos + i` is row `i`.
pub proof fn law_write_lands_at_ring_row(cap: int, pos: int, rows: int, i: int)
    requires
        0 < cap,
        0 <= pos,
        0 <= i < rows <= cap,
    ensures
        landing(cap, pos, rows, ring_row_of(cap, pos + i)) == i,
{
    let pr = pos % cap;
    lemma_fundamental_div_mod(pos, cap);
    let q = pos / cap;
    if pr + i < cap {
        assert(pos + i == q * cap + (pr + i)) by (nonlinear_arith)
            requires
                pos == cap * q + pr,
        ;
        lemma_fundamental_div_mod_converse(pos + i, cap, q, pr + i);
    } else {
        assert(pos + i == (q + 1) * cap + (pr + i - cap)) by (nonlinear_arith)
            requires
                pos == cap * q + pr,
        ;
        lemma_fundamental_div_mod_converse(pos + i, cap, q + 1, pr + i - cap);
    }
}

/// Where the cache has room for every position, a write is one piece in the rows of its positions.
pub proof fn law_full_cache_write_is_plain(cap: int, pos: int, rows: int, c: int)
    requires
        0 <= pos,
        0 <= rows,
        pos + rows <= cap,
        0 <= c < cap,
    ensures
        rows > 0 ==> ring_row_of(cap, pos) == pos,
        rows > 0 ==> rows_before_wrap(cap, pos, rows) == rows,
        landing(cap, pos, rows, c) == if pos <= c < pos + rows {
            c - pos
        } else {
            -1
        },
{
    if pos < cap {
        lemma_small_mod(pos as nat, cap as nat);
    }
}

/// A write of no more rows than the ring has leaves alone the rows of the positions that it does
/// not recycle.
pub proof fn law_write_keeps_recent_rows(cap: int, pos: int, rows: int, p: int)
    requires
        0 < cap,
        0 <= p < pos,
        0 <= rows,
        pos + rows - cap <= p,
    ensures
        landing(cap, pos, rows, ring_row_of(cap, p)) == -1,
{
    let back = pos - p;
    let pr = pos % cap;
    lemma_fundamental_div_mod(pos, cap);
    let q = pos / cap;
    if pr >= back {
        assert(p == q * cap + (pr - back)) by (nonlinear_arith)
            requires
                pos == cap * q + pr,
                back == pos - p,
        ;
        lemma_fundamental_div_mod_converse(p, cap, q, pr - back);
    } else {
        assert(p == (q - 1) * cap + (pr - back + cap)) by (nonlinear_arith)
            requires
                pos == cap * q + pr,
                back == pos - p,
        ;
        lemma_fundamental_div_mod_converse(p, cap, q - 1, pr - back + cap);
    }
}

/// The cache holds the most recent `cap` of the rows written so far, each in the row of its
/// position.
pub open spec fn ring_holds<T>(cache: Seq<T>, written: Seq<Seq<T>>, rs: int, cap: int) -> bool {
    forall|p: int, j: int|
        0 <= p < written.len() && written.len() - cap <= p && 0 <= j < rs ==> #[trigger] at(
            cache,
            rs,
            ring_row_of(cap, p),
            j,
        ) == written[p][j]
}

/// The rows of a source buffer.
pub open spec fn source_rows<T>(src: Seq<T>, rs: int, rows: int) -> Seq<Seq<T>> {
    Seq::new(rows as nat, |i: int| Seq::new(rs as nat, |j: int| at(src, rs, i, j)))
}

/// A write that follows on the rows written so far keeps the cache a faithful ring: afterwards it
/// holds the most recent `cap` rows, the new ones among them.
pub proof fn law_ring_write_then_read<T>(
    old_cache: Seq<T>,
    new: Seq<T>,
    written: Seq<Seq<T>>,
    src: Seq<T>,
    rs: int,
    cap: int,
    rows: int,
)
    requires
        0 < cap,
        0 <= rs,
        0 <= rows <= cap,
        ring_holds(old_cache, written, rs, cap),
        is_ring_write(old_cache, new, src, rs, cap, written.len() as int, rows),
    ensures
        ring_holds(new, written + source_rows(src, rs, rows), rs, cap),
{
    let pos = written.len() as int;
    let all = written + source_rows(src, rs, rows);
    assert forall|p: int, j: int| 0 <= p < all.len() && all.len() - cap <= p && 0 <= j < rs implies #[trigger] at(
        new,
        rs,
        ring_row_of(cap, p),
        j,
    ) == all[p][j] by {
        let c = ring_row_of(cap, p);
        lemma_mod_bound(p, cap);
        if p < pos {
            law_write_keeps_recent_rows(cap, pos, rows, p);
            assert(at(new, rs, c, j) == at(old_cache, rs, c, j));
        } else {
            law_write_lands_at_ring_row(cap, pos, rows, p - pos);
            assert(at(new, rs, c, j) == at(src, rs, p - pos, j));
        }
    }
}

/// Which keys a query attends to.
#[derive(Clone, Copy)]
pub enum AttnMask {
    /// Every position up to the query's own.
    Causal,
    /// The last so many positions up to the query's own; 0 sets no limit.
    SlidingWindow(usize),
    /// The positions from `lo` to the end, whatever the query's position.
    Canvas { lo: usize },
}

/// The keys that a query at position `abs` attends to: from the first number up to, not including,
/// the second.
pub open spec fn attn_range_of(mask: AttnMask, kv_len: int, abs: int) -> (int, int) {
    match mask {
        AttnMask::Causal => (0, abs + 1),
        AttnMask::SlidingWindow(w) => (
            if w > 0 && abs + 1 > w {
                abs + 1 - w
            } else {
                0
            },
            abs + 1,
        ),
        AttnMask::Canvas { lo } => (lo as int, kv_len),
    }
}

/// Whether the mask lets a query at position `abs` see the key of position `j`.
pub open spec fn may_see(mask: AttnMask, kv_len: int, abs: int, j: int) -> bool {
    attn_range_of(mask, kv_len, abs).0 <= j < attn_range_of(mask, kv_len, abs).1
}

/// The keys that a query attends to.
pub fn attn_range(mask: AttnMask, kv_len: usize, abs: usize) -> (r: (usize, usize))
    requires
        abs < usize::MAX,
    ensures
        (r.0 as int, r.1 as int) == attn_range_of(mask, kv_len as int, abs as int),
{
    match mask {
        AttnMask::Causal => (0, abs + 1),
        AttnMask::SlidingWindow(w) => {
            let lo: usize = if w > 0 && abs + 1 > w {
                abs + 1 - w
            } else {
                0
            };
            (lo, abs + 1)
        },
        AttnMask::Canvas { lo } => (lo, kv_len),
    }
}

/// A sliding window of `w` holds the query's own position and at most `w` keys.
pub proof fn law_window_holds_the_query(w: usize, kv_len: int, abs: int)
    requires
        0 <= abs,
    ensures
        ({
            let (lo, hi) = attn_range_of(AttnMask::SlidingWindow(w), kv_len, abs);
            &&& w > 0 ==> lo <= abs < hi && hi - lo <= w
            &&& w == 0 ==> (lo, hi) == attn_range_of(AttnMask::Causal, kv_len, abs)
        }),
{
}

/// Reads through a ring are exact: where the ring has room for the window and the rows of one
/// write, every key that a query of that write attends to is still in the cache, in the row of its
/// position.
pub proof fn law_window_reads_are_exact<T>(
    cache: Seq<T>,
    written: Seq<Seq<T>>,
    rs: int,
    cap: int,
    w: usize,
    rows: int,
    abs: int,
    key: int,
    j: int,
)
    requires
        0 < w,
        0 < rows,
        w + rows - 1 <= cap,
        ring_holds(cache, written, rs, cap),
        written.len() - rows <= abs < written.len(),
        0 <= abs,
        attn_range_of(AttnMask::SlidingWindow(w), written.len() as int, abs).0 <= key,
        key < attn_range_of(AttnMask::SlidingWindow(w), written.len() as int, abs).1,
        0 <= j < rs,
    ensures
        at(cache, rs, ring_row_of(cap, key), j) == written[key][j],
{
    assert(0 <= key < written.len() && written.len() - cap <= key);
}

/// One attention head of one query row: which query row, which head, which key/value head it
/// shares, where its query starts, and the query's position.
#[derive(Clone, Copy)]
pub struct HeadPlan {
    pub row: usize,
    pub head: usize,
    pub kv_head: usize,
    pub q_at: usize,
    pub abs: usize,
}

/// The plan of output slice `i`: slices run over the heads of a row, then over the rows, and
/// consecutive heads share a key/value head.
pub fn head_plan(i: usize, n_head: usize, n_kv: usize, head_dim: usize, pos: usize) -> (r: HeadPlan)
    requires
        0 < n_kv <= n_head,
        i * head_dim <= usize::MAX,
        pos + i <= usize::MAX,
    ensures
        r.row == i as int / n_head as int,
        r.head == i as int % n_head as int,
        r.kv_head == r.head as int / (n_head as int / n_kv as int),
        r.q_at == i * head_dim,
        r.abs == pos + r.row,
{
    proof {
        assert(n_head as int / n_kv as int >= 1) by (nonlinear_arith)
            requires
                0 < n_kv <= n_head,
        ;
        assert(i as int / n_head as int <= i) by (nonlinear_arith)
            requires
                0 < n_head,
        ;
    }
    let group: usize = n_head / n_kv;
    let row: usize = i / n_head;
    let head: usize = i % n_head;
    HeadPlan { row, head, kv_head: head / group, q_at: i * head_dim, abs: pos + row }
}

/// Where the key or value of position `j` and head `kv_head` starts in the cache.
pub fn key_at(cap: usize, j: usize, n_kv: usize, kv_head: usize, head_dim: usize) -> (r: usize)
    requires
        kv_head < n_kv,
        (ring_row_of(cap as int, j as int) * n_kv + n_kv) * head_dim <= usize::MAX,
        ring_row_of(cap as int, j as int) * n_kv + n_kv <= usize::MAX,
    ensures
        r == key_place(cap as int, j as int, n_kv as int, kv_head as int, head_dim as int),
{
    let row: usize = ring_row(cap, j);
    proof {
        assert(0 <= row * n_kv) by (nonlinear_arith);
        assert((row * n_kv + kv_head) * head_dim <= (row * n_kv + n_kv) * head_dim) by (nonlinear_arith)
            requires
                kv_head < n_kv,
        ;
        assert(0 <= (row * n_kv + kv_head) * head_dim) by (nonlinear_arith)
            requires
                0 <= row * n_kv,
        ;
    }
    (row * n_kv + kv_head) * head_dim
}

/// The start of the key or value of position `j` and head `kv_head`.
pub open spec fn key_place(cap: int, j: int, n_kv: int, kv_head: int, head_dim: int) -> int {
    (ring_row_of(cap, j) * n_kv + kv_head) * head_dim
}

/// The rows of a cache of `cap` rows that `kv_len` positions have filled.
pub open spec fn filled_rows(kv_len: int, cap: int) -> int {
    if kv_len < cap {
        kv_len
    } else {
        cap
    }
}

/// A key lies in the filled part of the cache: that of a position that was written, and that of any
/// position where the ring is full.
pub proof fn law_keys_are_filled(kv_len: int, cap: int, j: int, n_kv: int, kv_head: int, head_dim: int)
    requires
        0 < cap,
        0 <= j,
        j < kv_len || cap <= kv_len,
        0 <= kv_head < n_kv,
        0 <= head_dim,
    ensures
        0 <= key_place(cap, j, n_kv, kv_head, head_dim),
        key_place(cap, j, n_kv, kv_head, head_dim) + head_dim <= filled_rows(kv_len, cap) * (n_kv * head_dim),
{
    let rows = filled_rows(kv_len, cap);
    let c = ring_row_of(cap, j);
    lemma_mod_bound(j, cap);
    if kv_len < cap {
        lemma_small_mod(j as nat, cap as nat);
    }
    assert(0 <= c * n_kv && c * n_kv + n_kv <= rows * n_kv) by (nonlinear_arith)
        requires
            0 <= c,
            c + 1 <= rows,
            0 < n_kv,
    ;
    let at = c * n_kv + kv_head;
    assert(0 <= at * head_dim && at * head_dim + head_dim <= (rows * n_kv) * head_dim) by (nonlinear_arith)
        requires
            0 <= at,
            at + 1 <= rows * n_kv,
            0 <= head_dim,
    ;
    assert((rows * n_kv) * head_dim == rows * (n_kv * head_dim)) by (nonlinear_arith);
}

/// `places` are the starts of the keys of the positions `lo` up to `hi`, one after the other.
pub open spec fn are_key_places(
    places: Seq<usize>,
    lo: int,
    hi: int,
    cap: int,
    n_kv: int,
    kv_head: int,
    head_dim: int,
) -> bool {
    &&& places.len() == hi - lo
    &&& forall|k: int|
        0 <= k < places.len() ==> #[trigger] places[k] == key_place(cap, lo + k, n_kv, kv_head, head_dim)
}

/// The starts of the keys of the positions `lo` up to `hi`, of a cache of `cap` rows of which
/// `kv_len` positions were written.
pub fn key_places(lo: usize, hi: usize, kv_len: usize, cap: usize, n_kv: usize, kv_head: usize, head_dim: usize) -> (r:
    Vec<usize>)
    requires
        lo <= hi,
        lo < hi ==> 0 < cap,
        hi <= kv_len || cap <= kv_len,
        kv_head < n_kv,
        cap * (n_kv * head_dim) <= usize::MAX,
        cap * n_kv <= usize::MAX,
    ensures
        are_key_places(r@, lo as int, hi as int, cap as int, n_kv as int, kv_head as int, head_dim as int),
{
    let mut r: Vec<usize> = Vec::new();
    let mut j: usize = lo;
    while j < hi
        invariant
            lo <= j <= hi,
            lo < hi ==> 0 < cap,
            kv_head < n_kv,
            cap * (n_kv * head_dim) <= usize::MAX,
            cap * n_kv <= usize::MAX,
            are_key_places(r@, lo as int, j as int, cap as int, n_kv as int, kv_head as int, head_dim as int),
        decreases hi - j,
    {
        proof {
            let c = ring_row_of(cap as int, j as int);
            lemma_mod_bound(j as int, cap as int);
            assert(0 <= c * n_kv && c * n_kv + n_kv <= cap * n_kv) by (nonlinear_arith)
                requires
                    0 <= c,
                    c + 1 <= cap,
                    0 < n_kv,
            ;
            assert((c * n_kv + n_kv) * head_dim <= (cap * n_kv) * head_dim) by (nonlinear_arith)
                requires
                    c * n_kv + n_kv <= cap * n_kv,
            ;
            assert((cap * n_kv) * head_dim == cap * (n_kv * head_dim)) by (nonlinear_arith);
        }
        r.push(key_at(cap, j, n_kv, kv_head, head_dim));
        j = j + 1;
    }
    r
}

/// The runs of `head_dim` elements of a cache that start at the given places.
pub open spec fn heads_at<T>(cache: Seq<T>, places: Seq<usize>, head_dim: int) -> Seq<Seq<T>> {
    Seq::new(places.len(), |k: int| cache.subrange(places[k] as int, places[k] + head_dim))
}

/// The keys or values that start at the given places of a cache.
pub fn read_heads<T: Copy>(cache: &[T], places: &Vec<usize>, head_dim: usize) -> (r: Vec<Vec<T>>)
    requires
        forall|k: int| 0 <= k < places@.len() ==> #[trigger] places@[k] + head_dim <= cache@.len(),
    ensures
        r@.len() == places@.len(),
        forall|k: int| 0 <= k < r@.len() ==> (#[trigger] r@[k])@ == heads_at(cache@, places@, head_dim as int)[k],
{
    let mut r: Vec<Vec<T>> = Vec::new();
    let mut k: usize = 0;
    while k < places.len()
        invariant
            k <= places@.len(),
            forall|q: int| 0 <= q < places@.len() ==> #[trigger] places@[q] + head_dim <= cache@.len(),
            r@.len() == k,
            forall|q: int| 0 <= q < k ==> (#[trigger] r@[q])@ == heads_at(cache@, places@, head_dim as int)[q],
        decreases places@.len() - k,
    {
        let start: usize = places[k];
        let len: usize = cache.len();
        let mut run: Vec<T> = Vec::new();
        let mut e: usize = 0;
        while e < head_dim
            invariant
                e <= head_dim,
                len == cache@.len(),
                start + head_dim <= len,
                run@ == cache@.subrange(start as int, start + e),
            decreases head_dim - e,
        {
            run.push(cache[start + e]);
            e = e + 1;
            assert(run@ =~= cache@.subrange(start as int, start + e));
        }
        r.push(run);
        k = k + 1;
    }
    r
}

/// A key or value of a position that the mask lets the query see starts at place `p`.
pub open spec fn is_seen_key(
    p: int,
    mask: AttnMask,
    kv_len: int,
    abs: int,
    cap: int,
    n_kv: int,
    kv_head: int,
    head_dim: int,
) -> bool {
    exists|j: int| #[trigger] may_see(mask, kv_len, abs, j) && p == key_place(cap, j, n_kv, kv_head, head_dim)
}

/// A query reads nothing outside its mask: every place that it reads belongs to a position that the
/// mask allows, and two caches that agree on the rows of those positions give it the same keys or
/// values, whatever else they hold.
pub proof fn law_masked_keys_unread<T>(
    a: Seq<T>,
    b: Seq<T>,
    places: Seq<usize>,
    mask: AttnMask,
    kv_len: int,
    abs: int,
    cap: int,
    n_kv: int,
    kv_head: int,
    head_dim: int,
)
    requires
        attn_range_of(mask, kv_len, abs).0 < attn_range_of(mask, kv_len, abs).1 ==> 0 < cap,
        0 <= kv_head < n_kv,
        0 <= head_dim,
        0 <= abs,
        attn_range_of(mask, kv_len, abs).0 <= attn_range_of(mask, kv_len, abs).1,
        attn_range_of(mask, kv_len, abs).1 <= kv_len || cap <= kv_len,
        are_key_places(
            places,
            attn_range_of(mask, kv_len, abs).0,
            attn_range_of(mask, kv_len, abs).1,
            cap,
            n_kv,
            kv_head,
            head_dim,
        ),
        filled_rows(kv_len, cap) * (n_kv * head_dim) <= a.len(),
        filled_rows(kv_len, cap) * (n_kv * head_dim) <= b.len(),
        forall|j: int, e: int|
            may_see(mask, kv_len, abs, j) && 0 <= e < n_kv * head_dim ==> #[trigger] at(
                a,
                n_kv * head_dim,
                ring_row_of(cap, j),
                e,
            ) == at(
                b,
                n_kv * head_dim,
                ring_row_of(cap, j),
                e,
            ),
    ensures
        forall|k: int|
            0 <= k < places.len() ==> is_seen_key(
                #[trigger] places[k] as int,
                mask,
                kv_len,
                abs,
                cap,
                n_kv,
                kv_head,
                head_dim,
            ),
        heads_at(a, places, head_dim) == heads_at(b, places, head_dim),
{
    let (lo, hi) = attn_range_of(mask, kv_len, abs);
    let rs = n_kv * head_dim;
    let x = heads_at(a, places, head_dim);
    let y = heads_at(b, places, head_dim);
    assert forall|k: int| 0 <= k < places.len() implies x[k] == y[k] by {
        let j = lo + k;
        let c = ring_row_of(cap, j);
        let p = key_place(cap, j, n_kv, kv_head, head_dim);
        assert(places[k] == p);
        law_keys_are_filled(kv_len, cap, j, n_kv, kv_head, head_dim);
        assert(p == c * rs + kv_head * head_dim) by (nonlinear_arith)
            requires
                p == (c * n_kv + kv_head) * head_dim,
                rs == n_kv * head_dim,
        ;
        assert(0 <= kv_head * head_dim && kv_head * head_dim + head_dim <= rs) by (nonlinear_arith)
            requires
                0 <= kv_head,
                kv_head + 1 <= n_kv,
                0 <= head_dim,
                rs == n_kv * head_dim,
        ;
        assert forall|e: int| 0 <= e < head_dim implies x[k][e] == y[k][e] by {
            assert(at(a, rs, c, kv_head * head_dim + e) == at(b, rs, c, kv_head * head_dim + e));
        }
        assert(x[k] =~= y[k]);
    }
    assert(x =~= y);
    assert forall|k: int| 0 <= k < places.len() implies is_seen_key(
        #[trigger] places[k] as int,
        mask,
        kv_len,
        abs,
        cap,
        n_kv,
        kv_head,
        head_dim,
    ) by {
        assert(may_see(mask, kv_len, abs, lo + k));
    }
}

/// How a cache of a type stores its elements.
#[derive(Clone, Copy, PartialEq, Eq, Structural, Debug)]
pub enum CacheKind {
    /// 16-bit numbers with a short exponent.
    Half,
    /// 16-bit numbers with the exponent of a 32-bit one.
    Brain,
    /// Packed blocks of 32.
    Blocks,
    /// Rotated blocks of 128.
    Rotated,
    /// 32-bit numbers.
    Plain,
}

/// How a cache of the type stores its elements.
pub open spec fn cache_kind_of(dt: DType) -> CacheKind {
    match dt {
        DType::F16 => CacheKind::Half,
        DType::Bf16 => CacheKind::Brain,
        DType::Q8_0 | DType::Q4_0 | DType::Q4_1 | DType::Q5_0 | DType::Q5_1 | DType::Iq4Nl => CacheKind::Blocks,
        DType::Turbo2 | DType::Turbo3 | DType::Turbo4 => CacheKind::Rotated,
        _ => CacheKind::Plain,
    }
}

/// How a cache of the type stores its elements.
pub fn cache_kind(dt: DType) -> (r: CacheKind)
    ensures
        r == cache_kind_of(dt),
{
    match dt {
        DType::F16 => CacheKind::Half,
        DType::Bf16 => CacheKind::Brain,
        DType::Q8_0 | DType::Q4_0 | DType::Q4_1 | DType::Q5_0 | DType::Q5_1 | DType::Iq4Nl => CacheKind::Blocks,
        DType::Turbo2 | DType::Turbo3 | DType::Turbo4 => CacheKind::Rotated,
        _ => CacheKind::Plain,
    }
}

/// The number of rows of `row_elems` elements that a cache of `numel` elements holds.
pub fn cap_rows(numel: usize, row_elems: usize) -> (r: usize)
    ensures
        row_elems > 0 ==> r == numel as int / row_elems as int,
        row_elems == 0 ==> r == numel,
{
    if row_elems > 0 {
        numel / row_elems
    } else {
        numel
    }
}

/// The number of cache elements that attention reads: the rows that are filled.
pub fn kv_need(kv_len: usize, cap: usize, row_elems: usize) -> (r: usize)
    requires
        cap * row_elems <= usize::MAX,
    ensures
        r == (if kv_len < cap {
            kv_len
        } else {
            cap
        }) * row_elems,
{
    let n: usize = if kv_len < cap {
        kv_len
    } else {
        cap
    };
    proof {
        assert(n * row_elems <= cap * row_elems) by (nonlinear_arith)
            requires
                n <= cap,
        ;
    }
    n * row_elems
}

/// The scale bits and the signed code of the first `need` elements of a run of Q8_0 blocks.
pub fn dequant_prefix_q8_0(bytes: &[u8], need: usize) -> (out: Vec<(u16, i8)>)
    requires
        need + 31 <= usize::MAX,
        ((need + 31) / 32) * 34 <= bytes@.len(),
    ensures
        out@.len() == need,
        forall|i: int|
            0 <= i < need ==> (#[trigger] out@[i]).0 == le16_of(bytes@, 34 * (i / 32)) && out@[i].1 == signed_of(
                bytes@[34 * (i / 32) + 2 + i % 32],
            ),
{
    let len: usize = bytes.len();
    let mut out: Vec<(u16, i8)> = Vec::new();
    let mut i: usize = 0;
    while i < need
        invariant
            i <= need,
            len == bytes@.len(),
            ((need + 31) / 32) * 34 <= len,
            out@.len() == i,
            forall|k: int|
                0 <= k < i ==> (#[trigger] out@[k]).0 == le16_of(bytes@, 34 * (k / 32)) && out@[k].1 == signed_of(
                    bytes@[34 * (k / 32) + 2 + k % 32],
                ),
        decreases need - i,
    {
        let off: usize = 34 * (i / 32);
        assert(off + 34 <= len);
        out.push((le16(bytes, off), signed(bytes[off + 2 + i % 32])));
        i = i + 1;
    }
    out
}

/// The rows of a ring are taken in turn: a position below the capacity has the row of its own
/// number, and a turn later the row is the same. Without a capacity every position has its own row.
pub proof fn law_ring_rows_repeat(cap: usize, p: usize, q: usize, rp: usize, rq: usize)
    requires
        call_ensures(ring_row, (cap, p), rp),
        call_ensures(ring_row, (cap, q), rq),
    ensures
        p < cap || cap == 0 ==> rp == p,
        0 < cap ==> rp < cap,
        q == p + cap ==> rq == if cap == 0 {
            q
        } else {
            rp
        },
        0 < cap && q == p + 1 ==> rq == if rp + 1 < cap {
            (rp + 1) as usize
        } else {
            0
        },
{
    if 0 < cap {
        lemma_mod_bound(p as int, cap as int);
        lemma_mod_bound(q as int, cap as int);
        if p < cap {
            lemma_small_mod(p as nat, cap as nat);
        }
        lemma_turns(cap as int, p as int);
        let k = p as int / cap as int;
        if q == p + cap {
            assert((k + 1) * cap == k * cap + cap) by (nonlinear_arith);
            vstd::arithmetic::div_mod::lemma_fundamental_div_mod_converse(q as int, cap as int, k + 1, rp as int);
        }
        if q == p + 1 {
            if rp + 1 < cap {
                vstd::arithmetic::div_mod::lemma_fundamental_div_mod_converse(q as int, cap as int, k, rp + 1);
            } else {
                assert((k + 1) * cap == k * cap + cap) by (nonlinear_arith);
                vstd::arithmetic::div_mod::lemma_fundamental_div_mod_converse(q as int, cap as int, k + 1, 0);
            }
        }
    }
}

/// A position is a number of turns and a row.
proof fn lemma_turns(cap: int, p: int)
    requires
        0 < cap,
    ensures
        p == (p / cap) * cap + p % cap,
        0 <= p % cap < cap,
{
    vstd::arithmetic::div_mod::lemma_fundamental_div_mod(p, cap);
    lemma_mod_bound(p, cap);
    assert(cap * (p / cap) == (p / cap) * cap) by (nonlinear_arith);
}

/// The position after `turns` turns and `c` rows is in row `c`.
proof fn lemma_row_after_turns(cap: int, p: int, turns: int, c: int)
    requires
        0 <= c < cap,
        p == turns * cap + c,
    ensures
        p % cap == c,
        ring_row_of(cap, p) == c,
{
    vstd::arithmetic::div_mod::lemma_fundamental_div_mod_converse(p, cap, turns, c);
}

/// A write is cut where the ring ends: the first run starts in the row of its position and takes the
/// rows up to the end of the ring, or all; the second takes the others, from the first row of the
/// ring on. Without a capacity there is no cut.
pub proof fn law_segments_cut_at_the_end(cap: usize, pos: usize, rows: usize, segs: (Seg, Seg), r0: usize)
    requires
        call_ensures(write_segments, (cap, pos, rows), segs),
        call_ensures(ring_row, (cap, pos), r0),
    ensures
        segs.0.src == 0,
        segs.0.dst == r0,
        segs.0.n + segs.1.n == rows,
        cap == 0 || r0 + rows <= cap ==> segs.0.n == rows,
        0 < cap < r0 + rows ==> segs.0.dst + segs.0.n == cap && segs.1.src == segs.0.n && segs.1.dst == 0,
{
}

/// Every source row has its place: row `s` goes where position `pos + s` has its row.
pub proof fn law_segments_place_every_row(
    cap: usize,
    pos: usize,
    rows: usize,
    segs: (Seg, Seg),
    s: int,
    turns: int,
    c: int,
)
    requires
        call_ensures(write_segments, (cap, pos, rows), segs),
        0 <= s < rows,
        0 < cap,
        pos as int % cap as int + rows <= 2 * cap,
        pos + s == turns * cap + c,
        0 <= c < cap,
    ensures
        s < segs.0.n ==> segs.0.dst + s == c,
        segs.0.n <= s ==> segs.1.dst + (s - segs.0.n) == c,
{
    lemma_row_after_turns(cap as int, pos + s, turns, c);
    lemma_turns(cap as int, pos as int);
    let k = pos as int / cap as int;
    let r = pos as int % cap as int;
    if s < segs.0.n {
        lemma_row_after_turns(cap as int, pos + s, k, r + s);
    } else {
        assert((k + 1) * cap == k * cap + cap) by (nonlinear_arith);
        assert(r + s - cap < cap);
        lemma_row_after_turns(cap as int, pos + s, k + 1, r + s - cap);
    }
}

/// After a write the last rows of the source stand in the rows of their positions: of row `s`, if
/// no later row of the same write took its place, every element.
pub proof fn law_written_rows_are_found<T: Copy>(
    cache: &mut Vec<T>,
    src: &[T],
    rs: usize,
    cap: usize,
    pos: usize,
    rows: usize,
    s: int,
    turns: int,
    c: int,
    j: int,
)
    requires
        call_ensures(write_kv::<T>, (cache, src, rs, cap, pos, rows), ()),
        0 < cap,
        pos as int % cap as int + rows <= 2 * cap,
        0 <= s < rows,
        rows <= s + cap,
        pos + s == turns * cap + c,
        0 <= c < cap,
        0 <= j < rs,
    ensures
        final(cache)@.len() == old(cache)@.len(),
        final(cache)@[c * rs + j] == src@[s * rs + j],
{
    lemma_row_after_turns(cap as int, pos + s, turns, c);
    lemma_turns(cap as int, pos as int);
    let k = pos as int / cap as int;
    let r = pos as int % cap as int;
    let first = rows_before_wrap(cap as int, pos as int, rows as int);
    if r + s < cap {
        lemma_row_after_turns(cap as int, pos + s, k, r + s);
    } else {
        assert((k + 1) * cap == k * cap + cap) by (nonlinear_arith);
        lemma_row_after_turns(cap as int, pos + s, k + 1, r + s - cap);
    }
    assert(landing(cap as int, pos as int, rows as int, c) == s);
    assert(at(final(cache)@, rs as int, c, j) == at(src@, rs as int, s, j));
}

/// A write leaves the rows alone that none of its positions has, and all that stands behind the
/// rows of the cache.
pub proof fn law_write_spares_other_rows<T: Copy>(
    cache: &mut Vec<T>,
    src: &[T],
    rs: usize,
    cap: usize,
    pos: usize,
    rows: usize,
    c: int,
    j: int,
    i: int,
)
    requires
        call_ensures(write_kv::<T>, (cache, src, rs, cap, pos, rows), ()),
        0 < cap,
        pos as int % cap as int + rows <= 2 * cap,
        0 <= c < cap,
        forall|s: int| 0 <= s < rows ==> #[trigger] ((pos + s) % (cap as int)) != c,
        0 <= j < rs,
    ensures
        final(cache)@.len() == old(cache)@.len(),
        final(cache)@[c * rs + j] == old(cache)@[c * rs + j],
        cap * rs <= i < old(cache)@.len() ==> final(cache)@[i] == old(cache)@[i],
{
    lemma_turns(cap as int, pos as int);
    let k = pos as int / cap as int;
    let r = pos as int % cap as int;
    let l = landing(cap as int, pos as int, rows as int, c);
    if l >= 0 {
        let first = rows_before_wrap(cap as int, pos as int, rows as int);
        if c < rows - first {
            assert((k + 1) * cap == k * cap + cap) by (nonlinear_arith);
            lemma_row_after_turns(cap as int, pos + l, k + 1, c);
        } else {
            lemma_row_after_turns(cap as int, pos + l, k, c);
        }
        assert((pos + l) % (cap as int) == c);
    }
    assert(at(final(cache)@, rs as int, c, j) == at(old(cache)@, rs as int, c, j));
}

/// What a mask means: a causal query sees its own position and all before it; under a window of `w`
/// only those less than `w` before it; on a canvas every position from its start to the end.
pub proof fn law_masks(mask: AttnMask, kv_len: usize, abs: usize, r: (usize, usize), j: int)
    requires
        call_ensures(attn_range, (mask, kv_len, abs), r),
    ensures
        mask is Causal ==> (r.0 <= j < r.1 <==> 0 <= j <= abs),
        mask matches AttnMask::SlidingWindow(w) ==> (r.0 <= j < r.1 <==> 0 <= j <= abs && (w == 0 || abs - j < w)),
        mask matches AttnMask::Canvas { lo } ==> (r.0 <= j < r.1 <==> lo <= j < kv_len) && r.0 == lo && r.1 == kv_len,
        may_see(mask, kv_len as int, abs as int, j) <==> r.0 <= j < r.1,
{
}

/// The slices of the output run over the heads of a row, then over the rows. As many consecutive
/// heads share a key/value head as there are heads to each.
pub proof fn law_head_plan(i: usize, n_head: usize, n_kv: usize, hd: usize, pos: usize, r: HeadPlan, g: int)
    requires
        call_ensures(head_plan, (i, n_head, n_kv, hd, pos), r),
        0 < n_kv <= n_head,
        g * n_kv <= n_head < (g + 1) * n_kv,
    ensures
        r.head < n_head,
        i == r.row * n_head + r.head,
        g * r.kv_head <= r.head < g * r.kv_head + g,
        n_head == g * n_kv ==> r.kv_head < n_kv,
        r.abs == pos + r.row,
        r.q_at == (r.row * n_head + r.head) * hd,
{
    vstd::arithmetic::div_mod::lemma_fundamental_div_mod(i as int, n_head as int);
    lemma_mod_bound(i as int, n_head as int);
    assert(n_head * (i as int / n_head as int) == (i as int / n_head as int) * n_head) by (nonlinear_arith);
    assert((g + 1) * n_kv == g * n_kv + n_kv) by (nonlinear_arith);
    vstd::arithmetic::div_mod::lemma_fundamental_div_mod_converse(n_head as int, n_kv as int, g, n_head - g * n_kv);
    assert(0 < g) by (nonlinear_arith)
        requires
            n_kv <= n_head,
            n_head < g * n_kv + n_kv,
            0 < n_kv,
    ;
    vstd::arithmetic::div_mod::lemma_fundamental_div_mod(r.head as int, g);
    lemma_mod_bound(r.head as int, g);
    if n_head == g * n_kv {
        assert(r.kv_head < n_kv) by (nonlinear_arith)
            requires
                g * r.kv_head <= r.head,
                r.head < g * n_kv,
                0 < g,
        ;
    }
}

/// A key starts in the cache row of its position, behind the keys of the heads before its own.
pub proof fn law_key_is_in_its_row(cap: usize, j: usize, n_kv: usize, h: usize, hd: usize, r: usize, turns: int, c: int)
    requires
        call_ensures(key_at, (cap, j, n_kv, h, hd), r),
        0 < cap ==> 0 <= c < cap && j == turns * cap + c,
        cap == 0 ==> c == j,
    ensures
        r == c * (n_kv * hd) + h * hd,
{
    if 0 < cap {
        lemma_row_after_turns(cap as int, j as int, turns, c);
    }
    assert((c * n_kv + h) * hd == c * (n_kv * hd) + h * hd) by (nonlinear_arith);
}

/// The places of a range are those of its positions, one for each and in their order.
pub proof fn law_key_places(
    lo: usize,
    hi: usize,
    kv_len: usize,
    cap: usize,
    n_kv: usize,
    h: usize,
    hd: usize,
    places: Vec<usize>,
    j: usize,
    r: usize,
)
    requires
        call_ensures(key_places, (lo, hi, kv_len, cap, n_kv, h, hd), places),
        lo <= j < hi,
        call_ensures(key_at, (cap, j, n_kv, h, hd), r),
    ensures
        places@.len() == hi - lo,
        places@[j - lo] == r,
{
}

/// There are as many places as positions, and as many heads as places.
pub proof fn law_key_counts<T: Copy>(
    lo: usize,
    hi: usize,
    kv_len: usize,
    cap: usize,
    n_kv: usize,
    h: usize,
    hd: usize,
    places: Vec<usize>,
    cache: &[T],
    r: Vec<Vec<T>>,
)
    requires
        call_ensures(key_places, (lo, hi, kv_len, cap, n_kv, h, hd), places),
        call_ensures(read_heads::<T>, (cache, &places, hd), r),
    ensures
        places@.len() == hi - lo,
        r@.len() == hi - lo,
{
}

/// A head that is read holds the elements from its place on.
pub proof fn law_heads_are_read<T: Copy>(cache: &[T], places: &Vec<usize>, hd: usize, r: Vec<Vec<T>>, k: int, e: int)
    requires
        call_ensures(read_heads::<T>, (cache, places, hd), r),
        0 <= k < places@.len(),
        0 <= e < hd,
        places@[k] + hd <= cache@.len(),
    ensures
        r@.len() == places@.len(),
        r@[k]@.len() == hd,
        r@[k]@[e] == cache@[places@[k] + e],
{
    assert(r@[k]@ == heads_at(cache@, places@, hd as int)[k]);
}

/// Each kind of cache has its types: halves and brain floats one each, packed blocks those that
/// rows can be packed to and the 8-bit blocks, and plain numbers whatever is left.
pub proof fn law_cache_kinds(dt: DType, r: CacheKind, packs: bool)
    requires
        call_ensures(cache_kind, (dt,), r),
        call_ensures(crate::kvquant::supported, (dt,), packs),
    ensures
        r is Half <==> dt is F16,
        r is Brain <==> dt is Bf16,
        r is Blocks <==> packs || dt is Q8_0,
        r is Rotated <==> dt is Turbo2 || dt is Turbo3 || dt is Turbo4,
{
}

/// As many rows as fit whole, and as many elements as the written rows have, or as the cache has.
pub proof fn law_cache_sizes(numel: usize, rs: usize, cap: usize, kv_len: usize, need: usize)
    requires
        call_ensures(cap_rows, (numel, rs), cap),
        call_ensures(kv_need, (kv_len, cap, rs), need),
    ensures
        0 < rs ==> cap * rs <= numel < cap * rs + rs,
        rs == 0 ==> cap == numel,
        kv_len <= cap ==> need == kv_len * rs,
        cap <= kv_len ==> need == cap * rs,
{
    if 0 < rs {
        lemma_turns(rs as int, numel as int);
    }
}

/// Element `e` of block `b` of a Q8_0 prefix: the two bytes of the block's scale, low first, and the
/// element's byte as a signed number.
pub proof fn law_q8_0_prefix(bytes: &[u8], need: usize, out: Vec<(u16, i8)>, b: int, e: int)
    requires
        call_ensures(dequant_prefix_q8_0, (bytes, need), out),
        0 <= b,
        0 <= e < 32,
        32 * b + e < need,
    ensures
        out@.len() == need,
        out@[32 * b + e].0 as int % 256 == bytes@[34 * b],
        out@[32 * b + e].0 as int / 256 == bytes@[34 * b + 1],
        (out@[32 * b + e].1 - bytes@[34 * b + 2 + e]) % 256 == 0,
{
    let i = 32 * b + e;
    assert(i / 32 == b && i % 32 == e);
    assert(out@[i].0 == le16_of(bytes@, 34 * (i / 32)));
}

} // verus!
