//! The rows of a weight tensor that a projection reads.
use vstd::prelude::*;
use vstd::arithmetic::div_mod::{lemma_fundamental_div_mod, lemma_mod_bound};
use crate::bits::{block, block_of};

verus! {

/// The number of bytes of a row: the bytes of a tensor of `numel` elements are split evenly over
/// its rows of `in_f` elements.
pub open spec fn row_bytes(len: int, numel: int, in_f: int) -> int {
    len / (numel / in_f)
}

/// The rows of one projection inside a weight tensor.
pub struct Window<'a> {
    /// The bytes of the rows.
    pub bytes: &'a [u8],
    /// The bytes of one row.
    pub bpr: usize,
}

/// The `out_f` rows from element `w_off` on, of a tensor of `numel` elements in rows of `in_f`.
pub fn weight_window<'a>(bytes: &'a [u8], numel: usize, in_f: usize, w_off: usize, out_f: usize) -> (w: Window<'a>)
    requires
        0 < in_f <= numel,
        w_off as int / in_f as int + out_f <= numel as int / in_f as int,
    ensures
        w.bpr == row_bytes(bytes@.len() as int, numel as int, in_f as int),
        w.bytes@.len() == out_f * w.bpr,
        forall|o: int|
            0 <= o < out_f ==> #[trigger] block_of(w.bytes@, w.bpr as int, o) == block_of(
                bytes@,
                w.bpr as int,
                w_off as int / in_f as int + o,
            ),
{
    let len: usize = bytes.len();
    proof {
        assert(1 <= numel as int / in_f as int) by (nonlinear_arith)
            requires
                0 < in_f <= numel,
        ;
    }
    let total: usize = numel / in_f;
    let bpr: usize = len / total;
    let row0: usize = w_off / in_f;
    proof {
        lemma_fundamental_div_mod(len as int, total as int);
        lemma_mod_bound(len as int, total as int);
        assert((row0 + out_f) * bpr <= total * bpr) by (nonlinear_arith)
            requires
                row0 + out_f <= total,
        ;
        assert((row0 + out_f) * bpr == row0 * bpr + out_f * bpr) by (nonlinear_arith);
        assert(0 <= row0 * bpr && 0 <= out_f * bpr) by (nonlinear_arith);
    }
    let start: usize = row0 * bpr;
    let part: &'a [u8] = vstd::slice::slice_subrange(bytes, start, (row0 + out_f) * bpr);
    proof {
        assert forall|o: int| 0 <= o < out_f implies #[trigger] block_of(part@, bpr as int, o) == block_of(
            bytes@,
            bpr as int,
            row0 + o,
        ) by {
            assert(0 <= o * bpr && o * bpr + bpr <= out_f * bpr) by (nonlinear_arith)
                requires
                    0 <= o,
                    o + 1 <= out_f,
            ;
            assert((row0 + o) * bpr == row0 * bpr + o * bpr) by (nonlinear_arith);
            assert(block_of(part@, bpr as int, o) =~= block_of(bytes@, bpr as int, row0 + o));
        }
    }
    Window { bytes: part, bpr }
}

/// Row `o` of a run of rows.
pub fn weight_row<'a>(bytes: &'a [u8], bpr: usize, o: usize) -> (row: &'a [u8])
    requires
        (o + 1) * bpr <= bytes@.len(),
    ensures
        row@ == block_of(bytes@, bpr as int, o as int),
        row@.len() == bpr,
{
    proof {
        assert((o + 1) * bpr == o * bpr + bpr) by (nonlinear_arith);
    }
    block(bytes, bpr, o)
}

/// The row of token `tok` in an embedding table of `numel` elements in rows of `ne`.
pub fn table_row<'a>(bytes: &'a [u8], numel: usize, ne: usize, tok: usize) -> (row: &'a [u8])
    requires
        0 < ne,
        tok < numel as int / ne as int,
    ensures
        row@ == block_of(
            bytes@,
            row_bytes(bytes@.len() as int, numel as int, ne as int),
            tok as int,
        ),
        row@.len() == row_bytes(bytes@.len() as int, numel as int, ne as int),
{
    let len: usize = bytes.len();
    let total: usize = numel / ne;
    let bpr: usize = len / total;
    proof {
        lemma_fundamental_div_mod(len as int, total as int);
        lemma_mod_bound(len as int, total as int);
        assert((tok + 1) * bpr <= total * bpr) by (nonlinear_arith)
            requires
                tok + 1 <= total,
        ;
    }
    weight_row(bytes, bpr, tok)
}

/// The rows of a projection are those from the offset on, byte for byte; the bytes of the tensor are
/// shared evenly by all its rows.
pub proof fn law_window_rows(
    bytes: &[u8],
    numel: usize,
    in_f: usize,
    w_off: usize,
    out_f: usize,
    w: Window,
    rows: int,
    row0: int,
    o: int,
    i: int,
)
    requires
        call_ensures(weight_window, (bytes, numel, in_f, w_off, out_f), w),
        0 < in_f <= numel,
        rows * in_f <= numel < (rows + 1) * in_f,
        row0 * in_f <= w_off < (row0 + 1) * in_f,
        row0 + out_f <= rows,
        0 <= row0,
        0 <= o < out_f,
        0 <= i < w.bpr,
    ensures
        rows * w.bpr <= bytes@.len() < rows * w.bpr + rows,
        w.bytes@.len() == out_f * w.bpr,
        w.bytes@[o * w.bpr + i] == bytes@[(row0 + o) * w.bpr + i],
{
    lemma_shared(numel as int, in_f as int, rows);
    lemma_shared(w_off as int, in_f as int, row0);
    assert(0 < rows) by (nonlinear_arith)
        requires
            in_f <= numel,
            numel < (rows + 1) * in_f,
            0 < in_f,
    ;
    let len = bytes@.len() as int;
    let bpr = w.bpr as int;
    lemma_fundamental_div_mod(len, rows);
    lemma_mod_bound(len, rows);
    assert(0 <= o * bpr && o * bpr + bpr <= out_f * bpr && 0 <= (row0 + o) * bpr && (row0 + o) * bpr + bpr
        <= rows * bpr)
        by (nonlinear_arith)
        requires
            0 <= o,
            o + 1 <= out_f,
            0 <= row0,
            row0 + o + 1 <= rows,
            0 <= bpr,
    ;
    let (a, b) = (block_of(w.bytes@, bpr, o), block_of(bytes@, bpr, row0 + o));
    assert(a == b);
    assert(a[i] == w.bytes@[o * bpr + i]);
    assert(b[i] == bytes@[(row0 + o) * bpr + i]);
}

/// The whole shares of `n` in `len`.
proof fn lemma_shared(len: int, n: int, q: int)
    requires
        0 < n,
        q * n <= len < (q + 1) * n,
    ensures
        len / n == q,
{
    assert((q + 1) * n == q * n + n) by (nonlinear_arith);
    vstd::arithmetic::div_mod::lemma_fundamental_div_mod_converse(len, n, q, len - q * n);
}

/// Row `o` is the bytes behind those of the rows before.
pub proof fn law_weight_row(bytes: &[u8], bpr: usize, o: usize, row: &[u8], i: int)
    requires
        call_ensures(weight_row, (bytes, bpr, o), row),
        (o + 1) * bpr <= bytes@.len(),
        0 <= i < bpr,
    ensures
        row@.len() == bpr,
        row@[i] == bytes@[o * bpr + i],
{
    assert((o + 1) * bpr == o * bpr + bpr && 0 <= o * bpr) by (nonlinear_arith);
}

/// The row of a token is the one of its number, of a table whose bytes its rows share evenly.
pub proof fn law_table_row(bytes: &[u8], numel: usize, ne: usize, tok: usize, row: &[u8], rows: int, i: int)
    requires
        call_ensures(table_row, (bytes, numel, ne, tok), row),
        0 < ne,
        rows * ne <= numel < (rows + 1) * ne,
        tok < rows,
        0 <= i < row@.len(),
    ensures
        rows * row@.len() <= bytes@.len() < rows * row@.len() + rows,
        row@[i] == bytes@[tok * row@.len() + i],
{
    lemma_shared(numel as int, ne as int, rows);
    let len = bytes@.len() as int;
    let n = row@.len() as int;
    lemma_fundamental_div_mod(len, rows);
    lemma_mod_bound(len, rows);
    assert(0 <= tok * n && tok * n + n <= rows * n) by (nonlinear_arith)
        requires
            tok + 1 <= rows,
            0 <= n,
    ;
}

} // verus!
