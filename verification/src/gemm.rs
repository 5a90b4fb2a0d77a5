//! Weight banks: the rows of a matrix against a batch of activation rows, eight, two or one at a
//! time.
use vstd::prelude::*;
use crate::batch::{vec_dot_q32_batch8, vec_dot_q4k_batch2, vec_dot_q4k_batch8};
use crate::bits::{block, block_of};
use crate::dispatch::{
    blk32_codes, dot_row_blk32, dot_row_super, has_blk32, has_super, is_row_batch, super_codes,
    ActsKind, Tables,
};
use crate::dtype::DType;
use crate::format::Term;
use crate::quant::{Q8, Q8x32};

verus! {

/// `out[k][r]` holds the terms of row `o0 + k` of the bank against activation row `r`, for the
/// rows `o0` up to `o1`. A row takes `bpr` bytes.
pub open spec fn is_gemm(
    dt: DType,
    tb: &Tables,
    out: Seq<Vec<Vec<Term>>>,
    wbytes: Seq<u8>,
    bpr: int,
    acts: Seq<Seq<i8>>,
    in_f: int,
    o0: int,
    o1: int,
) -> bool {
    &&& out.len() == o1 - o0
    &&& forall|k: int|
        0 <= k < out.len() ==> is_row_batch(
            dt,
            tb,
            (#[trigger] out[k])@,
            block_of(wbytes, bpr, o0 + k),
            acts,
            in_f,
        )
}

/// The bank holds `out_f` rows of `bpr` bytes, and a row holds `in_f` weights.
pub open spec fn bank_fits(dt: DType, wbytes: Seq<u8>, bpr: int, in_f: int, out_f: int) -> bool {
    &&& out_f * bpr <= wbytes.len()
    &&& in_f % dt.elems() == 0
    &&& (in_f / dt.elems()) * dt.bytes() <= bpr
}

/// Every activation row is well-formed and long enough.
pub open spec fn super_acts_fit(q8s: Seq<Q8>, in_f: int) -> bool {
    forall|r: int| 0 <= r < q8s.len() ==> (#[trigger] q8s[r]).wf() && in_f <= q8s[r].qs@.len()
}

/// Every activation row is well-formed and long enough.
pub open spec fn blk32_acts_fit(q8s: Seq<Q8x32>, in_f: int) -> bool {
    forall|r: int| 0 <= r < q8s.len() ==> (#[trigger] q8s[r]).wf() && in_f <= q8s[r].qs@.len()
}

/// Row `o` of a bank.
fn bank_row(wbytes: &[u8], bpr: usize, o: usize, Ghost(out_f): Ghost<int>) -> (row: &[u8])
    requires
        o < out_f,
        out_f * bpr <= wbytes@.len(),
    ensures
        row@ == block_of(wbytes@, bpr as int, o as int),
        row@.len() == bpr,
{
    proof {
        assert(o * bpr + bpr <= out_f * bpr) by (nonlinear_arith)
            requires
                o + 1 <= out_f,
                0 <= bpr,
        ;
    }
    block(wbytes, bpr, o)
}

/// The rows `o` to `o + 7` of a bank.
fn bank_rows8(wbytes: &[u8], bpr: usize, o: usize, Ghost(out_f): Ghost<int>) -> (rows: [&[u8]; 8])
    requires
        o + 8 <= out_f <= usize::MAX,
        out_f * bpr <= wbytes@.len(),
    ensures
        forall|i: int|
            0 <= i < 8 ==> (#[trigger] rows@[i])@ == block_of(wbytes@, bpr as int, o + i) && rows@[i]@.len() == bpr,
{
    [
        bank_row(wbytes, bpr, o, Ghost(out_f)),
        bank_row(wbytes, bpr, o + 1, Ghost(out_f)),
        bank_row(wbytes, bpr, o + 2, Ghost(out_f)),
        bank_row(wbytes, bpr, o + 3, Ghost(out_f)),
        bank_row(wbytes, bpr, o + 4, Ghost(out_f)),
        bank_row(wbytes, bpr, o + 5, Ghost(out_f)),
        bank_row(wbytes, bpr, o + 6, Ghost(out_f)),
        bank_row(wbytes, bpr, o + 7, Ghost(out_f)),
    ]
}

/// Appends the eight lists of a tile.
fn append8(out: &mut Vec<Vec<Vec<Term>>>, tile: Vec<Vec<Vec<Term>>>)
    requires
        tile@.len() == 8,
    ensures
        final(out)@ == old(out)@ + tile@,
{
    let mut rest: Vec<Vec<Vec<Term>>> = tile;
    out.append(&mut rest);
}

/// Rows `o0` up to `o1` of a bank against super-block activation rows. Q4_K rows below `tiled_end`
/// go eight at a time.
fn gemm_super(
    dt: DType,
    tb: &Tables,
    wbytes: &[u8],
    bpr: usize,
    q8s: &[Q8],
    in_f: usize,
    out_f: usize,
    o0: usize,
    o1: usize,
    tiled_end: usize,
) -> (out: Vec<Vec<Vec<Term>>>)
    requires
        has_super(dt),
        tb.wf(),
        in_f % 256 == 0,
        bank_fits(dt, wbytes@, bpr as int, in_f as int, out_f as int),
        super_acts_fit(q8s@, in_f as int),
        o0 <= o1 <= out_f,
        tiled_end <= out_f,
        0 < tiled_end ==> dt is Q4K,
    ensures
        is_gemm(dt, tb, out@, wbytes@, bpr as int, super_codes(q8s@), in_f as int, o0 as int, o1 as int),
{
    let mut out: Vec<Vec<Vec<Term>>> = Vec::new();
    let mut o: usize = o0;
    let top: usize = if o1 < tiled_end {
        o1
    } else {
        tiled_end
    };
    while top >= 8 && o <= top - 8
        invariant
            o0 <= o <= o1 <= out_f,
            top <= o1,
            top <= tiled_end,
            0 < tiled_end ==> dt is Q4K,
            in_f % 256 == 0,
            bank_fits(dt, wbytes@, bpr as int, in_f as int, out_f as int),
            super_acts_fit(q8s@, in_f as int),
            is_gemm(dt, tb, out@, wbytes@, bpr as int, super_codes(q8s@), in_f as int, o0 as int, o as int),
        decreases o1 - o,
    {
        let rows: [&[u8]; 8] = bank_rows8(wbytes, bpr, o, Ghost(out_f as int));
        let tile: Vec<Vec<Vec<Term>>> = vec_dot_q4k_batch8(rows, q8s, in_f);
        let ghost before = out@;
        append8(&mut out, tile);
        proof {
            assert forall|k: int| 0 <= k < out@.len() implies is_row_batch(
                dt,
                tb,
                (#[trigger] out@[k])@,
                block_of(wbytes@, bpr as int, o0 + k),
                super_codes(q8s@),
                in_f as int,
            ) by {
                if k < before.len() {
                    assert(out@[k] == before[k]);
                } else {
                    let i = k - before.len();
                    assert(out@[k] == tile@[i]);
                    assert(rows@[i]@ == block_of(wbytes@, bpr as int, o + i));
                }
            }
        }
        o = o + 8;
    }
    while o < o1
        invariant
            o0 <= o <= o1 <= out_f,
            has_super(dt),
            tb.wf(),
            in_f % 256 == 0,
            bank_fits(dt, wbytes@, bpr as int, in_f as int, out_f as int),
            super_acts_fit(q8s@, in_f as int),
            is_gemm(dt, tb, out@, wbytes@, bpr as int, super_codes(q8s@), in_f as int, o0 as int, o as int),
        decreases o1 - o,
    {
        let row: &[u8] = bank_row(wbytes, bpr, o, Ghost(out_f as int));
        out.push(dot_row_super(dt, tb, row, q8s, in_f));
        o = o + 1;
    }
    out
}

/// Rows `o0` up to `o1` of a bank against activation rows of 32-code blocks. Q8_0 and Q5_0 rows
/// below `tiled_end` go eight at a time.
fn gemm_blk32(
    dt: DType,
    tb: &Tables,
    wbytes: &[u8],
    bpr: usize,
    q8s: &[Q8x32],
    in_f: usize,
    out_f: usize,
    o0: usize,
    o1: usize,
    tiled_end: usize,
) -> (out: Vec<Vec<Vec<Term>>>)
    requires
        has_blk32(dt),
        tb.wf(),
        bank_fits(dt, wbytes@, bpr as int, in_f as int, out_f as int),
        blk32_acts_fit(q8s@, in_f as int),
        o0 <= o1 <= out_f,
        tiled_end <= out_f,
        0 < tiled_end ==> dt is Q8_0 || dt is Q5_0,
    ensures
        is_gemm(dt, tb, out@, wbytes@, bpr as int, blk32_codes(q8s@), in_f as int, o0 as int, o1 as int),
{
    let q5: bool = matches!(dt, DType::Q5_0);
    let mut out: Vec<Vec<Vec<Term>>> = Vec::new();
    let mut o: usize = o0;
    let top: usize = if o1 < tiled_end {
        o1
    } else {
        tiled_end
    };
    while top >= 8 && o <= top - 8
        invariant
            o0 <= o <= o1 <= out_f,
            top <= o1,
            top <= tiled_end,
            0 < tiled_end ==> dt is Q8_0 || dt is Q5_0,
            q5 == (dt is Q5_0),
            bank_fits(dt, wbytes@, bpr as int, in_f as int, out_f as int),
            blk32_acts_fit(q8s@, in_f as int),
            is_gemm(dt, tb, out@, wbytes@, bpr as int, blk32_codes(q8s@), in_f as int, o0 as int, o as int),
        decreases o1 - o,
    {
        let rows: [&[u8]; 8] = bank_rows8(wbytes, bpr, o, Ghost(out_f as int));
        let tile: Vec<Vec<Vec<Term>>> = vec_dot_q32_batch8(rows, q8s, in_f, q5);
        let ghost before = out@;
        append8(&mut out, tile);
        proof {
            assert forall|k: int| 0 <= k < out@.len() implies is_row_batch(
                dt,
                tb,
                (#[trigger] out@[k])@,
                block_of(wbytes@, bpr as int, o0 + k),
                blk32_codes(q8s@),
                in_f as int,
            ) by {
                if k < before.len() {
                    assert(out@[k] == before[k]);
                } else {
                    let i = k - before.len();
                    assert(out@[k] == tile@[i]);
                    assert(rows@[i]@ == block_of(wbytes@, bpr as int, o + i));
                }
            }
        }
        o = o + 8;
    }
    while o < o1
        invariant
            o0 <= o <= o1 <= out_f,
            has_blk32(dt),
            tb.wf(),
            bank_fits(dt, wbytes@, bpr as int, in_f as int, out_f as int),
            blk32_acts_fit(q8s@, in_f as int),
            is_gemm(dt, tb, out@, wbytes@, bpr as int, blk32_codes(q8s@), in_f as int, o0 as int, o as int),
        decreases o1 - o,
    {
        let row: &[u8] = bank_row(wbytes, bpr, o, Ghost(out_f as int));
        out.push(dot_row_blk32(dt, tb, row, q8s, in_f));
        o = o + 1;
    }
    out
}

/// The quantized activation rows of an expert's batch.
pub enum ExpertActs<'a> {
    Super(&'a [Q8]),
    Blk32(&'a [Q8x32]),
}

impl<'a> ExpertActs<'a> {
    /// The codes of the rows.
    pub open spec fn codes(&self) -> Seq<Seq<i8>> {
        match *self {
            ExpertActs::Super(q8s) => super_codes(q8s@),
            ExpertActs::Blk32(q8s) => blk32_codes(q8s@),
        }
    }

    /// The rows are well-formed and long enough, and their representation is the one that
    /// [`expert_acts_kind`] gives the weight type.
    pub open spec fn fit(&self, dt: DType, in_f: int) -> bool {
        match *self {
            ExpertActs::Super(q8s) => expert_kind_of(dt, in_f, true) is Super && super_acts_fit(q8s@, in_f),
            ExpertActs::Blk32(q8s) => expert_kind_of(dt, in_f, true) is Blk32 && blk32_acts_fit(q8s@, in_f),
        }
    }
}

/// The activation representation of an expert bank.
pub open spec fn expert_kind_of(dt: DType, in_f: int, int8_ok: bool) -> ActsKind {
    if int8_ok && (dt is Q4K || dt is Q6K || dt is Q8_0 || dt is Q5K) && in_f % 256 == 0 {
        ActsKind::Super
    } else if int8_ok && (dt is Q8_0 || dt is Q5_0) && in_f % 32 == 0 {
        ActsKind::Blk32
    } else {
        ActsKind::Raw
    }
}

/// The activation representation of an expert bank: quantized super-blocks or 32-code blocks where
/// the type has a fast kernel and quantizing is allowed, else the activations as they are.
pub fn expert_acts_kind(dt: DType, in_f: usize, int8_ok: bool) -> (r: ActsKind)
    ensures
        r == expert_kind_of(dt, in_f as int, int8_ok),
{
    if int8_ok && matches!(dt, DType::Q4K | DType::Q6K | DType::Q8_0 | DType::Q5K) && in_f % 256 == 0 {
        ActsKind::Super
    } else if int8_ok && matches!(dt, DType::Q8_0 | DType::Q5_0) && in_f % 32 == 0 {
        ActsKind::Blk32
    } else {
        ActsKind::Raw
    }
}

/// Output rows `o0` up to `o1` of one expert bank. The bank's bytes are split evenly over its
/// `out_f` rows; the eight-row tiles are anchored at row 0.
pub fn expert_gemm_range(
    wbytes: &[u8],
    dt: DType,
    tb: &Tables,
    in_f: usize,
    out_f: usize,
    acts: &ExpertActs,
    o0: usize,
    o1: usize,
) -> (out: Vec<Vec<Vec<Term>>>)
    requires
        0 < out_f,
        tb.wf(),
        bank_fits(dt, wbytes@, wbytes@.len() as int / out_f as int, in_f as int, out_f as int),
        acts.fit(dt, in_f as int),
        o0 % 8 == 0,
        o0 <= o1 <= out_f,
    ensures
        is_gemm(
            dt,
            tb,
            out@,
            wbytes@,
            wbytes@.len() as int / out_f as int,
            acts.codes(),
            in_f as int,
            o0 as int,
            o1 as int,
        ),
{
    let bpr: usize = wbytes.len() / out_f;
    let whole: usize = out_f / 8 * 8;
    match acts {
        ExpertActs::Super(q8s) => {
            let tiled_end: usize = if matches!(dt, DType::Q4K) {
                whole
            } else {
                0
            };
            gemm_super(dt, tb, wbytes, bpr, q8s, in_f, out_f, o0, o1, tiled_end)
        },
        ExpertActs::Blk32(q8s) => gemm_blk32(dt, tb, wbytes, bpr, q8s, in_f, out_f, o0, o1, whole),
    }
}

/// All rows of a projection against super-block activation rows: Q4_K rows eight at a time, the
/// remainder two at a time, then one; every other type row by row.
pub fn linear_super(
    dt: DType,
    tb: &Tables,
    wbytes: &[u8],
    bpr: usize,
    q8s: &[Q8],
    in_f: usize,
    out_f: usize,
) -> (out: Vec<Vec<Vec<Term>>>)
    requires
        has_super(dt),
        tb.wf(),
        in_f % 256 == 0,
        bank_fits(dt, wbytes@, bpr as int, in_f as int, out_f as int),
        super_acts_fit(q8s@, in_f as int),
    ensures
        is_gemm(dt, tb, out@, wbytes@, bpr as int, super_codes(q8s@), in_f as int, 0, out_f as int),
{
    if !matches!(dt, DType::Q4K) {
        return gemm_super(dt, tb, wbytes, bpr, q8s, in_f, out_f, 0, out_f, 0);
    }
    let groups: usize = out_f / 8 * 8;
    let mut out: Vec<Vec<Vec<Term>>> = gemm_super(dt, tb, wbytes, bpr, q8s, in_f, out_f, 0, groups, groups);
    let mut o: usize = groups;
    while out_f - o >= 2
        invariant
            dt is Q4K,
            o <= out_f,
            in_f % 256 == 0,
            bank_fits(dt, wbytes@, bpr as int, in_f as int, out_f as int),
            super_acts_fit(q8s@, in_f as int),
            is_gemm(dt, tb, out@, wbytes@, bpr as int, super_codes(q8s@), in_f as int, 0, o as int),
        decreases out_f - o,
    {
        let row_a: &[u8] = bank_row(wbytes, bpr, o, Ghost(out_f as int));
        let row_b: &[u8] = bank_row(wbytes, bpr, o + 1, Ghost(out_f as int));
        let (a, b) = vec_dot_q4k_batch2(row_a, row_b, q8s, in_f);
        out.push(a);
        out.push(b);
        o = o + 2;
    }
    if o < out_f {
        let row: &[u8] = bank_row(wbytes, bpr, o, Ghost(out_f as int));
        out.push(dot_row_super(dt, tb, row, q8s, in_f));
    }
    out
}

/// All rows of a projection against activation rows of 32-code blocks.
pub fn linear_blk32(
    dt: DType,
    tb: &Tables,
    wbytes: &[u8],
    bpr: usize,
    q8s: &[Q8x32],
    in_f: usize,
    out_f: usize,
) -> (out: Vec<Vec<Vec<Term>>>)
    requires
        has_blk32(dt),
        tb.wf(),
        bank_fits(dt, wbytes@, bpr as int, in_f as int, out_f as int),
        blk32_acts_fit(q8s@, in_f as int),
    ensures
        is_gemm(dt, tb, out@, wbytes@, bpr as int, blk32_codes(q8s@), in_f as int, 0, out_f as int),
{
    gemm_blk32(dt, tb, wbytes, bpr, q8s, in_f, out_f, 0, out_f, 0)
}

/// Row `o` of a bank over super-blocks gives what its bytes alone give, and they stand behind those
/// of the rows before.
pub proof fn law_super_bank_rows(
    dt: DType,
    tb: &Tables,
    wbytes: &[u8],
    bpr: usize,
    q8s: &[Q8],
    in_f: usize,
    out_f: usize,
    out: Vec<Vec<Vec<Term>>>,
    o: int,
    row: &[u8],
    one: Vec<Vec<Term>>,
    r: int,
)
    requires
        call_ensures(linear_super, (dt, tb, wbytes, bpr, q8s, in_f, out_f), out),
        out_f * bpr <= wbytes@.len(),
        0 <= o < out_f,
        row@.len() == bpr,
        forall|i: int| 0 <= i < bpr ==> #[trigger] row@[i] == wbytes@[o * bpr + i],
        call_ensures(dot_row_super, (dt, tb, row, q8s, in_f), one),
        0 <= r < q8s@.len(),
    ensures
        out@.len() == out_f,
        out@[o]@.len() == q8s@.len(),
        out@[o]@[r]@ == one@[r]@,
{
    lemma_row_bytes(wbytes@, bpr as int, out_f as int, o, row@);
    assert(is_row_batch(dt, tb, out@[o]@, block_of(wbytes@, bpr as int, 0 + o), super_codes(q8s@), in_f as int));
    crate::laws::law_row_terms_unique(dt, tb, out@[o]@[r]@, one@[r]@, row@, super_codes(q8s@)[r], in_f as int);
}

/// The same over 32-code blocks.
pub proof fn law_blk32_bank_rows(
    dt: DType,
    tb: &Tables,
    wbytes: &[u8],
    bpr: usize,
    q8s: &[Q8x32],
    in_f: usize,
    out_f: usize,
    out: Vec<Vec<Vec<Term>>>,
    o: int,
    row: &[u8],
    one: Vec<Vec<Term>>,
    r: int,
)
    requires
        call_ensures(linear_blk32, (dt, tb, wbytes, bpr, q8s, in_f, out_f), out),
        out_f * bpr <= wbytes@.len(),
        0 <= o < out_f,
        row@.len() == bpr,
        forall|i: int| 0 <= i < bpr ==> #[trigger] row@[i] == wbytes@[o * bpr + i],
        call_ensures(dot_row_blk32, (dt, tb, row, q8s, in_f), one),
        0 <= r < q8s@.len(),
    ensures
        out@.len() == out_f,
        out@[o]@.len() == q8s@.len(),
        out@[o]@[r]@ == one@[r]@,
{
    lemma_row_bytes(wbytes@, bpr as int, out_f as int, o, row@);
    assert(is_row_batch(dt, tb, out@[o]@, block_of(wbytes@, bpr as int, 0 + o), blk32_codes(q8s@), in_f as int));
    crate::laws::law_row_terms_unique(dt, tb, out@[o]@[r]@, one@[r]@, row@, blk32_codes(q8s@)[r], in_f as int);
}

/// Row `o` of a bank is the bytes behind those of the rows before.
proof fn lemma_row_bytes(wbytes: Seq<u8>, bpr: int, out_f: int, o: int, row: Seq<u8>)
    requires
        0 <= bpr,
        out_f * bpr <= wbytes.len(),
        0 <= o < out_f,
        row.len() == bpr,
        forall|i: int| 0 <= i < bpr ==> #[trigger] row[i] == wbytes[o * bpr + i],
    ensures
        block_of(wbytes, bpr, o) == row,
{
    assert(0 <= o * bpr && o * bpr + bpr <= out_f * bpr) by (nonlinear_arith)
        requires
            0 <= o,
            o + 1 <= out_f,
            0 <= bpr,
    ;
    assert(block_of(wbytes, bpr, o) =~= row);
}

/// A range of the rows of an expert's bank gives, for each row of the range and each activation row,
/// what the bytes of the row alone give. The bytes of the bank are shared evenly by its rows.
pub proof fn law_range_rows(
    wbytes: &[u8],
    dt: DType,
    tb: &Tables,
    in_f: usize,
    out_f: usize,
    acts: &ExpertActs,
    o0: usize,
    o1: usize,
    out: Vec<Vec<Vec<Term>>>,
    bpr: int,
    o: int,
    row: &[u8],
    r: int,
    sup: &[Q8],
    sup_one: Vec<Vec<Term>>,
    blk: &[Q8x32],
    blk_one: Vec<Vec<Term>>,
)
    requires
        call_ensures(expert_gemm_range, (wbytes, dt, tb, in_f, out_f, acts, o0, o1), out),
        0 < out_f,
        bpr * out_f <= wbytes@.len() < (bpr + 1) * out_f,
        o0 <= o < o1 <= out_f,
        row@.len() == bpr,
        forall|i: int| 0 <= i < bpr ==> #[trigger] row@[i] == wbytes@[o * bpr + i],
        *acts == ExpertActs::Super(sup) || *acts == ExpertActs::Blk32(blk),
        call_ensures(dot_row_super, (dt, tb, row, sup, in_f), sup_one),
        call_ensures(dot_row_blk32, (dt, tb, row, blk, in_f), blk_one),
        0 <= r,
        r < sup@.len(),
        r < blk@.len(),
    ensures
        out@.len() == o1 - o0,
        *acts == ExpertActs::Super(sup) ==> out@[o - o0]@.len() == sup@.len() && out@[o - o0]@[r]@ == sup_one@[r]@,
        *acts == ExpertActs::Blk32(blk) ==> out@[o - o0]@.len() == blk@.len() && out@[o - o0]@[r]@ == blk_one@[r]@,
{
    let len = wbytes@.len() as int;
    assert((bpr + 1) * out_f == bpr * out_f + out_f) by (nonlinear_arith);
    vstd::arithmetic::div_mod::lemma_fundamental_div_mod_converse(len, out_f as int, bpr, len - bpr * out_f);
    assert(bpr * out_f == out_f * bpr) by (nonlinear_arith);
    lemma_row_bytes(wbytes@, bpr, out_f as int, o, row@);
    let codes = acts.codes();
    assert(is_row_batch(dt, tb, out@[o - o0]@, block_of(wbytes@, bpr, o0 + (o - o0)), codes, in_f as int));
    if *acts == ExpertActs::Super(sup) {
        assert(codes == super_codes(sup@));
        crate::laws::law_row_terms_unique(dt, tb, out@[o - o0]@[r]@, sup_one@[r]@, row@, codes[r], in_f as int);
    } else {
        assert(codes == blk32_codes(blk@));
        crate::laws::law_row_terms_unique(dt, tb, out@[o - o0]@[r]@, blk_one@[r]@, row@, codes[r], in_f as int);
    }
}

/// The experts' types: those over super-blocks, and those over 32-code blocks. Without integer
/// activations every type is left as it is.
pub proof fn law_expert_acts(dt: DType, in_f: usize, int8_ok: bool, r: ActsKind)
    requires
        call_ensures(expert_acts_kind, (dt, in_f, int8_ok), r),
    ensures
        r is Super <==> int8_ok && in_f % 256 == 0 && (dt is Q4K || dt is Q5K || dt is Q6K || dt is Q8_0),
        r is Blk32 <==> int8_ok && in_f % 32 == 0 && (dt is Q5_0 || dt is Q8_0 && in_f % 256 != 0),
        !int8_ok ==> r is Raw,
{
}

} // verus!
