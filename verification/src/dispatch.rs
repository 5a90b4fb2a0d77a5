//! Choosing the activation representation and the kernel for a weight type.
use vstd::prelude::*;
use crate::codebook::{Iq4Nl, Iq4Xs, Mxfp4, Nvfp4};
use crate::dtype::DType;
use crate::format::{is_dot, Term, WeightFormat};
use crate::grid::{Iq1M, Iq1S, Iq2S, Iq2Xs, Iq2Xxs, Iq3S, Iq3Xxs};
use crate::kernels::{vec_dot_32_batch, vec_dot_batch};
use crate::kquants::{Q2K, Q3K, Q4K, Q5K, Q6K};
use crate::legacy::{Q2_0, Q4_0, Q4_1, Q5_0, Q5_1, Q8_0};
use crate::quant::{Q8, Q8x32};
use crate::ternary::{Tq1_0, Tq2_0};

verus! {

/// The lookup tables of the codebook and grid formats.
#[derive(Clone, Copy)]
pub struct Tables<'a> {
    pub kv_iq4nl: [i8; 16],
    pub kv_mxfp4: [i8; 16],
    pub grid_iq2s: &'a [u64],
    pub grid_iq2xs: &'a [u64],
    pub grid_iq2xxs: &'a [u64],
    pub grid_iq3s: &'a [u32],
    pub grid_iq3xxs: &'a [u32],
    pub grid_iq1: &'a [u64],
    pub signs: &'a [u8],
}

impl<'a> Tables<'a> {
    /// Every grid has the number of entries its indices reach.
    pub open spec fn wf(&self) -> bool {
        &&& self.grid_iq2s@.len() == 1024
        &&& self.grid_iq2xs@.len() == 512
        &&& self.grid_iq2xxs@.len() == 256
        &&& self.grid_iq3s@.len() == 512
        &&& self.grid_iq3xxs@.len() == 256
        &&& self.grid_iq1@.len() == 2048
        &&& self.signs@.len() == 128
    }

    pub open spec fn iq4xs(&self) -> Iq4Xs {
        Iq4Xs { kv: self.kv_iq4nl }
    }

    pub open spec fn iq2s(&self) -> Iq2S<'a> {
        Iq2S { grid: self.grid_iq2s }
    }

    pub open spec fn iq2xs(&self) -> Iq2Xs<'a> {
        Iq2Xs { grid: self.grid_iq2xs, signs: self.signs }
    }

    pub open spec fn iq2xxs(&self) -> Iq2Xxs<'a> {
        Iq2Xxs { grid: self.grid_iq2xxs, signs: self.signs }
    }

    pub open spec fn iq3s(&self) -> Iq3S<'a> {
        Iq3S { grid: self.grid_iq3s }
    }

    pub open spec fn iq3xxs(&self) -> Iq3Xxs<'a> {
        Iq3Xxs { grid: self.grid_iq3xxs, signs: self.signs }
    }

    pub open spec fn iq1s(&self) -> Iq1S<'a> {
        Iq1S { grid: self.grid_iq1 }
    }

    pub open spec fn iq1m(&self) -> Iq1M<'a> {
        Iq1M { grid: self.grid_iq1 }
    }

    pub open spec fn iq4nl(&self) -> Iq4Nl {
        Iq4Nl { kv: self.kv_iq4nl }
    }

    pub open spec fn mxfp4(&self) -> Mxfp4 {
        Mxfp4 { kv: self.kv_mxfp4 }
    }

    pub open spec fn nvfp4(&self) -> Nvfp4 {
        Nvfp4 { kv: self.kv_mxfp4 }
    }
}

/// `terms` are the terms of a row of the given type against the codes `a`.
pub open spec fn is_row_dot(dt: DType, tb: &Tables, terms: Seq<Term>, row: Seq<u8>, a: Seq<i8>, in_f: int) -> bool {
    match dt {
        DType::Q4K => is_dot(&Q4K, terms, row, a, in_f),
        DType::Q5K => is_dot(&Q5K, terms, row, a, in_f),
        DType::Q6K => is_dot(&Q6K, terms, row, a, in_f),
        DType::Q2K => is_dot(&Q2K, terms, row, a, in_f),
        DType::Q3K => is_dot(&Q3K, terms, row, a, in_f),
        DType::Iq4Xs => is_dot(&tb.iq4xs(), terms, row, a, in_f),
        DType::Iq2S => is_dot(&tb.iq2s(), terms, row, a, in_f),
        DType::Iq2Xs => is_dot(&tb.iq2xs(), terms, row, a, in_f),
        DType::Iq2Xxs => is_dot(&tb.iq2xxs(), terms, row, a, in_f),
        DType::Iq3S => is_dot(&tb.iq3s(), terms, row, a, in_f),
        DType::Iq3Xxs => is_dot(&tb.iq3xxs(), terms, row, a, in_f),
        DType::Iq1S => is_dot(&tb.iq1s(), terms, row, a, in_f),
        DType::Iq1M => is_dot(&tb.iq1m(), terms, row, a, in_f),
        DType::Tq1_0 => is_dot(&Tq1_0, terms, row, a, in_f),
        DType::Tq2_0 => is_dot(&Tq2_0, terms, row, a, in_f),
        DType::Q8_0 => is_dot(&Q8_0, terms, row, a, in_f),
        DType::Q5_0 => is_dot(&Q5_0, terms, row, a, in_f),
        DType::Q4_0 => is_dot(&Q4_0, terms, row, a, in_f),
        DType::Q4_1 => is_dot(&Q4_1, terms, row, a, in_f),
        DType::Q5_1 => is_dot(&Q5_1, terms, row, a, in_f),
        DType::Iq4Nl => is_dot(&tb.iq4nl(), terms, row, a, in_f),
        DType::Mxfp4 => is_dot(&tb.mxfp4(), terms, row, a, in_f),
        DType::Q2_0 => is_dot(&Q2_0, terms, row, a, in_f),
        DType::Nvfp4 => is_dot(&tb.nvfp4(), terms, row, a, in_f),
        _ => false,
    }
}

/// `out[r]` holds the terms of the row against activation row `r`.
pub open spec fn is_row_batch(
    dt: DType,
    tb: &Tables,
    out: Seq<Vec<Term>>,
    row: Seq<u8>,
    acts: Seq<Seq<i8>>,
    in_f: int,
) -> bool {
    &&& out.len() == acts.len()
    &&& forall|r: int| 0 <= r < out.len() ==> is_row_dot(dt, tb, (#[trigger] out[r])@, row, acts[r], in_f)
}

/// The row holds `in_f` weights of the given type.
pub open spec fn row_holds(dt: DType, row: Seq<u8>, in_f: int) -> bool {
    &&& in_f % dt.elems() == 0
    &&& (in_f / dt.elems()) * dt.bytes() <= row.len()
}

/// The codes of a batch of activation rows.
pub open spec fn super_codes(q8s: Seq<Q8>) -> Seq<Seq<i8>> {
    Seq::new(q8s.len(), |r: int| q8s[r].qs@)
}

/// The codes of a batch of activation rows.
pub open spec fn blk32_codes(q8s: Seq<Q8x32>) -> Seq<Seq<i8>> {
    Seq::new(q8s.len(), |r: int| q8s[r].qs@)
}

/// The activation representation that a weight type is dotted against.
#[derive(Clone, Copy, PartialEq, Eq, Structural, Debug)]
pub enum ActsKind {
    /// Super-blocks of 256 codes.
    Super,
    /// Blocks of 32 codes.
    Blk32,
    /// The activations as they are.
    Raw,
}

/// Whether a type has a kernel over 256-code super-blocks.
pub open spec fn has_super(dt: DType) -> bool {
    match dt {
        DType::Q4K | DType::Q5K | DType::Q6K | DType::Q2K | DType::Q3K | DType::Iq4Xs | DType::Iq2S | DType::Iq2Xs | DType::Iq2Xxs | DType::Iq3S | DType::Iq3Xxs | DType::Iq1S | DType::Iq1M | DType::Tq1_0 | DType::Tq2_0 | DType::Q8_0 => true,
        _ => false,
    }
}

/// Whether a type has a kernel over 32-code blocks.
pub open spec fn has_blk32(dt: DType) -> bool {
    match dt {
        DType::Q8_0 | DType::Q5_0 | DType::Q4_0 | DType::Q4_1 | DType::Q5_1 | DType::Iq4Nl | DType::Mxfp4 | DType::Q2_0 | DType::Nvfp4 => true,
        _ => false,
    }
}

/// The representation for one projection: super-blocks where the type has such a kernel and the
/// row is a whole number of them, else 32-code blocks where the row is a whole number of the
/// type's own blocks, else the activations as they are.
pub open spec fn linear_route_of(dt: DType, in_f: int) -> ActsKind {
    if has_super(dt) && in_f % 256 == 0 {
        ActsKind::Super
    } else if has_blk32(dt) && in_f % dt.elems() == 0 {
        ActsKind::Blk32
    } else {
        ActsKind::Raw
    }
}

/// The representation for one projection.
pub fn linear_route(dt: DType, in_f: usize) -> (r: ActsKind)
    ensures
        r == linear_route_of(dt, in_f as int),
{
    let sup: bool = match dt {
        DType::Q4K | DType::Q5K | DType::Q6K | DType::Q2K | DType::Q3K | DType::Iq4Xs | DType::Iq2S | DType::Iq2Xs | DType::Iq2Xxs | DType::Iq3S | DType::Iq3Xxs | DType::Iq1S | DType::Iq1M | DType::Tq1_0 | DType::Tq2_0 | DType::Q8_0 => true,
        _ => false,
    };
    let blk: bool = match dt {
        DType::Q8_0 | DType::Q5_0 | DType::Q4_0 | DType::Q4_1 | DType::Q5_1 | DType::Iq4Nl | DType::Mxfp4 | DType::Q2_0 | DType::Nvfp4 => true,
        _ => false,
    };
    if sup && in_f % 256 == 0 {
        ActsKind::Super
    } else if blk && in_f % dt.block_elems() == 0 {
        ActsKind::Blk32
    } else {
        ActsKind::Raw
    }
}

/// No element of a row is left out: whatever representation a projection is given, the row is a
/// whole number of its blocks and of the weight type's blocks.
pub proof fn law_route_covers_row(dt: DType, in_f: int)
    requires
        0 <= in_f,
    ensures
        linear_route_of(dt, in_f) is Super ==> in_f == 256 * (in_f / 256) && in_f % dt.elems() == 0,
        linear_route_of(dt, in_f) is Blk32 ==> in_f == 32 * (in_f / 32) && in_f % dt.elems() == 0,
{
}

/// Every quantized type whose row is a whole number of its own blocks goes to an integer kernel.
pub proof fn law_route_is_total(dt: DType, in_f: int)
    requires
        dt.is_quant(),
        0 <= in_f,
        in_f % dt.elems() == 0,
    ensures
        !(linear_route_of(dt, in_f) is Raw),
{
}

/// One row of the given type against a batch of super-block activation rows.
pub fn dot_row_super(dt: DType, tb: &Tables, row: &[u8], q8s: &[Q8], in_f: usize) -> (out: Vec<Vec<Term>>)
    requires
        has_super(dt),
        tb.wf(),
        in_f % 256 == 0,
        row_holds(dt, row@, in_f as int),
        forall|r: int| 0 <= r < q8s@.len() ==> (#[trigger] q8s@[r]).wf() && in_f <= q8s@[r].qs@.len(),
    ensures
        is_row_batch(dt, tb, out@, row@, super_codes(q8s@), in_f as int),
{
    match dt {
        DType::Q4K => vec_dot_batch(&Q4K, row, q8s, in_f),
        DType::Q5K => vec_dot_batch(&Q5K, row, q8s, in_f),
        DType::Q6K => vec_dot_batch(&Q6K, row, q8s, in_f),
        DType::Q2K => vec_dot_batch(&Q2K, row, q8s, in_f),
        DType::Q3K => vec_dot_batch(&Q3K, row, q8s, in_f),
        DType::Iq4Xs => vec_dot_batch(&Iq4Xs { kv: tb.kv_iq4nl }, row, q8s, in_f),
        DType::Iq2S => vec_dot_batch(&Iq2S { grid: tb.grid_iq2s }, row, q8s, in_f),
        DType::Iq2Xs => vec_dot_batch(&Iq2Xs { grid: tb.grid_iq2xs, signs: tb.signs }, row, q8s, in_f),
        DType::Iq2Xxs => vec_dot_batch(&Iq2Xxs { grid: tb.grid_iq2xxs, signs: tb.signs }, row, q8s, in_f),
        DType::Iq3S => vec_dot_batch(&Iq3S { grid: tb.grid_iq3s }, row, q8s, in_f),
        DType::Iq3Xxs => vec_dot_batch(&Iq3Xxs { grid: tb.grid_iq3xxs, signs: tb.signs }, row, q8s, in_f),
        DType::Iq1S => vec_dot_batch(&Iq1S { grid: tb.grid_iq1 }, row, q8s, in_f),
        DType::Iq1M => vec_dot_batch(&Iq1M { grid: tb.grid_iq1 }, row, q8s, in_f),
        DType::Tq1_0 => vec_dot_batch(&Tq1_0, row, q8s, in_f),
        DType::Tq2_0 => vec_dot_batch(&Tq2_0, row, q8s, in_f),
        _ => vec_dot_batch(&Q8_0, row, q8s, in_f),
    }
}

/// One row of the given type against a batch of activation rows of 32-code blocks.
pub fn dot_row_blk32(dt: DType, tb: &Tables, row: &[u8], q8s: &[Q8x32], in_f: usize) -> (out: Vec<Vec<Term>>)
    requires
        has_blk32(dt),
        tb.wf(),
        row_holds(dt, row@, in_f as int),
        forall|r: int| 0 <= r < q8s@.len() ==> (#[trigger] q8s@[r]).wf() && in_f <= q8s@[r].qs@.len(),
    ensures
        is_row_batch(dt, tb, out@, row@, blk32_codes(q8s@), in_f as int),
{
    match dt {
        DType::Q8_0 => vec_dot_32_batch(&Q8_0, row, q8s, in_f),
        DType::Q5_0 => vec_dot_32_batch(&Q5_0, row, q8s, in_f),
        DType::Q4_0 => vec_dot_32_batch(&Q4_0, row, q8s, in_f),
        DType::Q4_1 => vec_dot_32_batch(&Q4_1, row, q8s, in_f),
        DType::Q5_1 => vec_dot_32_batch(&Q5_1, row, q8s, in_f),
        DType::Iq4Nl => vec_dot_32_batch(&Iq4Nl { kv: tb.kv_iq4nl }, row, q8s, in_f),
        DType::Mxfp4 => vec_dot_32_batch(&Mxfp4 { kv: tb.kv_mxfp4 }, row, q8s, in_f),
        DType::Q2_0 => vec_dot_32_batch(&Q2_0, row, q8s, in_f),
        _ => vec_dot_32_batch(&Nvfp4 { kv: tb.kv_mxfp4 }, row, q8s, in_f),
    }
}

/// A row over super-blocks gives the terms of the format of its type.
pub proof fn law_super_row_by_type(
    dt: DType,
    tb: &Tables,
    row: &[u8],
    q8s: &[Q8],
    in_f: usize,
    out: Vec<Vec<Term>>,
    r: int,
)
    requires
        call_ensures(dot_row_super, (dt, tb, row, q8s, in_f), out),
        0 <= r < q8s@.len(),
    ensures
        out@.len() == q8s@.len(),
        dt is Q4K ==> is_dot(&Q4K, out@[r]@, row@, q8s@[r].qs@, in_f as int),
        dt is Q5K ==> is_dot(&Q5K, out@[r]@, row@, q8s@[r].qs@, in_f as int),
        dt is Q6K ==> is_dot(&Q6K, out@[r]@, row@, q8s@[r].qs@, in_f as int),
        dt is Q2K ==> is_dot(&Q2K, out@[r]@, row@, q8s@[r].qs@, in_f as int),
        dt is Q3K ==> is_dot(&Q3K, out@[r]@, row@, q8s@[r].qs@, in_f as int),
        dt is Q8_0 ==> is_dot(&Q8_0, out@[r]@, row@, q8s@[r].qs@, in_f as int),
        dt is Iq4Xs ==> is_dot((&Iq4Xs { kv: tb.kv_iq4nl }), out@[r]@, row@, q8s@[r].qs@, in_f as int),
        dt is Iq2S ==> is_dot((&Iq2S { grid: tb.grid_iq2s }), out@[r]@, row@, q8s@[r].qs@, in_f as int),
        dt is Iq2Xxs ==> is_dot((&Iq2Xxs { grid: tb.grid_iq2xxs, signs: tb.signs }), out@[r]@, row@, q8s@[r].qs@,
            in_f as int),
        dt is Iq2Xs ==> is_dot((&Iq2Xs { grid: tb.grid_iq2xs, signs: tb.signs }), out@[r]@, row@, q8s@[r].qs@,
            in_f as int),
        dt is Iq3S ==> is_dot((&Iq3S { grid: tb.grid_iq3s }), out@[r]@, row@, q8s@[r].qs@, in_f as int),
        dt is Iq3Xxs ==> is_dot((&Iq3Xxs { grid: tb.grid_iq3xxs, signs: tb.signs }), out@[r]@, row@, q8s@[r].qs@,
            in_f as int),
        dt is Iq1S ==> is_dot((&Iq1S { grid: tb.grid_iq1 }), out@[r]@, row@, q8s@[r].qs@, in_f as int),
        dt is Iq1M ==> is_dot((&Iq1M { grid: tb.grid_iq1 }), out@[r]@, row@, q8s@[r].qs@, in_f as int),
        dt is Tq2_0 ==> is_dot(&Tq2_0, out@[r]@, row@, q8s@[r].qs@, in_f as int),
        dt is Tq1_0 ==> is_dot(&Tq1_0, out@[r]@, row@, q8s@[r].qs@, in_f as int),
{
    assert(is_row_dot(dt, tb, out@[r]@, row@, super_codes(q8s@)[r], in_f as int));
}

/// A row over 32-code blocks gives the terms of the format of its type.
pub proof fn law_blk32_row_by_type(
    dt: DType,
    tb: &Tables,
    row: &[u8],
    q8s: &[Q8x32],
    in_f: usize,
    out: Vec<Vec<Term>>,
    r: int,
)
    requires
        call_ensures(dot_row_blk32, (dt, tb, row, q8s, in_f), out),
        0 <= r < q8s@.len(),
    ensures
        out@.len() == q8s@.len(),
        dt is Q8_0 ==> is_dot(&Q8_0, out@[r]@, row@, q8s@[r].qs@, in_f as int),
        dt is Q5_0 ==> is_dot(&Q5_0, out@[r]@, row@, q8s@[r].qs@, in_f as int),
        dt is Q4_0 ==> is_dot(&Q4_0, out@[r]@, row@, q8s@[r].qs@, in_f as int),
        dt is Q2_0 ==> is_dot(&Q2_0, out@[r]@, row@, q8s@[r].qs@, in_f as int),
        dt is Q4_1 ==> is_dot(&Q4_1, out@[r]@, row@, q8s@[r].qs@, in_f as int),
        dt is Q5_1 ==> is_dot(&Q5_1, out@[r]@, row@, q8s@[r].qs@, in_f as int),
        dt is Iq4Nl ==> is_dot((&Iq4Nl { kv: tb.kv_iq4nl }), out@[r]@, row@, q8s@[r].qs@, in_f as int),
        dt is Mxfp4 ==> is_dot((&Mxfp4 { kv: tb.kv_mxfp4 }), out@[r]@, row@, q8s@[r].qs@, in_f as int),
        dt is Nvfp4 ==> is_dot((&Nvfp4 { kv: tb.kv_mxfp4 }), out@[r]@, row@, q8s@[r].qs@, in_f as int),
{
    assert(is_row_dot(dt, tb, out@[r]@, row@, blk32_codes(q8s@)[r], in_f as int));
}

/// What a projection is routed by: a type whose blocks hold 256 weights, or the 8-bit type, goes to
/// super-blocks where the row is a whole number of 256; a type of smaller blocks goes to 32-code
/// blocks where the row is a whole number of its own; whatever is left is not dotted as integers.
pub proof fn law_linear_route(dt: DType, in_f: usize, r: ActsKind, elems: usize)
    requires
        call_ensures(linear_route, (dt, in_f), r),
        call_ensures(DType::block_elems, (dt,), elems),
    ensures
        r is Super <==> in_f % 256 == 0 && (elems == 256 || dt is Q8_0),
        r is Blk32 <==> (elems == 32 || elems == 64) && in_f as int % elems as int == 0
            && !(dt is Q8_0 && in_f % 256 == 0),
{
}

/// The blocks of a type are those of its format, and a type without a format has single elements.
pub proof fn law_blocks_of_types(dt: DType, tb: &Tables, elems: usize, bytes: usize)
    requires
        call_ensures(DType::block_elems, (dt,), elems),
        call_ensures(DType::block_bytes, (dt,), bytes),
    ensures
        dt is Q4K ==> elems == Q4K.shape().elems && bytes == Q4K.shape().bytes,
        dt is Q5K ==> elems == Q5K.shape().elems && bytes == Q5K.shape().bytes,
        dt is Q6K ==> elems == Q6K.shape().elems && bytes == Q6K.shape().bytes,
        dt is Q2K ==> elems == Q2K.shape().elems && bytes == Q2K.shape().bytes,
        dt is Q3K ==> elems == Q3K.shape().elems && bytes == Q3K.shape().bytes,
        dt is Tq1_0 ==> elems == Tq1_0.shape().elems && bytes == Tq1_0.shape().bytes,
        dt is Tq2_0 ==> elems == Tq2_0.shape().elems && bytes == Tq2_0.shape().bytes,
        dt is Q8_0 ==> elems == Q8_0.shape().elems && bytes == Q8_0.shape().bytes,
        dt is Q5_0 ==> elems == Q5_0.shape().elems && bytes == Q5_0.shape().bytes,
        dt is Q4_0 ==> elems == Q4_0.shape().elems && bytes == Q4_0.shape().bytes,
        dt is Q4_1 ==> elems == Q4_1.shape().elems && bytes == Q4_1.shape().bytes,
        dt is Q5_1 ==> elems == Q5_1.shape().elems && bytes == Q5_1.shape().bytes,
        dt is Q2_0 ==> elems == Q2_0.shape().elems && bytes == Q2_0.shape().bytes,
        dt is Iq4Xs ==> elems == tb.iq4xs().shape().elems && bytes == tb.iq4xs().shape().bytes,
        dt is Iq2S ==> elems == tb.iq2s().shape().elems && bytes == tb.iq2s().shape().bytes,
        dt is Iq2Xs ==> elems == tb.iq2xs().shape().elems && bytes == tb.iq2xs().shape().bytes,
        dt is Iq2Xxs ==> elems == tb.iq2xxs().shape().elems && bytes == tb.iq2xxs().shape().bytes,
        dt is Iq3S ==> elems == tb.iq3s().shape().elems && bytes == tb.iq3s().shape().bytes,
        dt is Iq3Xxs ==> elems == tb.iq3xxs().shape().elems && bytes == tb.iq3xxs().shape().bytes,
        dt is Iq1S ==> elems == tb.iq1s().shape().elems && bytes == tb.iq1s().shape().bytes,
        dt is Iq1M ==> elems == tb.iq1m().shape().elems && bytes == tb.iq1m().shape().bytes,
        dt is Iq4Nl ==> elems == tb.iq4nl().shape().elems && bytes == tb.iq4nl().shape().bytes,
        dt is Mxfp4 ==> elems == tb.mxfp4().shape().elems && bytes == tb.mxfp4().shape().bytes,
        dt is Nvfp4 ==> elems == tb.nvfp4().shape().elems && bytes == tb.nvfp4().shape().bytes,
        dt is F32 || dt is F16 || dt is Bf16 || dt is I32 || dt is U32 ==> elems == 1 && bytes == 0,
        dt is Turbo2 || dt is Turbo3 || dt is Turbo4 ==> elems == 1 && bytes == 0,
{
}

} // verus!
