//! What a block-quantized weight format says about the elements of a weight row.
use vstd::prelude::*;
use crate::bits::block_of;
use crate::sums::wdot;

verus! {

/// The sizes of a format. A row is a run of blocks of `bytes` bytes, each holding `elems`
/// weights. Inside a block every run of `sub` weights has one integer scale, and every run of
/// `unit` weights shares one floating-point scale.
#[derive(Clone, Copy)]
pub struct Shape {
    pub bytes: usize,
    pub elems: usize,
    pub sub: usize,
    pub unit: usize,
    pub offset: i32,
}

impl Shape {
    /// The block holds whole units and a unit holds whole sub-blocks.
    pub open spec fn wf(&self) -> bool {
        &&& self.elems == 32 || self.elems == 64 || self.elems == 256
        &&& self.sub == 8 || self.sub == 16 || self.sub == 32
        &&& self.unit == 8 || self.unit == 16 || self.unit == 32 || self.unit == 256
        &&& self.sub <= self.unit <= self.elems
        &&& 0 < self.bytes <= 256
        &&& 0 <= self.offset <= 32
    }
}

/// A block-quantized weight format: how the bytes of one block give the integer code, the integer
/// scale and the integer min of each of its elements.
pub trait WeightFormat {
    /// The sizes of the format.
    spec fn shape(&self) -> Shape;

    /// Whether the tables that the format looks codes up in are complete.
    spec fn valid(&self) -> bool;

    /// The code of element `e` of a block.
    spec fn code(&self, blk: Seq<u8>, e: int) -> int;

    /// The integer scale of sub-block `s` of a block.
    spec fn scale(&self, blk: Seq<u8>, s: int) -> int;

    /// The integer min of sub-block `s` of a block; 0 where the format has none.
    spec fn min(&self, blk: Seq<u8>, s: int) -> int;

    /// The bit pattern of the floating-point scale of unit `u` of a block.
    spec fn d(&self, blk: Seq<u8>, u: int) -> int;

    /// The second number of unit `u`: the bit pattern of the floating-point min, or the scale
    /// code of the unit; 0 where the format has neither.
    spec fn aux(&self, blk: Seq<u8>, u: int) -> int;

    /// The sizes fit together.
    proof fn lemma_shape(&self)
        ensures
            self.shape().wf(),
    ;

    fn shape_of(&self) -> (r: Shape)
        ensures
            r == self.shape(),
    ;

    fn code_at(&self, blk: &[u8], e: usize) -> (r: i8)
        requires
            self.valid(),
            blk@.len() == self.shape().bytes,
            e < self.shape().elems,
        ensures
            r == self.code(blk@, e as int),
            -128 <= r - self.shape().offset,
    ;

    fn scale_at(&self, blk: &[u8], s: usize) -> (r: i32)
        requires
            self.valid(),
            blk@.len() == self.shape().bytes,
            s < self.shape().elems / self.shape().sub,
        ensures
            r == self.scale(blk@, s as int),
            -128 <= r <= 128,
    ;

    fn min_at(&self, blk: &[u8], s: usize) -> (r: i32)
        requires
            self.valid(),
            blk@.len() == self.shape().bytes,
            s < self.shape().elems / self.shape().sub,
        ensures
            r == self.min(blk@, s as int),
            0 <= r <= 128,
    ;

    fn d_at(&self, blk: &[u8], u: usize) -> (r: u16)
        requires
            self.valid(),
            blk@.len() == self.shape().bytes,
            u < self.shape().elems / self.shape().unit,
        ensures
            r == self.d(blk@, u as int),
    ;

    fn aux_at(&self, blk: &[u8], u: usize) -> (r: u16)
        requires
            self.valid(),
            blk@.len() == self.shape().bytes,
            u < self.shape().elems / self.shape().unit,
        ensures
            r == self.aux(blk@, u as int),
    ;
}

/// The block that holds element `i` of a row.
pub open spec fn home_block<F: WeightFormat>(f: &F, row: Seq<u8>, i: int) -> Seq<u8> {
    block_of(row, f.shape().bytes as int, i / f.shape().elems as int)
}

/// The integer weight of element `i` of a row: its code less the offset, times the integer scale
/// of its sub-block.
pub open spec fn elem_weight<F: WeightFormat>(f: &F, row: Seq<u8>, i: int) -> int {
    let e = i % f.shape().elems as int;
    (f.code(home_block(f, row, i), e) - f.shape().offset) * f.scale(home_block(f, row, i), e / f.shape().sub as int)
}

/// The integer min of element `i` of a row.
pub open spec fn elem_min<F: WeightFormat>(f: &F, row: Seq<u8>, i: int) -> int {
    let e = i % f.shape().elems as int;
    f.min(home_block(f, row, i), e / f.shape().sub as int)
}

/// The integer weights of a row from element `i0` on.
pub open spec fn weights_at<F: WeightFormat>(f: &F, row: Seq<u8>, i0: int) -> spec_fn(int) -> int {
    |e: int| elem_weight(f, row, i0 + e)
}

/// The integer mins of a row from element `i0` on.
pub open spec fn mins_at<F: WeightFormat>(f: &F, row: Seq<u8>, i0: int) -> spec_fn(int) -> int {
    |e: int| elem_min(f, row, i0 + e)
}

/// The exact integer part of the dot product over one unit: `sd` is the dot product of the
/// integer weights with the activation codes, `sm` that of the integer mins. The unit contributes
/// `d8 * (d*sd - aux*sm)` or a variant of it to the floating-point result, where `d8` is the
/// scale of the activation block.
#[derive(Clone, Copy, PartialEq, Eq, Structural, Debug)]
pub struct Term {
    pub d: u16,
    pub aux: u16,
    pub sd: i32,
    pub sm: i32,
}

/// `t` is the term of unit `u` of the row.
pub open spec fn is_term<F: WeightFormat>(f: &F, t: Term, row: Seq<u8>, a: Seq<i8>, u: int) -> bool {
    let unit = f.shape().unit as int;
    let blk = home_block(f, row, unit * u);
    let k = ((unit * u) % f.shape().elems as int) / unit;
    &&& t.d == f.d(blk, k)
    &&& t.aux == f.aux(blk, k)
    &&& t.sd == wdot(weights_at(f, row, unit * u), a, unit * u, unit as nat)
    &&& t.sm == wdot(mins_at(f, row, unit * u), a, unit * u, unit as nat)
}

/// `terms` are the terms of the first `in_f` elements of the row against the codes `a`.
pub open spec fn is_dot<F: WeightFormat>(f: &F, terms: Seq<Term>, row: Seq<u8>, a: Seq<i8>, in_f: int) -> bool {
    &&& terms.len() == in_f / f.shape().unit as int
    &&& forall|u: int| 0 <= u < terms.len() ==> is_term(f, #[trigger] terms[u], row, a, u)
}

/// The row is long enough to hold `in_f` weights and `in_f` is a whole number of blocks.
pub open spec fn row_fits<F: WeightFormat>(f: &F, row: Seq<u8>, in_f: int) -> bool {
    &&& in_f % f.shape().elems as int == 0
    &&& (in_f / f.shape().elems as int) * f.shape().bytes <= row.len()
}

} // verus!
