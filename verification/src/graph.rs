//! What happens to a graph's tensors before and after its operations run.
use vstd::prelude::*;
use crate::dtype::DType;

verus! {

/// The role of a tensor in a graph.
#[derive(Clone, Copy, PartialEq, Eq, Structural, Debug)]
pub enum TensorKind {
    Input,
    Weight,
    Internal,
    Output,
}

/// A tensor of a graph.
#[derive(Clone, Copy)]
pub struct TensorDecl {
    pub kind: TensorKind,
    pub dtype: DType,
    pub numel: usize,
    /// Whether operations read and write the tensor in its bound buffer.
    pub in_place: bool,
}

/// How a tensor's working values start out.
#[derive(Clone, Copy, PartialEq, Eq, Structural, Debug)]
pub enum Load {
    /// As many zeros.
    Zeros(usize),
    /// The values of its bound buffer.
    Bound,
    /// No working values: it is used from its buffer.
    Nothing,
}

impl TensorDecl {
    /// How the working values start out: zeros for what the graph computes, the bound buffer for
    /// an input, nothing for a weight or a tensor that is used in place.
    pub open spec fn load_of(self) -> Load {
        match self.kind {
            TensorKind::Internal | TensorKind::Output => Load::Zeros(self.numel),
            TensorKind::Input => if self.in_place {
                Load::Nothing
            } else {
                Load::Bound
            },
            TensorKind::Weight => Load::Nothing,
        }
    }

    /// Whether the working values go back to the bound buffer: those of an output, and those of an
    /// input of plain numbers that is not used in place.
    pub open spec fn goes_back(self) -> bool {
        self.kind is Output || (self.kind is Input && self.dtype is F32 && !self.in_place)
    }

    /// How the working values start out.
    pub fn load(self) -> (r: Load)
        ensures
            r == self.load_of(),
    {
        match self.kind {
            TensorKind::Internal | TensorKind::Output => Load::Zeros(self.numel),
            TensorKind::Input => if self.in_place {
                Load::Nothing
            } else {
                Load::Bound
            },
            TensorKind::Weight => Load::Nothing,
        }
    }

    /// Whether the working values go back to the bound buffer.
    pub fn write_back(self) -> (r: bool)
        ensures
            r == self.goes_back(),
    {
        matches!(self.kind, TensorKind::Output) || (matches!(self.kind, TensorKind::Input) && matches!(
            self.dtype,
            DType::F32
        ) && !self.in_place)
    }
}

/// What goes back has working values, so a weight and an input that is used in place are never
/// overwritten by a copy.
pub proof fn law_write_back_has_values(t: TensorDecl)
    requires
        t.goes_back(),
    ensures
        !(t.load_of() is Nothing),
        !(t.kind is Weight),
        t.kind is Input ==> !t.in_place,
{
}

/// What the graph computes starts as zeros, as many as the tensor has elements; an input is read
/// from its buffer unless operations use it there; a weight is never copied. What goes back is every
/// output, and of the inputs those of 32-bit numbers that were read.
pub proof fn law_tensor_roles(t: TensorDecl, load: Load, back: bool)
    requires
        call_ensures(TensorDecl::load, (t,), load),
        call_ensures(TensorDecl::write_back, (t,), back),
    ensures
        t.kind is Internal || t.kind is Output ==> load == Load::Zeros(t.numel),
        t.kind is Input ==> (load is Bound <==> !t.in_place) && (load is Nothing <==> t.in_place),
        t.kind is Weight ==> load is Nothing && !back,
        t.kind is Internal ==> !back,
        t.kind is Output ==> back,
        t.kind is Input ==> (back <==> load is Bound && t.dtype is F32),
{
}

} // verus!
