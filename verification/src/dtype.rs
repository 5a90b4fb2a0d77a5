//! Element types and the sizes of their blocks.
use vstd::prelude::*;

verus! {

/// The element type of a tensor.
#[derive(Clone, Copy, PartialEq, Eq, Structural, Debug)]
pub enum DType {
    F32,
    F16,
    Bf16,
    I32,
    U32,
    Q4_0,
    Q4_1,
    Q5_0,
    Q5_1,
    Q8_0,
    Q2_0,
    Q2K,
    Q3K,
    Q4K,
    Q5K,
    Q6K,
    Iq1S,
    Iq1M,
    Iq2Xxs,
    Iq2Xs,
    Iq2S,
    Iq3Xxs,
    Iq3S,
    Iq4Nl,
    Iq4Xs,
    Tq1_0,
    Tq2_0,
    Mxfp4,
    Nvfp4,
    Turbo2,
    Turbo3,
    Turbo4,
}

impl DType {
    /// Whether the type is a block-quantized weight format with an integer kernel.
    pub open spec fn is_quant(self) -> bool {
        self.elems() != 1
    }

    /// The number of elements in a block; 1 for a type without blocks.
    pub open spec fn elems(self) -> int {
        match self {
            DType::Q8_0 | DType::Q5_0 | DType::Q4_0 | DType::Q4_1 | DType::Q5_1 | DType::Iq4Nl | DType::Mxfp4 => 32,
            DType::Q2_0 | DType::Nvfp4 => 64,
            DType::Q4K | DType::Q5K | DType::Q6K | DType::Q2K | DType::Q3K | DType::Iq4Xs | DType::Iq2S | DType::Iq2Xs | DType::Iq2Xxs | DType::Iq3S | DType::Iq3Xxs | DType::Iq1S | DType::Iq1M | DType::Tq1_0 | DType::Tq2_0 => 256,
            _ => 1,
        }
    }

    /// The number of bytes of a block of a weight format; 0 for the other types.
    pub open spec fn bytes(self) -> int {
        match self {
            DType::Q4K => 144,
            DType::Q5K => 176,
            DType::Q6K => 210,
            DType::Q2K => 84,
            DType::Q3K => 110,
            DType::Iq4Xs => 136,
            DType::Iq2S => 82,
            DType::Iq2Xs => 74,
            DType::Iq2Xxs => 66,
            DType::Iq3S => 110,
            DType::Iq3Xxs => 98,
            DType::Iq1S => 50,
            DType::Iq1M => 56,
            DType::Tq1_0 => 54,
            DType::Tq2_0 => 66,
            DType::Q8_0 => 34,
            DType::Q5_0 => 22,
            DType::Q4_0 => 18,
            DType::Q4_1 => 20,
            DType::Q5_1 => 24,
            DType::Iq4Nl => 18,
            DType::Mxfp4 => 17,
            DType::Q2_0 => 18,
            DType::Nvfp4 => 36,
            _ => 0,
        }
    }

    /// The number of elements in a block.
    pub fn block_elems(self) -> (r: usize)
        ensures
            r == self.elems(),
    {
        match self {
            DType::Q8_0 | DType::Q5_0 | DType::Q4_0 | DType::Q4_1 | DType::Q5_1 | DType::Iq4Nl | DType::Mxfp4 => 32,
            DType::Q2_0 | DType::Nvfp4 => 64,
            DType::Q4K | DType::Q5K | DType::Q6K | DType::Q2K | DType::Q3K | DType::Iq4Xs | DType::Iq2S | DType::Iq2Xs | DType::Iq2Xxs | DType::Iq3S | DType::Iq3Xxs | DType::Iq1S | DType::Iq1M | DType::Tq1_0 | DType::Tq2_0 => 256,
            _ => 1,
        }
    }

    /// The number of bytes of a block.
    pub fn block_bytes(self) -> (r: usize)
        ensures
            r == self.bytes(),
    {
        match self {
            DType::Q4K => 144,
            DType::Q5K => 176,
            DType::Q6K => 210,
            DType::Q2K => 84,
            DType::Q3K => 110,
            DType::Iq4Xs => 136,
            DType::Iq2S => 82,
            DType::Iq2Xs => 74,
            DType::Iq2Xxs => 66,
            DType::Iq3S => 110,
            DType::Iq3Xxs => 98,
            DType::Iq1S => 50,
            DType::Iq1M => 56,
            DType::Tq1_0 => 54,
            DType::Tq2_0 => 66,
            DType::Q8_0 => 34,
            DType::Q5_0 => 22,
            DType::Q4_0 => 18,
            DType::Q4_1 => 20,
            DType::Q5_1 => 24,
            DType::Iq4Nl => 18,
            DType::Mxfp4 => 17,
            DType::Q2_0 => 18,
            DType::Nvfp4 => 36,
            _ => 0,
        }
    }
}

} // verus!
