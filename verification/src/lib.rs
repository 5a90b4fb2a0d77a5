//! CPU inference over block-quantized weights.
//!
//! Everything that is integer or movement of elements stands here with its proof: decoding the
//! block formats, the dot products of weight rows with quantized activations, the choice of kernel,
//! tiles and ranges of a projection, grouping routed rows by expert, the ring of the key/value
//! cache, and the selection of experts and tokens. Numbers are carried as bit patterns; arithmetic
//! on them is left to the caller.
pub mod backend;
pub mod batch;
pub mod bits;
pub mod bytes;
pub mod codebook;
pub mod dispatch;
pub mod dtype;
pub mod format;
pub mod gemm;
pub mod graph;
pub mod grid;
pub mod kernels;
pub mod kquants;
pub mod kv;
pub mod kvquant;
pub mod laws;
pub mod layout;
pub mod legacy;
pub mod linear;
pub mod moe;
pub mod ops;
pub mod quant;
pub mod route;
pub mod rowdot;
pub mod select;
pub mod stats;
pub mod sums;
pub mod ternary;
pub mod tile;
