# infr_cpu

CPU inference over block-quantized weights, verified with Verus.

The library computes the exact integer part of a forward pass and moves its elements:

- `bits`, `format`, `kquants`, `legacy`, `codebook`, `grid`, `ternary`: the block formats, each as
  the integer codes, scales and mins that its bytes stand for.
- `quant`: activation rows of signed 8-bit codes with their sums.
- `rowdot`, `kernels`, `tile`, `batch`: a weight row, a pair of rows or a tile of eight rows against
  a batch of activation rows. A kernel returns one `Term` for each unit of the format.
- `dtype`, `dispatch`, `gemm`, `linear`: which kernel a weight type gets, and the rows of a
  projection or of a range of it.
- `route`, `moe`, `stats`: rows grouped by expert, the expert products of a batch, and the spread of
  the work.
- `kv`, `kvquant`, `bytes`: the ring of the key/value cache, its packed blocks, and plain numbers in
  memory.
- `select`, `ops`, `layout`: selection by value, and where operations find their operands.
- `graph`, `backend`: what happens to a graph's tensors, host buffers, and what is kept from call to
  call.
- `laws`: what holds of the kernels taken together.

Floating-point arithmetic stands outside the library, in `app/`: the scales that are folded into the
terms, norms, activations, softmax, and the walk over a graph.

What is trusted: the four casts between words and bytes in `bytes.rs`, which call `bytemuck`.
