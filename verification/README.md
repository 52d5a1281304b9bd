# burn (verified core)

Building blocks of a deep-learning framework, written in Verus with their
contracts proved:

- `gpu`: the kernel dialect, the expansion of global reads into operations, and
  the pass that merges reads sharing a layout.
- `autodiff`: the schedule of a backward pass over the graph of recorded
  operations, the gradients container, and autodiff tensors.
- `fusion`: the optimizations found in a stream of operations, by first operation.
- `compute`: an in-memory compute server, its client and autotune benchmarks.
- `dataset`, `learner`: datasets, data loaders, and the training loop: the
  epochs a fit runs, the training and validation steps of an epoch (each item
  stepped on the model the items before it left, gradients applied at once or
  summed over a period), checkpoints, and multi-device steps.
- `param`, `record`: parameter states and their loading; file recorders'
  framing of serialized records (gzip through `flate2`).
- `wgpu`, `ndarray_shape`, `candle`, `onnx`: kernel settings and metadata,
  shapes of batched products, the options a backend supports, the imported
  graph's types and module adapters.

`app/` holds what the library cannot: file and thread I/O, floating-point
kernels, the wgpu device (buffers, kernel compilation and dispatch) and
Candle's convolutions and poolings, system probes, code generation with
`quote`, and the serde and strum views of the library's types.
