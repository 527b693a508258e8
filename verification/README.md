# gemma4

Gemma 4 text inference on `candle`, with contracts that Verus checks.

- `src/quantized_gemma4` is the model over packed (GGUF) weights: reading its shape from metadata,
  building it from named tensors, forward passes over lanes of cached keys and values, per-layer
  inputs, shared keys and values, and the mixture of experts.
- `src/text` is the model over float parameters.
- `src/mask.rs`, `src/rotary.rs`, `src/attention.rs` and `src/routing.rs` hold what both models
  share: attention masks, rotary tables, attention itself, and the choice of experts.
- `src/metal` schedules command buffers, encoders and fences of a Metal command queue. It asks a
  device for things and takes its answers, and holds no device itself.
- `src/generation.rs` decides what goes into each forward pass of a generation, and when it ends.
- `src/tensor.rs` and the files below it are the boundary to `candle-core` and `candle-nn`. Every
  tensor carries a ghost record of the operations that produced it; contracts speak of records,
  shapes and element types, and leave the arithmetic on entries to `candle`. In main memory they
  also say when an operation is bound to succeed; on other devices `candle` decides.
- `app` reads files, drives devices and prints.

The files named `laws.rs` hold what is true of whole passes and of every schedule: that a pass moves
a lane on by the positions it took, that every cut of a stream into chunks leaves a lane of the same
shapes, that masks fit the keys that are attended, that layers which share keys find their donor, and
that every encoder waits for the one before it.
`src/quantized_gemma4/loading.rs` holds what is true of files: which differences between two of them
leave the model as it is, and that a file determines its model. `src/quantized_gemma4/shapes.rs` says
which shapes of a file's tensors make a model that runs.
