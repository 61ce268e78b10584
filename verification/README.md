# ml_engine

A small neural-network engine (tensors, dense and ReLU layers, softmax
cross-entropy, a two-layer classifier, Adam state, MNIST IDX parsing, a model
file format and a SplitMix64 generator) whose logic is verified with Verus.

- `src/` is the verified library. Its tensors and layers are generic over the
  element type; the arithmetic on elements (sums, products, exponentials,
  comparisons) is passed in as functions, and every contract states its result
  in terms of those functions. Shapes, indexing, the blocked matrix product,
  the order of every fold, the wiring of the forward and backward passes, the
  IDX and model byte formats, batching and the generator are proved.
- `app/` is the `f32` front end: it supplies `f32` arithmetic to the library,
  checks the library's preconditions with the usual panic messages, and does
  the file input and output.
- `tests/` runs the library on concrete values, in integers where exact
  results are wanted and in floating point elsewhere.
