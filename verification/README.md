# multicalc

Forward-pass inference for multi-layer perceptrons over borrowed parameters, verified with Verus.

- `src/mlp_inference/cursor.rs`: `ParameterCursor`, which walks one flat block of parameters.
- `src/mlp_inference/layer.rs`: `Activation`, `Layer`, and `Dense`, the layer as a mathematical
  object that the contracts speak of.
- `src/mlp_inference/network.rs`: stacks of layers, how they lie in a buffer and what they compute.
- `src/mlp_inference/laws.rs`: what holds of every network, as public proof functions.
- `src/linear_algebra/`: the matrix and vector views, and the owned vector.
- `src/scalar.rs`: `Numeric`, the trait of the numbers a network computes with.
- `src/error.rs`: `LinalgError`.
- `app/`: single- and double-precision scalars.

A read that does not fit reports `OutOfBounds` and leaves the position where it was. A layer's
forward pass never fails. Parameters are read without copying: the types borrow slices, and a test
in `tests/cursor.rs` compares addresses; the proofs speak of values only.

What is proved of a layer's arithmetic holds of scalars that keep to the contracts of `Numeric`.
For the floating-point scalars in `app/` nothing checks that.
