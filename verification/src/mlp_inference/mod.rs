//! Forward-pass inference for a multi-layer perceptron, over borrowed parameters.
//!
//! A learned policy is a stack of dense layers. Each forms one weighted sum per output,
//! `weights · input + biases`, and passes every sum through a scalar [`Activation`]. One layer's
//! output is the next layer's input, and the last one's is the action the policy was trained to
//! produce.
//!
//! The parameters are borrowed, so nothing is copied and only the activations are written. A
//! trained network arrives as one flat block of numbers, which [`ParameterCursor`] walks: each
//! layer's shape is declared once, where the layer is read, and the offsets follow from the
//! shapes.
//!
//! Widths are const parameters, so a mismatched chain is a build error. Nothing allocates and
//! nothing panics.

pub mod cursor;
pub mod layer;
pub mod laws;
pub mod network;

pub use cursor::ParameterCursor;
pub use layer::{Activation, Dense, Layer};
