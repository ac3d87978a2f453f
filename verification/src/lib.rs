//! Inference for small neural networks over parameters that stay where they are stored.
//!
//! [`mlp_inference`] walks a flat block of parameters, hands out dense layers over it and runs
//! them. [`linear_algebra`] holds the views and vectors they are made of, [`scalar`] the numbers
//! they compute with, and [`error`] what can go wrong.

pub mod error;
pub mod linear_algebra;
pub mod mlp_inference;
pub mod scalar;

pub use scalar::Numeric;
