//! Borrowed views of matrices and vectors, and the owned vector a layer writes.

pub mod vector;
pub mod view;

pub use vector::Vector;
pub use view::{MatrixView, VectorView};
