//! A minimal dense-tensor library: dynamically shaped arrays with elementwise
//! operations and two-dimensional matrix multiplication, together with a small
//! two-layer feed-forward network built on top of them.
//!
//! The element type is generic: every operation that combines or transforms
//! elements takes the scalar arithmetic as a function value, and the contracts
//! relate the result to that function's own contract. Callers instantiate the
//! tensors with their numeric type of choice and supply the arithmetic.

pub mod network;
pub mod tensor;

use vstd::prelude::*;

verus! {

/// The ways a tensor or network operation can fail.
#[derive(Clone, Copy, Debug, PartialEq, Eq, Structural)]
pub enum TensorError {
    /// Elementwise operation on tensors whose shapes differ, or a buffer
    /// whose length does not match the claimed shape.
    ShapeMismatch,
    /// Matrix multiplication on operands that are not two-dimensional, or
    /// whose inner dimensions disagree.
    DimensionError,
    /// A network layer size that is not positive.
    InvalidDimension,
}

} // verus!
