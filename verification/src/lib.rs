//! A gradient-tape engine for reverse-mode automatic differentiation over
//! strided, shaped arrays of bfloat16 values, together with the
//! device-kernel dispatch protocol and one exemplar operator
//! (affine normalization).
//!
//! Array elements are bfloat16 values carried as their bit patterns
//! (`u16`); the arithmetic itself is delegated to the `half` crate behind
//! trusted wrappers whose results are named by uninterpreted spec functions.

use vstd::prelude::*;

pub mod scalar;
pub mod shape;
pub mod affine_normalize;
pub mod cpu_kernel;
pub mod pool;
pub mod store;
pub mod tape;
pub mod tensor;

verus! {

/// The errors a forward or backward kernel call can surface.
#[derive(Clone, Copy, Debug, PartialEq, Eq, Structural)]
pub enum Error {
    /// The device could not allocate a gradient buffer.
    Allocation,
    /// Two operands that must share a logical shape do not.
    ShapeMismatch,
}

/// The compute backends an array can live on. Only the CPU backend exists
/// here; the variant tag is what ghost references and kernels dispatch on.
#[derive(Clone, Copy, Debug, PartialEq, Eq, Structural)]
pub enum DeviceKind {
    Cpu,
}

} // verus!
