//! Scalar activation functions. Their formulas belong to the scalar type
//! and are supplied with it.
use vstd::prelude::*;

verus! {

/// Rectified linear unit: `max(x, 0)`, derivative `1` for `x > 0`, else `0`.
pub struct ReLU;

/// Logistic sigmoid: `1 / (1 + e^-x)`, derivative `s(x)(1 - s(x))`.
pub struct Sigmoid;

/// Hyperbolic tangent, derivative `1 - tanh(x)^2`.
pub struct Tanh;

} // verus!
