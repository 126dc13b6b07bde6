use vstd::prelude::*;

verus! {

/// Catalog index of the binary step: 1 where `slope * x >= 0`, else 0.
pub const ACTIVATION_BINARY_STEP: usize = 0;
/// Catalog index of the linear transform `slope * x`.
pub const ACTIVATION_LINEAR: usize = 1;
/// Catalog index of `tanh(slope * x)`.
pub const ACTIVATION_TANH: usize = 2;
/// Catalog index of `slope / (1 + exp(x))`.
pub const ACTIVATION_SIGMOID: usize = 3;
/// Catalog index of `max(0, slope * x)`.
pub const ACTIVATION_RELU: usize = 4;
/// Catalog index of `max(slope * x, x)`.
pub const ACTIVATION_PARAMETRIC_RELU: usize = 5;
/// Catalog index of `x` for `x >= 0`, else `slope * (exp(x) - 1)`.
pub const ACTIVATION_ELU: usize = 6;
/// Catalog index of `slope * x / (1 + exp(x))`.
pub const ACTIVATION_SWISH: usize = 7;
/// The number of transforms in the catalog; valid indices lie below it.
pub const ACTIVATION_COUNT: usize = 8;

/// Whether `i` names a transform of the catalog.
pub fn is_activation(i: usize) -> (r: bool)
    ensures
        r == (i < ACTIVATION_COUNT),
{
    i < ACTIVATION_COUNT
}

} // verus!
