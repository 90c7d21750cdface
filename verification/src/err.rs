use vstd::prelude::*;

verus! {

/// Errors raised by the multiexp kernels and their drivers.
#[derive(Clone, Copy, Debug, PartialEq, Eq)]
pub enum GPUError {
    /// A fatal kernel error, with a short description.
    Simple(&'static str),
    /// A higher-priority job demanded the device; the caller should retry.
    GPUTaken,
}

/// Errors surfaced by the proving pipeline.
#[derive(Clone, Copy, Debug, PartialEq, Eq)]
pub enum SynthesisError {
    /// A variable assignment was not provided or is not a field element.
    AssignmentMissing,
    /// A division by zero occurred during polynomial arithmetic.
    DivisionByZero,
    /// The constraint systems of a batch are not all of the same size.
    Unsatisfiable,
    /// The evaluation domain would outgrow the supported sizing of
    /// `2^31` coefficients.
    PolynomialDegreeTooLarge,
    /// A verifying-key element that must not be the identity is the identity.
    UnexpectedIdentity,
    /// A parameter slice is shorter than the query it must serve.
    MalformedVerifyingKey,
    /// A kernel error that reached the pipeline.
    GpuError(GPUError),
}

} // verus!
