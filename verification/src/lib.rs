//! A verified core of a Groth16 prover over BLS12-381: proving assignments,
//! density tracking, evaluation domains, multi-scalar multiplication kernels,
//! and the batch proving pipeline. Field and curve arithmetic is delegated to
//! an external mathematics library behind a small set of trusted wrappers.

pub mod assignment;
pub mod density;
pub mod domain;
pub mod err;
pub mod fr;
pub mod locks;
pub mod multiexp;
pub mod point;
pub mod prover;
