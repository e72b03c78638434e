//! Homomorphic trapdoor commitments to group elements, in the style of
//! Groth's pairing-based scheme, over the BLS12-381 curves.
//!
//! A committer binds to a vector of G2 elements under a public commitment
//! key of G1 elements.  The commitment is a pair of target-group elements
//! computed from bilinear pairings; commitments to two vectors can be
//! combined, without opening either, into a commitment to the pointwise
//! composition of the vectors.
//!
//! Group elements are modelled in specifications by their discrete
//! logarithms with respect to the fixed generators, so every contract here
//! speaks of exponent arithmetic modulo the prime group order.

use vstd::prelude::*;

pub mod algebra;
pub mod codec;
pub mod commitment;
pub mod exponents;

pub use commitment::Commitment;
pub use commitment::CommitmentKey;
pub use commitment::Randomness;
pub use commitment::Values;

verus! {

/// The failures this library reports.  Every operation either fully
/// succeeds or fails with exactly one of these kinds.
#[derive(Clone, Copy, Debug, PartialEq, Eq, Structural)]
pub enum Error {
    /// A value vector's length does not match the commitment key's length.
    InvalidLength,
    /// A supplied point is off-curve or outside the expected prime-order
    /// subgroup.
    InvalidGroupElement,
    /// The entropy source failed to yield a usable (nonzero) scalar
    /// within the sampling bound.
    RandomnessExhausted,
    /// A byte buffer is not the canonical encoding of any valid value.
    MalformedEncoding,
}

} // verus!
