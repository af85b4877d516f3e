//! The failures that catalog construction can surface.
//!
//! Construction never emits a questionable vector: every routine checks the
//! finished triple against the verification equations and aborts with
//! [`VectorError::InvariantViolation`] on any mismatch.

use vstd::prelude::*;

verus! {

/// An error from building or decoding an adversarial vector.
#[derive(Debug, Clone, Copy, PartialEq, Eq, Structural)]
pub enum VectorError {
    /// A byte string had the wrong length or did not decode to a curve point.
    Decode,
    /// A finished vector failed its self-check against the verification equations.
    InvariantViolation,
    /// The rejection-sampling search began in a state that already met (or can
    /// never meet) its target condition.
    SearchDegenerate,
    /// The rejection-sampling search gave up after the maximum number of draws.
    SearchExhausted,
}

} // verus!
