//! Generation of adversarial Ed25519 test vectors.
//!
//! The crate builds (message, public key, signature) triples that expose the
//! semantic differences between the verification equations used by real
//! Ed25519 implementations: cofactored versus cofactorless verification,
//! pre-reduction of hash scalars, non-canonical point encodings and
//! out-of-range scalars.

pub mod byteval;
pub mod curve;
pub mod errors;
pub mod hashes;
pub mod rng;
pub mod scalar_arith;
pub mod vectors;
pub mod verify;
pub mod wide_scalar;

pub use errors::VectorError;
pub use vectors::{
    check_slice_size, deserialize_point, deserialize_scalar, deserialize_signature,
    generate_test_vectors, large_s, non_zero_mixed_mixed, non_zero_mixed_small,
    non_zero_mixed_small_non_canonical, non_zero_small_mixed, non_zero_small_non_canonical_mixed,
    pick_small_nonzero_point, pre_reduced_scalar, really_large_s, serialize_signature,
    zero_small_small, TestVector, EIGHT_TORSION, EIGHT_TORSION_NON_CANONICAL,
};
pub use wide_scalar::Scalar52;
