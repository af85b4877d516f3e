//! Scalar arithmetic modulo the group order, over 32-byte encodings.
//!
//! Every scalar passes through this module as its little-endian encoding; the
//! contracts state the modular arithmetic exactly, so nothing about the field
//! is taken on faith beyond the outside library computing it.

use vstd::prelude::*;
use vstd::arithmetic::power2::pow2;

use crate::byteval::le_nat;
use crate::wide_scalar::group_order;

verus! {

/// Relies on `curve25519_dalek::scalar::Scalar::from_bytes_mod_order` and
/// `Scalar::to_bytes`: the result encodes the input value reduced modulo `L`.
#[verifier::external_body]
pub(crate) fn scalar_reduce(b: &[u8; 32]) -> (r: [u8; 32])
    ensures
        le_nat(r@) == le_nat(b@) % group_order(),
        le_nat(r@) < group_order(),
{
    curve25519_dalek::scalar::Scalar::from_bytes_mod_order(*b).to_bytes()
}

/// Relies on `Scalar::from_bytes_mod_order_wide`: the result encodes a 512-bit
/// little-endian value reduced modulo `L`.
#[verifier::external_body]
pub(crate) fn scalar_reduce_wide(b: &[u8; 64]) -> (r: [u8; 32])
    ensures
        le_nat(r@) == le_nat(b@) % group_order(),
        le_nat(r@) < group_order(),
{
    curve25519_dalek::scalar::Scalar::from_bytes_mod_order_wide(b).to_bytes()
}

/// Relies on `Scalar` multiplication: the product of two scalars below
/// `2^255` (the type's own invariant), reduced modulo `L`.
#[verifier::external_body]
pub(crate) fn scalar_mul_mod(a: &[u8; 32], b: &[u8; 32]) -> (r: [u8; 32])
    requires
        le_nat(a@) < pow2(255),
        le_nat(b@) < pow2(255),
    ensures
        le_nat(r@) == (le_nat(a@) * le_nat(b@)) % group_order(),
        le_nat(r@) < group_order(),
{
    let sa = curve25519_dalek::scalar::Scalar::from_bits(*a);
    let sb = curve25519_dalek::scalar::Scalar::from_bits(*b);
    (sa * sb).to_bytes()
}

/// Relies on `Scalar` addition: the sum of two reduced scalars modulo `L`.
/// Addition subtracts `L` at most once, so both inputs must already be
/// reduced.
#[verifier::external_body]
pub(crate) fn scalar_add_mod(a: &[u8; 32], b: &[u8; 32]) -> (r: [u8; 32])
    requires
        le_nat(a@) < group_order(),
        le_nat(b@) < group_order(),
    ensures
        le_nat(r@) == (le_nat(a@) + le_nat(b@)) % group_order(),
        le_nat(r@) < group_order(),
{
    let sa = curve25519_dalek::scalar::Scalar::from_bits(*a);
    let sb = curve25519_dalek::scalar::Scalar::from_bits(*b);
    (sa + sb).to_bytes()
}

} // verus!
