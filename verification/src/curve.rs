//! The curve-group operations, over 32-byte point encodings.
//!
//! A point travels through this crate as a 32-byte encoding, canonical or
//! not.  Each group operation decodes its arguments, operates, and re-encodes
//! canonically; since decoding is deterministic, the result is a function of
//! the argument encodings alone, and each operation gets a name (`pt_add`,
//! `pt_neg`, ...) that the contracts are stated over.  What the group law
//! makes true of those names is never assumed: every claim about a finished
//! vector is re-checked through these operations at run time.

use vstd::prelude::*;
use vstd::arithmetic::power2::pow2;

use crate::byteval::le_nat;

verus! {

/// Whether the 32 bytes decode to a curve point (canonically encoded or not).
pub uninterp spec fn pt_valid(e: Seq<u8>) -> bool;

/// The canonical re-encoding of a decodable 32-byte point encoding.
pub uninterp spec fn pt_canon(e: Seq<u8>) -> Seq<u8>;

/// The canonical encoding of the negation of the decoded point.
pub uninterp spec fn pt_neg(e: Seq<u8>) -> Seq<u8>;

/// The canonical encoding of the sum of the two decoded points.
pub uninterp spec fn pt_add(a: Seq<u8>, b: Seq<u8>) -> Seq<u8>;

/// The canonical encoding of the difference of the two decoded points.
pub uninterp spec fn pt_sub(a: Seq<u8>, b: Seq<u8>) -> Seq<u8>;

/// The canonical encoding of the decoded point multiplied by the scalar whose
/// low 255 bits are the little-endian value of `s`.
pub uninterp spec fn pt_mul(s: Seq<u8>, e: Seq<u8>) -> Seq<u8>;

/// The canonical encoding of the Ed25519 basepoint multiplied by the scalar
/// whose low 255 bits are the little-endian value of `s`.
pub uninterp spec fn pt_mul_base(s: Seq<u8>) -> Seq<u8>;

/// The canonical encoding of the decoded point multiplied by the cofactor 8.
pub uninterp spec fn pt_mul8(e: Seq<u8>) -> Seq<u8>;

/// Whether the decoded point is the group identity.
pub uninterp spec fn pt_is_id(e: Seq<u8>) -> bool;

/// Relies on `curve25519_dalek::edwards::CompressedEdwardsY::decompress`,
/// which returns `Some` exactly when the bytes decode to a curve point (it
/// accepts non-canonical encodings).
#[verifier::external_body]
pub(crate) fn point_decompress_ok(e: &[u8; 32]) -> (r: bool)
    ensures
        r == pt_valid(e@),
{
    curve25519_dalek::edwards::CompressedEdwardsY(*e).decompress().is_some()
}

/// Relies on `decompress` and `EdwardsPoint::compress`: the canonical
/// re-encoding of the decoded point.  `compress` yields the canonical
/// encoding, which decodes back to the same point, so the result is valid and
/// a fixed point of re-encoding.
#[verifier::external_body]
pub(crate) fn point_canon(e: &[u8; 32]) -> (r: [u8; 32])
    requires
        pt_valid(e@),
    ensures
        r@ == pt_canon(e@),
        pt_valid(r@),
        pt_canon(r@) == r@,
{
    let p = curve25519_dalek::edwards::CompressedEdwardsY(*e).decompress().unwrap();
    p.compress().to_bytes()
}

/// Relies on `decompress`, `EdwardsPoint`'s `Neg` and `compress`.
#[verifier::external_body]
pub(crate) fn point_neg(e: &[u8; 32]) -> (r: [u8; 32])
    requires
        pt_valid(e@),
    ensures
        r@ == pt_neg(e@),
        pt_valid(r@),
        pt_canon(r@) == r@,
{
    let p = curve25519_dalek::edwards::CompressedEdwardsY(*e).decompress().unwrap();
    (-p).compress().to_bytes()
}

/// Relies on `decompress`, `EdwardsPoint`'s `Add` and `compress`.
#[verifier::external_body]
pub(crate) fn point_add(a: &[u8; 32], b: &[u8; 32]) -> (r: [u8; 32])
    requires
        pt_valid(a@),
        pt_valid(b@),
    ensures
        r@ == pt_add(a@, b@),
        pt_valid(r@),
        pt_canon(r@) == r@,
{
    let pa = curve25519_dalek::edwards::CompressedEdwardsY(*a).decompress().unwrap();
    let pb = curve25519_dalek::edwards::CompressedEdwardsY(*b).decompress().unwrap();
    (pa + pb).compress().to_bytes()
}

/// Relies on `decompress`, `EdwardsPoint`'s `Sub` and `compress`.
#[verifier::external_body]
pub(crate) fn point_sub(a: &[u8; 32], b: &[u8; 32]) -> (r: [u8; 32])
    requires
        pt_valid(a@),
        pt_valid(b@),
    ensures
        r@ == pt_sub(a@, b@),
        pt_valid(r@),
        pt_canon(r@) == r@,
{
    let pa = curve25519_dalek::edwards::CompressedEdwardsY(*a).decompress().unwrap();
    let pb = curve25519_dalek::edwards::CompressedEdwardsY(*b).decompress().unwrap();
    (pa - pb).compress().to_bytes()
}

/// Relies on `Scalar::from_bits`, `decompress`, scalar-point `Mul` and
/// `compress`.
#[verifier::external_body]
pub(crate) fn point_mul(s: &[u8; 32], e: &[u8; 32]) -> (r: [u8; 32])
    requires
        pt_valid(e@),
    ensures
        r@ == pt_mul(s@, e@),
        pt_valid(r@),
        pt_canon(r@) == r@,
{
    let k = curve25519_dalek::scalar::Scalar::from_bits(*s);
    let p = curve25519_dalek::edwards::CompressedEdwardsY(*e).decompress().unwrap();
    (k * p).compress().to_bytes()
}

/// Relies on `Scalar::from_bits`, scalar-point `Mul` with
/// `constants::ED25519_BASEPOINT_POINT`, and `compress`.
#[verifier::external_body]
pub(crate) fn point_mul_base(s: &[u8; 32]) -> (r: [u8; 32])
    ensures
        r@ == pt_mul_base(s@),
        pt_valid(r@),
        pt_canon(r@) == r@,
{
    let k = curve25519_dalek::scalar::Scalar::from_bits(*s);
    (k * curve25519_dalek::constants::ED25519_BASEPOINT_POINT).compress().to_bytes()
}

/// Relies on `decompress`, `EdwardsPoint::mul_by_cofactor` (which returns
/// `[8]P` by three doublings) and `compress`.  Doubling the identity yields
/// the identity, so the cofactor multiple of the identity is the identity.
#[verifier::external_body]
pub(crate) fn point_mul8(e: &[u8; 32]) -> (r: [u8; 32])
    requires
        pt_valid(e@),
    ensures
        r@ == pt_mul8(e@),
        pt_valid(r@),
        pt_canon(r@) == r@,
        pt_is_id(e@) ==> pt_is_id(r@),
{
    let p = curve25519_dalek::edwards::CompressedEdwardsY(*e).decompress().unwrap();
    p.mul_by_cofactor().compress().to_bytes()
}

/// Relies on `decompress` and `curve25519_dalek::traits::IsIdentity`.
#[verifier::external_body]
pub(crate) fn point_is_identity(e: &[u8; 32]) -> (r: bool)
    requires
        pt_valid(e@),
    ensures
        r == pt_is_id(e@),
{
    let p = curve25519_dalek::edwards::CompressedEdwardsY(*e).decompress().unwrap();
    curve25519_dalek::traits::IsIdentity::is_identity(&p)
}

/// Relies on `EdwardsPoint::vartime_double_scalar_mul_basepoint`, documented
/// as computing `aA + bB` for the Ed25519 basepoint `B`; the result therefore
/// coincides with the composition of the named single operations.
#[verifier::external_body]
pub(crate) fn double_scalar_mul_basepoint(k: &[u8; 32], a: &[u8; 32], s: &[u8; 32]) -> (r: [u8; 32])
    requires
        pt_valid(a@),
    ensures
        r@ == pt_add(pt_mul(k@, a@), pt_mul_base(s@)),
        pt_valid(r@),
        pt_canon(r@) == r@,
{
    let sk = curve25519_dalek::scalar::Scalar::from_bits(*k);
    let ss = curve25519_dalek::scalar::Scalar::from_bits(*s);
    let pa = curve25519_dalek::edwards::CompressedEdwardsY(*a).decompress().unwrap();
    let p = curve25519_dalek::edwards::EdwardsPoint::vartime_double_scalar_mul_basepoint(
        &sk,
        &pa,
        &ss,
    );
    p.compress().to_bytes()
}

} // verus!
