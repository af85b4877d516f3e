//! The three candidate Ed25519 verification equations.
//!
//! Each predicate takes the public key, the signature pair `(R, S)` and the
//! commitment scalar `k`, and accepts or rejects:
//!
//! * cofactored: `[8](R − ([k](−A) + [S]B))` must be the identity;
//! * cofactorless: `R − ([k](−A) + [S]B)` must be the identity;
//! * pre-reduced cofactored: `[8]R − ([8k mod L](−A) + [8S mod L]B)` must be
//!   the identity — the common implementation mistake of reducing `8k` in the
//!   scalar field instead of clearing the cofactor on the point side, which
//!   the engine manufactures vectors against.

use vstd::prelude::*;
use vstd::arithmetic::div_mod::{lemma_mod_multiples_vanish, lemma_small_mod};
use vstd::arithmetic::power2::{lemma_pow2_strictly_increases, pow2};

use crate::byteval::{le_bytes, le_nat, lemma_le_bytes_le_nat, lemma_le_nat_single};
use crate::curve::{
    double_scalar_mul_basepoint, point_is_identity, point_mul8, point_neg, point_sub, pt_add,
    pt_canon, pt_is_id, pt_mul, pt_mul8, pt_mul_base, pt_neg, pt_sub, pt_valid,
};
use crate::hashes::{compute_hram, spec_hram};
use crate::scalar_arith::{scalar_mul_mod, scalar_reduce};
use crate::wide_scalar::{group_order, lemma_group_order_bounds};

verus! {

/// The integer 8, as a reduced scalar.
pub fn eight() -> (r: [u8; 32])
    ensures
        le_nat(r@) == 8,
        le_nat(r@) < group_order(),
{
    let mut bytes = [0u8; 32];
    bytes[0] = bytes[0] | 8;
    proof {
        assert(0u8 | 8u8 == 8u8) by (bit_vector);
        assert(bytes@[0] == 8u8);
        lemma_le_nat_single(bytes@, 0);
        vstd::arithmetic::power2::lemma2_to64();
        lemma_group_order_bounds();
        lemma_small_mod(8, group_order());
    }
    scalar_reduce(&bytes)
}

/// Whether the scalar's integer value is divisible by eight.
pub open spec fn spec_multiple_of_eight(s: Seq<u8>) -> bool {
    le_nat(s) % 8 == 0
}

/// Check divisibility by eight through the low bits of the least significant
/// byte.
pub fn multiple_of_eight_le(scalar: &[u8; 32]) -> (r: bool)
    ensures
        r == spec_multiple_of_eight(scalar@),
{
    let b = scalar[0];
    let r = b.trailing_zeros() >= 3;
    proof {
        vstd::std_specs::bits::axiom_u8_trailing_zeros(b);
        let t = vstd::std_specs::bits::u8_trailing_zeros(b) as u8;
        if t >= 3 {
            assert(((b >> 0u8) & 1u8 == 0u8 && (b >> 1u8) & 1u8 == 0u8 && (b >> 2u8) & 1u8 == 0u8)
                ==> b % 8 == 0) by (bit_vector);
        } else {
            assert(b % 8 == 0 && t < 3 ==> (b >> t) & 1u8 == 0u8) by (bit_vector);
        }
        lemma_le_nat_low_bits(scalar@);
    }
    r
}

/// The value modulo eight is the low byte modulo eight.
pub proof fn lemma_le_nat_low_bits(s: Seq<u8>)
    requires
        s.len() >= 1,
    ensures
        le_nat(s) % 8 == (s[0] as nat) % 8,
{
    let rest = le_nat(s.skip(1));
    assert(le_nat(s) == s[0] as nat + 8 * (32 * rest));
    lemma_mod_multiples_vanish(32 * rest as int, s[0] as int, 8);
}

/// The cofactored equation over encodings, for commitment bytes `k`.
pub open spec fn cofactored_eq(pk: Seq<u8>, r: Seq<u8>, s: Seq<u8>, k: Seq<u8>) -> bool {
    pt_is_id(pt_mul8(pt_sub(r, pt_add(pt_mul(k, pt_neg(pk)), pt_mul_base(s)))))
}

/// The cofactorless equation over encodings, for commitment bytes `k`.
pub open spec fn cofactorless_eq(pk: Seq<u8>, r: Seq<u8>, s: Seq<u8>, k: Seq<u8>) -> bool {
    pt_is_id(pt_sub(r, pt_add(pt_mul(k, pt_neg(pk)), pt_mul_base(s))))
}

/// The pre-reduced cofactored equation: `8k` and `8S` are reduced modulo `L`
/// before the scalar multiplications, instead of clearing the cofactor on the
/// point side only.
pub open spec fn pre_reduced_eq(pk: Seq<u8>, r: Seq<u8>, s: Seq<u8>, k: Seq<u8>) -> bool {
    let ek = le_bytes((8 * le_nat(k)) % group_order(), 32);
    let es = le_bytes((8 * le_nat(s)) % group_order(), 32);
    pt_is_id(pt_sub(pt_mul8(r), pt_add(pt_mul(ek, pt_neg(pk)), pt_mul_base(es))))
}

/// The cofactored predicate with the commitment computed from the canonical
/// re-encodings of `R` and the public key.
pub open spec fn spec_cofactored(m: Seq<u8>, pk: Seq<u8>, r: Seq<u8>, s: Seq<u8>) -> bool {
    cofactored_eq(pk, r, s, le_bytes(spec_hram(pt_canon(r), pt_canon(pk), m), 32))
}

/// The cofactorless predicate with the commitment computed from the canonical
/// re-encodings of `R` and the public key.
pub open spec fn spec_cofactorless(m: Seq<u8>, pk: Seq<u8>, r: Seq<u8>, s: Seq<u8>) -> bool {
    cofactorless_eq(pk, r, s, le_bytes(spec_hram(pt_canon(r), pt_canon(pk), m), 32))
}

/// The pre-reduced cofactored predicate with the canonical commitment.
pub open spec fn spec_pre_reduced_cofactored(m: Seq<u8>, pk: Seq<u8>, r: Seq<u8>, s: Seq<u8>) -> bool {
    pre_reduced_eq(pk, r, s, le_bytes(spec_hram(pt_canon(r), pt_canon(pk), m), 32))
}

/// The cofactorless predicate with the commitment computed from the raw wire
/// bytes of `R` instead of its canonical re-encoding.
pub open spec fn spec_cofactorless_raw_r(m: Seq<u8>, pk: Seq<u8>, r: Seq<u8>, s: Seq<u8>) -> bool {
    cofactorless_eq(pk, r, s, le_bytes(spec_hram(r, pt_canon(pk), m), 32))
}

/// The cofactorless predicate with the commitment computed from raw public
/// key bytes instead of their canonical re-encoding.
pub open spec fn spec_cofactorless_raw_pk(m: Seq<u8>, pk: Seq<u8>, r: Seq<u8>, s: Seq<u8>) -> bool {
    cofactorless_eq(pk, r, s, le_bytes(spec_hram(pt_canon(r), pk, m), 32))
}

/// The cofactored predicate with the commitment computed from the raw wire
/// bytes of `R`.
pub open spec fn spec_cofactored_raw_r(m: Seq<u8>, pk: Seq<u8>, r: Seq<u8>, s: Seq<u8>) -> bool {
    cofactored_eq(pk, r, s, le_bytes(spec_hram(r, pt_canon(pk), m), 32))
}

/// The cofactored predicate with the commitment computed from raw public key
/// bytes.
pub open spec fn spec_cofactored_raw_pk(m: Seq<u8>, pk: Seq<u8>, r: Seq<u8>, s: Seq<u8>) -> bool {
    cofactored_eq(pk, r, s, le_bytes(spec_hram(pt_canon(r), pk, m), 32))
}


/// Decide the cofactored equation for a known commitment.
pub fn verify_final_cofactored(
    pub_key: &[u8; 32],
    unpacked_signature: &([u8; 32], [u8; 32]),
    hash: &[u8; 32],
) -> (accepted: bool)
    requires
        pt_valid(pub_key@),
        pt_valid(unpacked_signature.0@),
    ensures
        accepted == cofactored_eq(
            pub_key@,
            unpacked_signature.0@,
            unpacked_signature.1@,
            hash@,
        ),
        // anything cofactorless accepts, the cofactored check accepts too:
        // clearing the cofactor of the identity leaves the identity
        cofactorless_eq(pub_key@, unpacked_signature.0@, unpacked_signature.1@, hash@)
            ==> accepted,
{
    let neg_pk = point_neg(pub_key);
    let rprime = double_scalar_mul_basepoint(hash, &neg_pk, &unpacked_signature.1);
    let diff = point_sub(&unpacked_signature.0, &rprime);
    let cleared = point_mul8(&diff);
    point_is_identity(&cleared)
}

/// Decide the cofactorless equation for a known commitment.
pub fn verify_final_cofactorless(
    pub_key: &[u8; 32],
    unpacked_signature: &([u8; 32], [u8; 32]),
    hash: &[u8; 32],
) -> (accepted: bool)
    requires
        pt_valid(pub_key@),
        pt_valid(unpacked_signature.0@),
    ensures
        accepted == cofactorless_eq(
            pub_key@,
            unpacked_signature.0@,
            unpacked_signature.1@,
            hash@,
        ),
{
    let neg_pk = point_neg(pub_key);
    let rprime = double_scalar_mul_basepoint(hash, &neg_pk, &unpacked_signature.1);
    let diff = point_sub(&unpacked_signature.0, &rprime);
    point_is_identity(&diff)
}

/// Decide the pre-reduced cofactored equation for a known commitment.
pub fn verify_final_pre_reduced_cofactored(
    pub_key: &[u8; 32],
    unpacked_signature: &([u8; 32], [u8; 32]),
    hash: &[u8; 32],
) -> (accepted: bool)
    requires
        pt_valid(pub_key@),
        pt_valid(unpacked_signature.0@),
        le_nat(unpacked_signature.1@) < pow2(255),
        le_nat(hash@) < group_order(),
    ensures
        accepted == pre_reduced_eq(
            pub_key@,
            unpacked_signature.0@,
            unpacked_signature.1@,
            hash@,
        ),
{
    proof {
        lemma_group_order_bounds();
        lemma_pow2_strictly_increases(253, 255);
    }
    let e = eight();
    let eight_hash = scalar_mul_mod(&e, hash);
    let eight_s = scalar_mul_mod(&e, &unpacked_signature.1);
    proof {
        lemma_le_bytes_le_nat(eight_hash@);
        lemma_le_bytes_le_nat(eight_s@);
    }
    let neg_pk = point_neg(pub_key);
    let rprime = double_scalar_mul_basepoint(&eight_hash, &neg_pk, &eight_s);
    let r8 = point_mul8(&unpacked_signature.0);
    let diff = point_sub(&r8, &rprime);
    point_is_identity(&diff)
}

/// Cofactored verification with the canonical commitment.
pub fn verify_cofactored(
    message: &[u8],
    pub_key: &[u8; 32],
    unpacked_signature: &([u8; 32], [u8; 32]),
) -> (accepted: bool)
    requires
        pt_valid(pub_key@),
        pt_valid(unpacked_signature.0@),
    ensures
        accepted == spec_cofactored(
            message@,
            pub_key@,
            unpacked_signature.0@,
            unpacked_signature.1@,
        ),
        // the cofactored predicate accepts a superset of the cofactorless one
        spec_cofactorless(message@, pub_key@, unpacked_signature.0@, unpacked_signature.1@)
            ==> accepted,
{
    let k = compute_hram(message, pub_key, &unpacked_signature.0);
    proof {
        lemma_le_bytes_le_nat(k@);
    }
    verify_final_cofactored(pub_key, unpacked_signature, &k)
}

/// Cofactorless verification with the canonical commitment.
pub fn verify_cofactorless(
    message: &[u8],
    pub_key: &[u8; 32],
    unpacked_signature: &([u8; 32], [u8; 32]),
) -> (accepted: bool)
    requires
        pt_valid(pub_key@),
        pt_valid(unpacked_signature.0@),
    ensures
        accepted == spec_cofactorless(
            message@,
            pub_key@,
            unpacked_signature.0@,
            unpacked_signature.1@,
        ),
{
    let k = compute_hram(message, pub_key, &unpacked_signature.0);
    proof {
        lemma_le_bytes_le_nat(k@);
    }
    verify_final_cofactorless(pub_key, unpacked_signature, &k)
}

/// Pre-reduced cofactored verification with the canonical commitment.
pub fn verify_pre_reduced_cofactored(
    message: &[u8],
    pub_key: &[u8; 32],
    unpacked_signature: &([u8; 32], [u8; 32]),
) -> (accepted: bool)
    requires
        pt_valid(pub_key@),
        pt_valid(unpacked_signature.0@),
        le_nat(unpacked_signature.1@) < pow2(255),
    ensures
        accepted == spec_pre_reduced_cofactored(
            message@,
            pub_key@,
            unpacked_signature.0@,
            unpacked_signature.1@,
        ),
{
    let k = compute_hram(message, pub_key, &unpacked_signature.0);
    proof {
        lemma_le_bytes_le_nat(k@);
    }
    verify_final_pre_reduced_cofactored(pub_key, unpacked_signature, &k)
}

/// Cofactorless verification hashing the raw wire bytes of `R`.
pub fn verify_cofactorless_with_r_array(
    message: &[u8],
    pub_key: &[u8; 32],
    raw_r: &[u8; 32],
    unpacked_signature: &([u8; 32], [u8; 32]),
) -> (accepted: bool)
    requires
        pt_valid(pub_key@),
        pt_valid(unpacked_signature.0@),
        raw_r@ == unpacked_signature.0@,
    ensures
        accepted == spec_cofactorless_raw_r(
            message@,
            pub_key@,
            unpacked_signature.0@,
            unpacked_signature.1@,
        ),
{
    let k = crate::hashes::compute_hram_with_r_array(message, pub_key, raw_r.as_slice());
    proof {
        lemma_le_bytes_le_nat(k@);
    }
    verify_final_cofactorless(pub_key, unpacked_signature, &k)
}

/// Cofactorless verification hashing the raw wire bytes of the public key.
pub fn verify_cofactorless_with_pk_array(
    message: &[u8],
    pub_key: &[u8; 32],
    raw_pk: &[u8; 32],
    unpacked_signature: &([u8; 32], [u8; 32]),
) -> (accepted: bool)
    requires
        pt_valid(pub_key@),
        pt_valid(unpacked_signature.0@),
        raw_pk@ == pub_key@,
    ensures
        accepted == spec_cofactorless_raw_pk(
            message@,
            pub_key@,
            unpacked_signature.0@,
            unpacked_signature.1@,
        ),
{
    let k = crate::hashes::compute_hram_with_pk_array(
        message,
        raw_pk.as_slice(),
        &unpacked_signature.0,
    );
    proof {
        lemma_le_bytes_le_nat(k@);
    }
    verify_final_cofactorless(pub_key, unpacked_signature, &k)
}

/// Cofactored verification hashing the raw wire bytes of `R`.
pub fn verify_cofactored_with_r_array(
    message: &[u8],
    pub_key: &[u8; 32],
    raw_r: &[u8; 32],
    unpacked_signature: &([u8; 32], [u8; 32]),
) -> (accepted: bool)
    requires
        pt_valid(pub_key@),
        pt_valid(unpacked_signature.0@),
        raw_r@ == unpacked_signature.0@,
    ensures
        accepted == spec_cofactored_raw_r(
            message@,
            pub_key@,
            unpacked_signature.0@,
            unpacked_signature.1@,
        ),
        spec_cofactorless_raw_r(message@, pub_key@, unpacked_signature.0@, unpacked_signature.1@)
            ==> accepted,
{
    let k = crate::hashes::compute_hram_with_r_array(message, pub_key, raw_r.as_slice());
    proof {
        lemma_le_bytes_le_nat(k@);
    }
    verify_final_cofactored(pub_key, unpacked_signature, &k)
}

/// Cofactored verification hashing the raw wire bytes of the public key.
pub fn verify_cofactored_with_pk_array(
    message: &[u8],
    pub_key: &[u8; 32],
    raw_pk: &[u8; 32],
    unpacked_signature: &([u8; 32], [u8; 32]),
) -> (accepted: bool)
    requires
        pt_valid(pub_key@),
        pt_valid(unpacked_signature.0@),
        raw_pk@ == pub_key@,
    ensures
        accepted == spec_cofactored_raw_pk(
            message@,
            pub_key@,
            unpacked_signature.0@,
            unpacked_signature.1@,
        ),
        spec_cofactorless_raw_pk(message@, pub_key@, unpacked_signature.0@, unpacked_signature.1@)
            ==> accepted,
{
    let k = crate::hashes::compute_hram_with_pk_array(
        message,
        raw_pk.as_slice(),
        &unpacked_signature.0,
    );
    proof {
        lemma_le_bytes_le_nat(k@);
    }
    verify_final_cofactored(pub_key, unpacked_signature, &k)
}

} // verus!
