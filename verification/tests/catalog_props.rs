//! The generated catalog: determinism and the documented verification
//! outcomes of every category.

use ed25519_speccheck::verify::{
    verify_cofactored, verify_cofactored_with_pk_array, verify_cofactored_with_r_array,
    verify_cofactorless, verify_cofactorless_with_pk_array, verify_cofactorless_with_r_array,
    verify_pre_reduced_cofactored,
};
use ed25519_speccheck::{
    generate_test_vectors, large_s, non_zero_mixed_mixed, non_zero_mixed_small,
    non_zero_mixed_small_non_canonical, non_zero_small_mixed,
    non_zero_small_non_canonical_mixed, pre_reduced_scalar, really_large_s, zero_small_small,
    TestVector, EIGHT_TORSION,
};

use curve25519_dalek::constants::ED25519_BASEPOINT_POINT;
use rand::{RngCore, SeedableRng};

fn unpack(tv: &TestVector) -> ([u8; 32], [u8; 32]) {
    let mut r = [0u8; 32];
    r.copy_from_slice(&tv.signature[..32]);
    let mut s = [0u8; 32];
    s.copy_from_slice(&tv.signature[32..]);
    (r, s)
}

#[test]
fn catalog_has_twelve_vectors() {
    let v = generate_test_vectors().unwrap();
    assert_eq!(v.len(), 12);
    for tv in v.iter() {
        assert_eq!(tv.signature.len(), 64);
    }
}

#[test]
fn catalog_is_deterministic() {
    let v1 = generate_test_vectors().unwrap();
    let v2 = generate_test_vectors().unwrap();
    assert_eq!(v1.len(), v2.len());
    for (a, b) in v1.iter().zip(v2.iter()) {
        assert_eq!(a.message, b.message);
        assert_eq!(a.pub_key, b.pub_key);
        assert_eq!(a.signature, b.signature);
    }
}

#[test]
fn catalog_outcomes_match_documentation() {
    let v = generate_test_vectors().unwrap();
    // expected (cofactored, cofactorless) under the canonical commitment,
    // for the vectors whose commitment variant is the canonical one
    let expected = [
        (0, true, true),
        (1, true, true),
        (2, true, true),
        (3, true, true),
        (4, true, false),
        (5, true, false),
        (6, true, true),
        (7, true, true),
        (8, true, true),
        (10, true, true),
        (11, true, false),
    ];
    for &(i, cof, cofless) in expected.iter() {
        let tv = &v[i];
        let sig = unpack(tv);
        assert_eq!(verify_cofactored(&tv.message, &tv.pub_key, &sig), cof, "vector {}", i);
        assert_eq!(verify_cofactorless(&tv.message, &tv.pub_key, &sig), cofless, "vector {}", i);
    }
}

#[test]
fn pre_reduced_vector_rejects_only_when_pre_reducing() {
    let v = generate_test_vectors().unwrap();
    let tv = &v[5];
    let sig = unpack(tv);
    // the plain cofactored check accepts; only the pre-reducing variant of it
    // rejects (the cofactorless rejection is the torsion key, not the scalar)
    assert!(verify_cofactored(&tv.message, &tv.pub_key, &sig));
    assert!(!verify_pre_reduced_cofactored(&tv.message, &tv.pub_key, &sig));
    assert!(!verify_cofactorless(&tv.message, &tv.pub_key, &sig));
    // an ordinary vector with no torsion in the key passes the pre-reducing
    // variant, so the rejection above is specific to this category
    let honest = &v[6];
    let hsig = unpack(honest);
    let reduced = curve25519_dalek::scalar::Scalar::from_bytes_mod_order(hsig.1).to_bytes();
    assert!(verify_pre_reduced_cofactored(&honest.message, &honest.pub_key, &(hsig.0, reduced)));
}

#[test]
fn zero_small_small_builds_negated_key_and_zero_scalar() {
    let (tv1, tv2) = zero_small_small().unwrap();
    for tv in [&tv1, &tv2] {
        // S = 0
        assert_eq!(&tv.signature[32..], &[0u8; 32][..]);
        // R is the negation of the public key
        let pk = curve25519_dalek::edwards::CompressedEdwardsY(tv.pub_key).decompress().unwrap();
        assert_eq!(&tv.signature[..32], (-pk).compress().as_bytes());
        // the key is a non-identity point of small order
        assert!(!curve25519_dalek::traits::IsIdentity::is_identity(&pk));
        assert!(curve25519_dalek::traits::IsIdentity::is_identity(&pk.mul_by_cofactor()));
    }
    let s1 = unpack(&tv1);
    let s2 = unpack(&tv2);
    assert!(verify_cofactored(&tv1.message, &tv1.pub_key, &s1));
    assert!(!verify_cofactorless(&tv1.message, &tv1.pub_key, &s1));
    assert!(verify_cofactored(&tv2.message, &tv2.pub_key, &s2));
    assert!(verify_cofactorless(&tv2.message, &tv2.pub_key, &s2));
}

#[test]
fn paired_categories_split_on_cofactorless() {
    let (a1, a2) = non_zero_mixed_small().unwrap();
    let (b1, b2) = non_zero_small_mixed().unwrap();
    let (c1, c2) = non_zero_mixed_mixed().unwrap();
    for (tv, cofless) in [(&a1, false), (&a2, true), (&b1, false), (&b2, true), (&c1, false), (
        &c2,
        true,
    )] {
        let sig = unpack(tv);
        assert!(verify_cofactored(&tv.message, &tv.pub_key, &sig));
        assert_eq!(verify_cofactorless(&tv.message, &tv.pub_key, &sig), cofless);
    }
}

#[test]
fn large_s_breaks_strong_unforgeability() {
    let tv = large_s().unwrap();
    let (r, sp) = unpack(&tv);
    // the emitted S' is out of canonical range
    assert!(curve25519_dalek::scalar::Scalar::from_canonical_bytes(sp).is_none());
    assert!(verify_cofactored(&tv.message, &tv.pub_key, &(r, sp)));
    assert!(verify_cofactorless(&tv.message, &tv.pub_key, &(r, sp)));
    // the reduced encoding of the same residue also verifies: two distinct
    // wire signatures for one (message, key)
    let s = curve25519_dalek::scalar::Scalar::from_bytes_mod_order(sp).to_bytes();
    assert_ne!(s, sp);
    assert!(verify_cofactored(&tv.message, &tv.pub_key, &(r, s)));
    assert!(verify_cofactorless(&tv.message, &tv.pub_key, &(r, s)));
}

#[test]
fn really_large_s_defeats_high_bit_checks() {
    let tv = really_large_s().unwrap();
    let (r, sp) = unpack(&tv);
    assert_ne!(sp[31] & 224, 0);
    assert!(curve25519_dalek::scalar::Scalar::from_canonical_bytes(sp).is_none());
    assert!(verify_cofactored(&tv.message, &tv.pub_key, &(r, sp)));
    assert!(verify_cofactorless(&tv.message, &tv.pub_key, &(r, sp)));
}

#[test]
fn non_canonical_r_splits_on_the_hashed_encoding() {
    let v = non_zero_small_non_canonical_mixed().unwrap();
    assert_eq!(v.len(), 2);
    let tv1 = &v[0];
    let tv2 = &v[1];
    assert_eq!(tv1.message, tv2.message);
    let s1 = unpack(tv1);
    let s2 = unpack(tv2);
    // first vector: verifies when R is re-encoded before hashing
    assert!(verify_cofactored(&tv1.message, &tv1.pub_key, &s1));
    assert!(verify_cofactorless(&tv1.message, &tv1.pub_key, &s1));
    assert!(!verify_cofactorless_with_r_array(&tv1.message, &tv1.pub_key, &s1.0, &s1));
    assert!(!verify_cofactored_with_r_array(&tv1.message, &tv1.pub_key, &s1.0, &s1));
    // second vector: verifies when the raw R bytes are hashed
    assert!(!verify_cofactorless(&tv2.message, &tv2.pub_key, &s2));
    assert!(verify_cofactorless_with_r_array(&tv2.message, &tv2.pub_key, &s2.0, &s2));
    assert!(verify_cofactored_with_r_array(&tv2.message, &tv2.pub_key, &s2.0, &s2));
}

#[test]
fn non_canonical_key_splits_on_the_hashed_encoding() {
    let v = non_zero_mixed_small_non_canonical().unwrap();
    assert_eq!(v.len(), 2);
    let tv1 = &v[0];
    let tv2 = &v[1];
    let s1 = unpack(tv1);
    let s2 = unpack(tv2);
    assert!(verify_cofactored(&tv1.message, &tv1.pub_key, &s1));
    assert!(verify_cofactored_with_pk_array(&tv1.message, &tv1.pub_key, &tv1.pub_key, &s1));
    assert!(verify_cofactorless(&tv1.message, &tv1.pub_key, &s1));
    assert!(!verify_cofactorless_with_pk_array(&tv1.message, &tv1.pub_key, &tv1.pub_key, &s1));
    assert!(verify_cofactored(&tv2.message, &tv2.pub_key, &s2));
    assert!(verify_cofactored_with_pk_array(&tv2.message, &tv2.pub_key, &tv2.pub_key, &s2));
    assert!(!verify_cofactorless(&tv2.message, &tv2.pub_key, &s2));
    assert!(verify_cofactorless_with_pk_array(&tv2.message, &tv2.pub_key, &tv2.pub_key, &s2));
}

#[test]
fn test_repudiation() {
    // the fixed generation seed
    let seed: [u8; 32] = [
        0x18, 0x2d, 0x44, 0x54, 0xfb, 0x21, 0x09, 0x40, 0x18, 0x2d, 0x44, 0x54, 0xfb, 0x21, 0x09,
        0x40, 0x18, 0x2d, 0x44, 0x54, 0xfb, 0x21, 0x09, 0x40, 0x18, 0x2d, 0x44, 0x54, 0xfb, 0x21,
        0x09, 0x40,
    ];
    let mut rng = rand::rngs::StdRng::from_seed(seed);
    let mut scalar_bytes = [0u8; 32];
    rng.fill_bytes(&mut scalar_bytes);
    let s = curve25519_dalek::scalar::Scalar::from_bytes_mod_order(scalar_bytes);

    let r0 = s * ED25519_BASEPOINT_POINT;
    // a torsion point of order 2
    let pub_key = curve25519_dalek::edwards::CompressedEdwardsY(EIGHT_TORSION[4])
        .decompress()
        .unwrap();
    let r = r0 + (-pub_key);

    let message1 = b"Send 100 USD to Alice";
    let message2 = b"Send 100000 USD to Alice";

    let pk_bytes = pub_key.compress().to_bytes();
    let sig = (r.compress().to_bytes(), s.to_bytes());
    // one signature verifies two different messages under the small key
    assert!(verify_cofactored(message1, &pk_bytes, &sig));
    assert!(verify_cofactorless(message1, &pk_bytes, &sig));
    assert!(verify_cofactored(message2, &pk_bytes, &sig));
    assert!(verify_cofactorless(message2, &pk_bytes, &sig));
}
