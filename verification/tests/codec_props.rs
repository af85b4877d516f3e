//! Byte-level codecs: slices, scalars, points, signatures and commitments.

use ed25519_speccheck::hashes::compute_hram;
use ed25519_speccheck::verify::{eight, multiple_of_eight_le};
use ed25519_speccheck::{
    check_slice_size, deserialize_point, deserialize_scalar, deserialize_signature,
    pick_small_nonzero_point, serialize_signature, VectorError, EIGHT_TORSION,
};

use sha2::Digest;

#[test]
fn check_slice_size_accepts_exact_length() {
    let data = [1u8, 2, 3, 4];
    let out = check_slice_size(&data, 4, "data").unwrap();
    assert_eq!(out, &data[..]);
}

#[test]
fn check_slice_size_rejects_other_lengths() {
    let data = [1u8, 2, 3, 4];
    assert_eq!(check_slice_size(&data, 5, "data"), Err(VectorError::Decode));
    assert_eq!(check_slice_size(&data, 3, "data"), Err(VectorError::Decode));
}

#[test]
fn deserialize_scalar_masks_top_bit_only() {
    let mut b = [0u8; 32];
    b[0] = 5;
    b[31] = 0xff;
    let s = deserialize_scalar(&b).unwrap();
    assert_eq!(s[0], 5);
    assert_eq!(s[31], 0x7f);
    assert_eq!(&s[1..31], &b[1..31]);
    assert_eq!(deserialize_scalar(&b[..31]), Err(VectorError::Decode));
}

#[test]
fn deserialize_point_accepts_torsion_and_rejects_garbage() {
    for entry in EIGHT_TORSION.iter() {
        assert_eq!(deserialize_point(&entry[..]).unwrap(), *entry);
    }
    assert_eq!(deserialize_point(&EIGHT_TORSION[0][..31]), Err(VectorError::Decode));
    // find a byte string that does not decode to a curve point
    let mut bad = [0u8; 32];
    let mut found = false;
    for first in 0u16..=255 {
        bad[0] = first as u8;
        bad[1] = 2;
        if curve25519_dalek::edwards::CompressedEdwardsY(bad).decompress().is_none() {
            found = true;
            break;
        }
    }
    assert!(found);
    assert_eq!(deserialize_point(&bad[..]), Err(VectorError::Decode));
}

#[test]
fn deserialize_signature_splits_and_masks() {
    let mut sig = [0u8; 64];
    sig[..32].copy_from_slice(&EIGHT_TORSION[1]);
    sig[32] = 9;
    sig[63] = 0x80;
    let (r, s) = deserialize_signature(&sig).unwrap();
    assert_eq!(r, EIGHT_TORSION[1]);
    assert_eq!(s[0], 9);
    assert_eq!(s[31], 0);
    assert_eq!(deserialize_signature(&sig[..63]), Err(VectorError::Decode));
}

#[test]
fn serialize_signature_concatenates() {
    let r = [3u8; 32];
    let s = [8u8; 32];
    let sig = serialize_signature(&r, &s);
    assert_eq!(sig.len(), 64);
    assert_eq!(&sig[..32], &r[..]);
    assert_eq!(&sig[32..], &s[..]);
}

#[test]
fn pick_small_nonzero_point_wraps_modulo_seven() {
    assert_eq!(pick_small_nonzero_point(0).unwrap(), EIGHT_TORSION[1]);
    assert_eq!(pick_small_nonzero_point(3).unwrap(), EIGHT_TORSION[4]);
    assert_eq!(pick_small_nonzero_point(7).unwrap(), EIGHT_TORSION[1]);
    assert_eq!(pick_small_nonzero_point(13).unwrap(), EIGHT_TORSION[7]);
}

#[test]
fn eight_encodes_the_integer_eight() {
    let e = eight();
    let mut expected = [0u8; 32];
    expected[0] = 8;
    assert_eq!(e, expected);
}

#[test]
fn multiple_of_eight_le_tests_the_value() {
    let mut s = [0u8; 32];
    assert!(multiple_of_eight_le(&s));
    s[0] = 24;
    assert!(multiple_of_eight_le(&s));
    s[0] = 25;
    assert!(!multiple_of_eight_le(&s));
    s[0] = 4;
    assert!(!multiple_of_eight_le(&s));
    // the higher bytes contribute multiples of 256 and cannot matter
    s[0] = 8;
    s[31] = 3;
    assert!(multiple_of_eight_le(&s));
}

#[test]
fn compute_hram_matches_direct_hashing() {
    let pk = EIGHT_TORSION[1];
    let r = EIGHT_TORSION[3];
    let message = b"differential testing";
    let k = compute_hram(message, &pk, &r);

    let rp = curve25519_dalek::edwards::CompressedEdwardsY(r).decompress().unwrap();
    let pkp = curve25519_dalek::edwards::CompressedEdwardsY(pk).decompress().unwrap();
    let mut h = sha2::Sha512::new();
    h.update(rp.compress().as_bytes());
    h.update(pkp.compress().as_bytes());
    h.update(message);
    let mut wide = [0u8; 64];
    wide.copy_from_slice(h.finalize().as_slice());
    let expected = curve25519_dalek::scalar::Scalar::from_bytes_mod_order_wide(&wide).to_bytes();
    assert_eq!(k, expected);
}
