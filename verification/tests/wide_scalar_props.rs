//! The exact wide-scalar arithmetic: round trips and unreduced sums.

use ed25519_speccheck::wide_scalar::l_wide;
use ed25519_speccheck::Scalar52;

/// The canonical little-endian encoding of the group order `L`.
const L_BYTES: [u8; 32] = [
    0xed, 0xd3, 0xf5, 0x5c, 0x1a, 0x63, 0x12, 0x58, 0xd6, 0x9c, 0xf7, 0xa2, 0xde, 0xf9, 0xde,
    0x14, 0, 0, 0, 0, 0, 0, 0, 0, 0, 0, 0, 0, 0, 0, 0, 0x10,
];

#[test]
fn wide_scalar_round_trip_all_ones() {
    let b = [0xffu8; 32];
    assert_eq!(Scalar52::from_bytes(&b).to_bytes(), b);
}

#[test]
fn wide_scalar_round_trip_mixed() {
    let mut b = [0u8; 32];
    for i in 0..32 {
        b[i] = (i as u8).wrapping_mul(37).wrapping_add(11);
    }
    assert_eq!(Scalar52::from_bytes(&b).to_bytes(), b);
}

#[test]
fn wide_scalar_round_trip_l() {
    assert_eq!(Scalar52::from_bytes(&L_BYTES).to_bytes(), L_BYTES);
}

#[test]
fn wide_scalar_zero() {
    assert_eq!(Scalar52::zero().to_bytes(), [0u8; 32]);
}

#[test]
fn l_wide_encodes_group_order() {
    assert_eq!(l_wide().to_bytes(), L_BYTES);
}

#[test]
fn wide_add_small_values_exact() {
    let mut a = [0u8; 32];
    a[0] = 200;
    let mut b = [0u8; 32];
    b[0] = 100;
    let sum = Scalar52::add(&Scalar52::from_bytes(&a), &Scalar52::from_bytes(&b)).to_bytes();
    let mut expected = [0u8; 32];
    expected[0] = 44;
    expected[1] = 1;
    assert_eq!(sum, expected);
}

#[test]
fn wide_add_carries_across_limbs() {
    // all-ones plus one: every limb carries, the value is exactly 2^256
    // truncated nowhere below the top, so adding within capacity is exact
    let a = [0xffu8; 31];
    let mut lo = [0u8; 32];
    lo[..31].copy_from_slice(&a);
    let mut one = [0u8; 32];
    one[0] = 1;
    let sum = Scalar52::add(&Scalar52::from_bytes(&lo), &Scalar52::from_bytes(&one)).to_bytes();
    let mut expected = [0u8; 32];
    expected[31] = 1;
    assert_eq!(sum, expected);
}

#[test]
fn wide_add_multiples_of_l_keep_residue_and_change_bytes() {
    let mut s_bytes = [0u8; 32];
    s_bytes[0] = 42;
    s_bytes[20] = 7;
    let mut cur = Scalar52::from_bytes(&s_bytes);
    for _k in 0..3 {
        cur = Scalar52::add(&cur, &l_wide());
        let out = cur.to_bytes();
        assert_ne!(out, s_bytes);
        assert_eq!(
            curve25519_dalek::scalar::Scalar::from_bytes_mod_order(out),
            curve25519_dalek::scalar::Scalar::from_bytes_mod_order(s_bytes),
        );
    }
}
