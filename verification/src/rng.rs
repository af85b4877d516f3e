//! The deterministic generator the construction engine draws from.
//!
//! Every catalog run seeds the same pseudo-random generator with the same
//! fixed constant, so the whole catalog is reproducible bit for bit.  The
//! generator's internal state is abstracted as a byte sequence (`rng_state`),
//! and each draw is named as a function of that state: two runs from one seed
//! therefore agree on every draw, which is what the determinism argument
//! rests on.

use vstd::prelude::*;

verus! {

#[verifier::external_type_specification]
#[verifier::external_body]
pub struct ExStdRng(rand::rngs::StdRng);

/// The internal state of a generator, abstracted as a byte sequence.
pub uninterp spec fn rng_state(g: rand::rngs::StdRng) -> Seq<u8>;

/// The generator state that seeding produces (a function of the seed alone
/// for the pinned generator version).
pub uninterp spec fn rng_seed_state(seed: Seq<u8>) -> Seq<u8>;

/// The drawn 64-bit value and the successor state, as functions of the state.
pub uninterp spec fn rng_next_u64(st: Seq<u8>) -> (u64, Seq<u8>);

/// The drawn 32 bytes and the successor state, as functions of the state.
pub uninterp spec fn rng_fill32(st: Seq<u8>) -> (Seq<u8>, Seq<u8>);

/// Relies on `rand::rngs::StdRng::from_seed`: the generator is a pure
/// deterministic algorithm, so its state after seeding is a function of the
/// seed.
#[verifier::external_body]
pub(crate) fn rng_from_seed(seed: &[u8; 32]) -> (g: rand::rngs::StdRng)
    ensures
        rng_state(g) == rng_seed_state(seed@),
{
    <rand::rngs::StdRng as rand::SeedableRng>::from_seed(*seed)
}

/// Relies on `StdRng`'s `RngCore::next_u64`: the drawn value and the new
/// state are functions of the old state.
#[verifier::external_body]
pub(crate) fn rng_u64(g: &mut rand::rngs::StdRng) -> (r: u64)
    ensures
        r == rng_next_u64(rng_state(*old(g))).0,
        rng_state(*final(g)) == rng_next_u64(rng_state(*old(g))).1,
{
    rand::RngCore::next_u64(g)
}

/// Relies on `StdRng`'s `RngCore::fill_bytes`: the 32 drawn bytes and the new
/// state are functions of the old state.
#[verifier::external_body]
pub(crate) fn rng_fill(g: &mut rand::rngs::StdRng) -> (r: [u8; 32])
    ensures
        r@ == rng_fill32(rng_state(*old(g))).0,
        rng_state(*final(g)) == rng_fill32(rng_state(*old(g))).1,
{
    let mut m = [0u8; 32];
    rand::RngCore::fill_bytes(g, &mut m);
    m
}

/// The fixed 32-byte generation seed: one eight-byte constant repeated four
/// times, so that every catalog run draws the same stream.
pub open spec fn spec_seed() -> Seq<u8> {
    seq![
        0x18u8,
        0x2du8,
        0x44u8,
        0x54u8,
        0xfbu8,
        0x21u8,
        0x09u8,
        0x40u8,
        0x18u8,
        0x2du8,
        0x44u8,
        0x54u8,
        0xfbu8,
        0x21u8,
        0x09u8,
        0x40u8,
        0x18u8,
        0x2du8,
        0x44u8,
        0x54u8,
        0xfbu8,
        0x21u8,
        0x09u8,
        0x40u8,
        0x18u8,
        0x2du8,
        0x44u8,
        0x54u8,
        0xfbu8,
        0x21u8,
        0x09u8,
        0x40u8,
    ]
}

/// A generator seeded with the fixed constant, so that every run of the
/// catalog construction draws the same stream.
pub fn new_rng() -> (g: rand::rngs::StdRng)
    ensures
        rng_state(g) == rng_seed_state(spec_seed()),
{
    let seed: [u8; 32] = [
        0x18, 0x2d, 0x44, 0x54, 0xfb, 0x21, 0x09, 0x40, 0x18, 0x2d, 0x44, 0x54, 0xfb, 0x21, 0x09,
        0x40, 0x18, 0x2d, 0x44, 0x54, 0xfb, 0x21, 0x09, 0x40, 0x18, 0x2d, 0x44, 0x54, 0xfb, 0x21,
        0x09, 0x40,
    ];
    proof {
        assert(seed@ =~= spec_seed());
    }
    rng_from_seed(&seed)
}

} // verus!
