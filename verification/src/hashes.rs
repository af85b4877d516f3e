//! The commitment (HRAM) computation: hash-to-scalar with its three
//! input-canonicalization variants.
//!
//! The commitment hashes `R-bytes || public-key-bytes || message` through
//! SHA-512 and reduces the 512-bit digest modulo `L`.  An implementation may
//! hash the wire bytes as received or the canonical re-encoding of the
//! decoded points; the three functions here compute either form, so the
//! construction engine can find vectors that split those behaviours.

use vstd::prelude::*;

use crate::byteval::le_nat;
use crate::curve::{point_canon, pt_canon, pt_valid};
use crate::scalar_arith::scalar_reduce_wide;
use crate::wide_scalar::group_order;

verus! {

/// The SHA-512 digest of a byte string.
pub uninterp spec fn sha512_of(m: Seq<u8>) -> Seq<u8>;

/// The commitment scalar: the 512-bit digest of `rb || pkb || m`, reduced
/// modulo `L`.
pub open spec fn spec_hram(rb: Seq<u8>, pkb: Seq<u8>, m: Seq<u8>) -> nat {
    le_nat(sha512_of(rb + pkb + m)) % group_order()
}

/// Relies on `sha2::Sha512`: the 64-byte digest depends on the input alone.
#[verifier::external_body]
pub(crate) fn sha512(input: &[u8]) -> (r: [u8; 64])
    ensures
        r@ == sha512_of(input@),
{
    let digest = <sha2::Sha512 as sha2::Digest>::digest(input);
    let mut out = [0u8; 64];
    out.copy_from_slice(digest.as_slice());
    out
}

/// Append a byte slice to a vector.
pub(crate) fn push_all(v: &mut Vec<u8>, s: &[u8])
    ensures
        final(v)@ == old(v)@ + s@,
{
    let ghost start = v@;
    for i in 0..s.len()
        invariant
            v@ == start + s@.subrange(0, i as int),
    {
        v.push(s[i]);
        proof {
            assert(v@ =~= start + s@.subrange(0, i + 1));
        }
    }
    proof {
        assert(v@ =~= start + s@);
    }
}

/// The commitment over the canonical re-encodings of both points.
pub fn compute_hram(message: &[u8], pub_key: &[u8; 32], signature_r: &[u8; 32]) -> (k: [u8; 32])
    requires
        pt_valid(pub_key@),
        pt_valid(signature_r@),
    ensures
        le_nat(k@) == spec_hram(pt_canon(signature_r@), pt_canon(pub_key@), message@),
        le_nat(k@) < group_order(),
{
    let rc = point_canon(signature_r);
    let pc = point_canon(pub_key);
    let mut buf: Vec<u8> = Vec::new();
    push_all(&mut buf, rc.as_slice());
    push_all(&mut buf, pc.as_slice());
    push_all(&mut buf, message);
    proof {
        assert(buf@ =~= rc@ + pc@ + message@);
    }
    let digest = sha512(buf.as_slice());
    scalar_reduce_wide(&digest)
}

/// The commitment over the raw wire bytes of `R` and the canonical public key.
pub fn compute_hram_with_r_array(message: &[u8], pub_key: &[u8; 32], signature_r: &[u8]) -> (k:
    [u8; 32])
    requires
        pt_valid(pub_key@),
    ensures
        le_nat(k@) == spec_hram(signature_r@, pt_canon(pub_key@), message@),
        le_nat(k@) < group_order(),
{
    let pc = point_canon(pub_key);
    let mut buf: Vec<u8> = Vec::new();
    push_all(&mut buf, signature_r);
    push_all(&mut buf, pc.as_slice());
    push_all(&mut buf, message);
    proof {
        assert(buf@ =~= signature_r@ + pc@ + message@);
    }
    let digest = sha512(buf.as_slice());
    scalar_reduce_wide(&digest)
}

/// The commitment over the raw wire bytes of the public key and canonical `R`.
pub fn compute_hram_with_pk_array(message: &[u8], pub_key_arr: &[u8], signature_r: &[u8; 32]) -> (k:
    [u8; 32])
    requires
        pt_valid(signature_r@),
    ensures
        le_nat(k@) == spec_hram(pt_canon(signature_r@), pub_key_arr@, message@),
        le_nat(k@) < group_order(),
{
    let rc = point_canon(signature_r);
    let mut buf: Vec<u8> = Vec::new();
    push_all(&mut buf, rc.as_slice());
    push_all(&mut buf, pub_key_arr);
    push_all(&mut buf, message);
    proof {
        assert(buf@ =~= rc@ + pub_key_arr@ + message@);
    }
    let digest = sha512(buf.as_slice());
    scalar_reduce_wide(&digest)
}

} // verus!
