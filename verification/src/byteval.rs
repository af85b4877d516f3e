//! Little-endian byte strings viewed as natural numbers.
//!
//! Every 32-byte encoding in this crate (scalars, compressed points, messages)
//! is modelled by the natural number it denotes in little-endian order.
//! `le_nat` maps a byte string to its value and `le_bytes` is its inverse for
//! a fixed width; together they show that a value below `2^(8n)` has exactly
//! one `n`-byte encoding.

use vstd::prelude::*;
use vstd::arithmetic::div_mod::{
    lemma_breakdown, lemma_div_multiples_vanish_fancy, lemma_mod_multiples_vanish,
    lemma_small_mod,
};
use vstd::arithmetic::mul::lemma_mul_is_associative;
use vstd::arithmetic::power2::{lemma2_to64, lemma_pow2_adds, lemma_pow2_pos, pow2};

verus! {

/// The natural number denoted by a little-endian byte string.
pub open spec fn le_nat(s: Seq<u8>) -> nat
    decreases s.len(),
{
    if s.len() == 0 {
        0
    } else {
        s[0] as nat + 256 * le_nat(s.skip(1))
    }
}

/// The `n`-byte little-endian encoding of `v % 2^(8n)`.
pub open spec fn le_bytes(v: nat, n: nat) -> Seq<u8>
    decreases n,
{
    if n == 0 {
        Seq::empty()
    } else {
        seq![(v % 256) as u8] + le_bytes(v / 256, (n - 1) as nat)
    }
}

/// A byte string of length `n` denotes a value below `2^(8n)`.
pub proof fn lemma_le_nat_bound(s: Seq<u8>)
    ensures
        le_nat(s) < pow2(8 * s.len()),
    decreases s.len(),
{
    lemma2_to64();
    if s.len() == 0 {
    } else {
        lemma_le_nat_bound(s.skip(1));
        lemma_pow2_adds(8, 8 * (s.len() - 1) as nat);
        assert(8 * s.len() == 8 + 8 * (s.len() - 1));
        assert(256 * le_nat(s.skip(1)) <= 256 * (pow2(8 * (s.len() - 1) as nat) - 1));
    }
}

/// Concatenation splits the value: the left part gives the low bytes.
pub proof fn lemma_le_nat_append(a: Seq<u8>, b: Seq<u8>)
    ensures
        le_nat(a + b) == le_nat(a) + pow2(8 * a.len()) * le_nat(b),
    decreases a.len(),
{
    lemma2_to64();
    if a.len() == 0 {
        assert(a + b =~= b);
        assert(le_nat(a) == 0);
        assert(pow2(0) == 1);
        assert(pow2(8 * a.len()) * le_nat(b) == le_nat(b)) by (nonlinear_arith)
            requires
                pow2(8 * a.len()) == 1,
        ;
    } else {
        let t = a.skip(1);
        assert((a + b).skip(1) =~= t + b);
        assert((a + b)[0] == a[0]);
        lemma_le_nat_append(t, b);
        assert(t.len() == a.len() - 1);
        lemma_pow2_adds(8, (8 * t.len()) as nat);
        assert(8 * a.len() == 8 + 8 * t.len());
        assert(pow2(8 * a.len()) == 256 * pow2(8 * t.len()));
        assert(le_nat(a + b) == a[0] + 256 * le_nat(t + b));
        assert(le_nat(a + b) == a[0] + 256 * (le_nat(t) + pow2(8 * t.len()) * le_nat(b)));
        assert(256 * (le_nat(t) + pow2(8 * t.len()) * le_nat(b)) == 256 * le_nat(t) + 256 * (pow2(
            8 * t.len(),
        ) * le_nat(b))) by (nonlinear_arith);
        assert(256 * (pow2(8 * t.len()) * le_nat(b)) == (256 * pow2(8 * t.len())) * le_nat(b))
            by (nonlinear_arith);
        assert(le_nat(a) == a[0] + 256 * le_nat(t));
    }
}

/// Decoding then re-encoding reproduces the byte string exactly.
pub proof fn lemma_le_bytes_le_nat(s: Seq<u8>)
    ensures
        le_bytes(le_nat(s), s.len()) == s,
    decreases s.len(),
{
    if s.len() == 0 {
        assert(le_bytes(le_nat(s), 0) =~= s);
    } else {
        let v = le_nat(s);
        let r = le_nat(s.skip(1));
        assert(v == s[0] + 256 * r);
        assert(v % 256 == s[0]) by {
            lemma_mod_multiples_vanish(r as int, s[0] as int, 256);
            lemma_small_mod(s[0] as nat, 256);
        }
        assert(v / 256 == r) by {
            lemma_div_multiples_vanish_fancy(r as int, s[0] as int, 256);
        }
        lemma_le_bytes_le_nat(s.skip(1));
        assert(le_bytes(v, s.len()) =~= s);
    }
}

/// Appending one byte adds its value at the top of the string.
pub proof fn lemma_le_nat_snoc(s: Seq<u8>, x: u8)
    ensures
        le_nat(s.push(x)) == le_nat(s) + pow2(8 * s.len()) * (x as nat),
{
    assert(s.push(x) =~= s + seq![x]);
    lemma_le_nat_append(s, seq![x]);
    assert(seq![x].skip(1) =~= Seq::<u8>::empty());
    assert(le_nat(Seq::<u8>::empty()) == 0);
    assert(le_nat(seq![x]) == x as nat + 256 * le_nat(seq![x].skip(1)));
}

/// Splitting a byte string splits its value at the corresponding power.
pub proof fn lemma_le_nat_split(s: Seq<u8>, k: int)
    requires
        0 <= k <= s.len(),
    ensures
        le_nat(s) == le_nat(s.subrange(0, k)) + pow2(8 * k as nat) * le_nat(
            s.subrange(k, s.len() as int),
        ),
{
    let lo = s.subrange(0, k);
    let hi = s.subrange(k, s.len() as int);
    assert(s =~= lo + hi);
    lemma_le_nat_append(lo, hi);
}

/// Expands the value of an eight-byte string into an explicit sum.
pub proof fn lemma_le_nat_8(s: Seq<u8>)
    requires
        s.len() == 8,
    ensures
        le_nat(s) == s[0] as nat + (s[1] as nat) * 0x100 + (s[2] as nat) * 0x10000 + (s[3] as nat)
            * 0x1000000 + (s[4] as nat) * 0x100000000 + (s[5] as nat) * 0x10000000000 + (
        s[6] as nat) * 0x1000000000000 + (s[7] as nat) * 0x100000000000000,
{
    let s1 = s.skip(1);
    let s2 = s1.skip(1);
    let s3 = s2.skip(1);
    let s4 = s3.skip(1);
    let s5 = s4.skip(1);
    let s6 = s5.skip(1);
    let s7 = s6.skip(1);
    let s8 = s7.skip(1);
    assert(s8.len() == 0);
    assert(s7[0] == s[7] && s6[0] == s[6] && s5[0] == s[5] && s4[0] == s[4] && s3[0] == s[3]
        && s2[0] == s[2] && s1[0] == s[1]);
    assert(le_nat(s8) == 0);
    assert(le_nat(s7) == s[7] as nat + 256 * le_nat(s8));
    assert(le_nat(s6) == s[6] as nat + 256 * le_nat(s7));
    assert(le_nat(s5) == s[5] as nat + 256 * le_nat(s6));
    assert(le_nat(s4) == s[4] as nat + 256 * le_nat(s5));
    assert(le_nat(s3) == s[3] as nat + 256 * le_nat(s4));
    assert(le_nat(s2) == s[2] as nat + 256 * le_nat(s3));
    assert(le_nat(s1) == s[1] as nat + 256 * le_nat(s2));
    assert(le_nat(s) == s[0] as nat + 256 * le_nat(s1));
}

/// A 32-byte string splits into four 64-bit words at the 8-byte boundaries.
pub proof fn lemma_le_nat_words32(s: Seq<u8>)
    requires
        s.len() == 32,
    ensures
        le_nat(s) == le_nat(s.subrange(0, 8)) + pow2(64) * le_nat(s.subrange(8, 16)) + pow2(128)
            * le_nat(s.subrange(16, 24)) + pow2(192) * le_nat(s.subrange(24, 32)),
{
    lemma2_to64();
    lemma_pow2_adds(64, 64);
    lemma_pow2_adds(64, 128);
    let hi8 = s.subrange(8, 32);
    let hi16 = s.subrange(16, 32);
    lemma_le_nat_split(s, 8);
    lemma_le_nat_split(hi8, 8);
    assert(hi8.subrange(0, 8) =~= s.subrange(8, 16));
    assert(hi8.subrange(8, 24) =~= hi16);
    lemma_le_nat_split(hi16, 8);
    assert(hi16.subrange(0, 8) =~= s.subrange(16, 24));
    assert(hi16.subrange(8, 16) =~= s.subrange(24, 32));
    let b = le_nat(s.subrange(8, 16));
    let c = le_nat(s.subrange(16, 24));
    let d = le_nat(s.subrange(24, 32));
    assert(le_nat(hi16) == c + pow2(64) * d);
    assert(le_nat(hi8) == b + pow2(64) * le_nat(hi16));
    assert(pow2(64) * (b + pow2(64) * (c + pow2(64) * d)) == pow2(64) * b + pow2(128) * c + pow2(
        192,
    ) * d) by (nonlinear_arith)
        requires
            pow2(128) == pow2(64) * pow2(64),
            pow2(192) == pow2(64) * pow2(128),
    ;
}

/// A string denotes zero exactly when every byte is zero.
pub proof fn lemma_le_nat_zero(s: Seq<u8>)
    ensures
        (le_nat(s) == 0) <==> (forall|i: int| 0 <= i < s.len() ==> s[i] == 0),
    decreases s.len(),
{
    if s.len() > 0 {
        let t = s.skip(1);
        lemma_le_nat_zero(t);
        if le_nat(s) == 0 {
            assert(s[0] == 0);
            assert(le_nat(t) == 0);
            assert forall|i: int| 0 <= i < s.len() implies s[i] == 0 by {
                if i > 0 {
                    assert(t[i - 1] == 0);
                }
            }
        } else {
            if forall|i: int| 0 <= i < s.len() ==> s[i] == 0 {
                assert forall|i: int| 0 <= i < t.len() implies t[i] == 0 by {
                    assert(s[i + 1] == 0);
                }
                assert(le_nat(t) == 0);
                assert(s[0] == 0);
            }
        }
    }
}

/// A string with one non-zero byte denotes that byte at its power.
pub proof fn lemma_le_nat_single(s: Seq<u8>, k: int)
    requires
        0 <= k < s.len(),
        forall|i: int| 0 <= i < s.len() && i != k ==> s[i] == 0,
    ensures
        le_nat(s) == (s[k] as nat) * pow2((8 * k) as nat),
    decreases k,
{
    lemma2_to64();
    if k == 0 {
        lemma_le_nat_zero(s.skip(1));
        assert(le_nat(s) == s[0] as nat);
        assert(pow2(0) == 1);
    } else {
        lemma_le_nat_single(s.skip(1), k - 1);
        lemma_pow2_adds(8, (8 * (k - 1)) as nat);
        assert(s.skip(1)[k - 1] == s[k]);
        assert(s[0] == 0);
        assert(le_nat(s) == 256 * ((s[k] as nat) * pow2((8 * (k - 1)) as nat)));
        assert(256 * ((s[k] as nat) * pow2((8 * (k - 1)) as nat)) == (s[k] as nat) * (256 * pow2(
            (8 * (k - 1)) as nat,
        ))) by (nonlinear_arith);
        assert(256 * pow2((8 * (k - 1)) as nat) == pow2((8 * k) as nat)) by {
            assert(8 + (8 * (k - 1)) as nat == (8 * k) as nat);
        }
    }
}

/// Two byte strings of one length with one value are the same string.
pub proof fn lemma_le_nat_injective(a: Seq<u8>, b: Seq<u8>)
    requires
        a.len() == b.len(),
        le_nat(a) == le_nat(b),
    ensures
        a == b,
{
    lemma_le_bytes_le_nat(a);
    lemma_le_bytes_le_nat(b);
}

} // verus!
