//! Exact 256-bit scalar arithmetic on five 52-bit limbs.
//!
//! Unlike a field element, a [`Scalar52`] is never reduced modulo the group
//! order: it represents the exact integer packed from 32 bytes, and addition
//! keeps every carry.  The crate uses it to manufacture deliberately
//! out-of-range scalar encodings such as `S + k*L`.

use vstd::prelude::*;
use vstd::arithmetic::div_mod::{
    lemma_fundamental_div_mod, lemma_mod_add_multiples_vanish, lemma_mod_multiples_vanish,
    lemma_small_mod,
};
use vstd::arithmetic::power2::{lemma2_to64, lemma2_to64_rest, lemma_pow2_adds, pow2};
use vstd::bits::lemma_u64_shl_is_mul;

use crate::byteval::{
    le_nat, lemma_le_nat_8, lemma_le_nat_bound, lemma_le_nat_injective, lemma_le_nat_snoc,
    lemma_le_nat_words32,
};

verus! {

/// An exact unsigned integer held as five 52-bit limbs, least significant first.
pub struct Scalar52(pub [u64; 5]);

/// The order of the prime-order subgroup:
/// `L = 2^252 + 27742317777372353535851937790883648493`.
pub open spec fn group_order() -> nat {
    pow2(252) + 27742317777372353535851937790883648493nat
}

/// The integer a limb vector denotes in base `2^52`.
pub open spec fn limbs_nat(l: Seq<u64>) -> nat
    decreases l.len(),
{
    if l.len() == 0 {
        0
    } else {
        l[0] as nat + 0x10000000000000 * limbs_nat(l.skip(1))
    }
}

/// The value of the first `n` limbs.
pub open spec fn limbs_prefix(l: Seq<u64>, n: nat) -> nat
    decreases n,
{
    if n == 0 {
        0
    } else {
        limbs_prefix(l, (n - 1) as nat) + (l[n - 1] as nat) * pow2(52 * (n - 1) as nat)
    }
}

/// The exact integer a `Scalar52` denotes.
pub open spec fn wide_nat(s: &Scalar52) -> nat {
    limbs_nat(s.0@)
}

/// Every limb stays below `2^52`.
pub open spec fn limbs_bounded(s: &Scalar52) -> bool {
    forall|i: int| 0 <= i < 5 ==> s.0@[i] < 0x10000000000000u64
}

impl Scalar52 {
    /// Return the zero scalar.
    pub fn zero() -> (s: Scalar52)
        ensures
            wide_nat(&s) == 0,
            limbs_bounded(&s),
    {
        let s = Scalar52([0, 0, 0, 0, 0]);
        proof {
            assert(s.0@.len() == 5);
            assert(s.0@[0] == 0 && s.0@[1] == 0 && s.0@[2] == 0 && s.0@[3] == 0 && s.0@[4] == 0);
            lemma_limbs_nat_5(s.0@);
            lemma_pow52_values();
        }
        s
    }

    /// Unpack a 32-byte string into five 52-bit limbs, exactly.
    pub fn from_bytes(bytes: &[u8; 32]) -> (s: Scalar52)
        ensures
            wide_nat(&s) == le_nat(bytes@),
            limbs_bounded(&s),
    {
        let mut words: [u64; 4] = [0u64; 4];
        for i in 0..4
            invariant
                forall|k: int|
                    0 <= k < i ==> words@[k] as nat == le_nat(bytes@.subrange(8 * k, 8 * k + 8)),
                forall|k: int| i <= k < 4 ==> words@[k] == 0,
        {
            proof {
                lemma2_to64();
                assert(bytes@.subrange(8 * (i as int), 8 * (i as int)) =~= Seq::<u8>::empty());
            }
            for j in 0..8
                invariant
                    0 <= i < 4,
                    forall|k: int|
                        0 <= k < i ==> words@[k] as nat == le_nat(
                            bytes@.subrange(8 * k, 8 * k + 8),
                        ),
                    forall|k: int| i < k < 4 ==> words@[k] == 0,
                    words@[i as int] as nat == le_nat(
                        bytes@.subrange(8 * (i as int), 8 * (i as int) + j),
                    ),
                    (words@[i as int] as nat) < pow2((8 * j) as nat),
            {
                let b = bytes[(i * 8) + j];
                let shift: u64 = (j as u64) * 8;
                let ghost w = words@[i as int];
                let ghost pre = bytes@.subrange(8 * (i as int), 8 * (i as int) + j as int);
                proof {
                    lemma2_to64();
                    lemma2_to64_rest();
                    assert(shift as nat == 8 * j);
                    assert(pow2(shift as nat) <= pow2(56)) by {
                        if shift as nat <= 55 {
                            vstd::arithmetic::power2::lemma_pow2_strictly_increases(
                                shift as nat,
                                56,
                            );
                        }
                    }
                    assert((b as u64) * pow2(shift as nat) <= 255 * pow2(56)) by (nonlinear_arith)
                        requires
                            b as u64 <= 255,
                            pow2(shift as nat) <= pow2(56),
                    ;
                    lemma_u64_shl_is_mul(b as u64, shift);
                    lemma_u64_shl_is_mul(1u64, shift);
                    assert(w < (1u64 << shift));
                    assert(w | ((b as u64) << shift) == w + ((b as u64) << shift)) by (bit_vector)
                        requires
                            w < (1u64 << shift),
                            shift < 64u64,
                    ;
                    lemma_le_nat_snoc(pre, b);
                    assert(bytes@.subrange(8 * (i as int), 8 * (i as int) + j + 1) =~= pre.push(b));
                    lemma_pow2_adds((8 * j) as nat, 8);
                    assert(w as nat + (b as nat) * pow2(shift as nat) < 256 * pow2(shift as nat))
                        by (nonlinear_arith)
                        requires
                            (w as nat) < pow2(shift as nat),
                            b <= 255,
                    ;
                    assert(256 * pow2(shift as nat) == pow2((8 * (j + 1)) as nat));
                }
                words[i] = words[i] | ((b as u64) << shift);
            }
        }
        proof {
            lemma_le_nat_words32(bytes@);
        }
        proof {
            assert(1u64 << 52 == 0x10000000000000u64) by (bit_vector);
            assert(1u64 << 48 == 0x1000000000000u64) by (bit_vector);
        }
        let mask = (1u64 << 52) - 1;
        let top_mask = (1u64 << 48) - 1;
        let ghost w0 = words@[0];
        let ghost w1 = words@[1];
        let ghost w2 = words@[2];
        let ghost w3 = words@[3];
        let mut s = Scalar52([0, 0, 0, 0, 0]);
        s.0[0] = words[0] & mask;
        s.0[1] = ((words[0] >> 52) | (words[1] << 12)) & mask;
        s.0[2] = ((words[1] >> 40) | (words[2] << 24)) & mask;
        s.0[3] = ((words[2] >> 28) | (words[3] << 36)) & mask;
        s.0[4] = (words[3] >> 16) & top_mask;
        proof {
            assert((w0 & 0xFFFFFFFFFFFFFu64) == (w0 as nat) % 0x10000000000000 && (w0
                & 0xFFFFFFFFFFFFFu64) < 0x10000000000000u64) by (bit_vector);
            assert((((w0 >> 52) | (w1 << 12)) & 0xFFFFFFFFFFFFFu64) == (w0 as nat)
                / 0x10000000000000 + ((w1 as nat) % 0x10000000000) * 0x1000 && (((w0 >> 52) | (w1
                << 12)) & 0xFFFFFFFFFFFFFu64) < 0x10000000000000u64) by (bit_vector);
            assert((((w1 >> 40) | (w2 << 24)) & 0xFFFFFFFFFFFFFu64) == (w1 as nat) / 0x10000000000
                + ((w2 as nat) % 0x10000000) * 0x1000000 && (((w1 >> 40) | (w2 << 24))
                & 0xFFFFFFFFFFFFFu64) < 0x10000000000000u64) by (bit_vector);
            assert((((w2 >> 28) | (w3 << 36)) & 0xFFFFFFFFFFFFFu64) == (w2 as nat) / 0x10000000 + (
            (w3 as nat) % 0x10000) * 0x1000000000 && (((w2 >> 28) | (w3 << 36))
                & 0xFFFFFFFFFFFFFu64) < 0x10000000000000u64) by (bit_vector);
            assert(((w3 >> 16) & 0xFFFFFFFFFFFFu64) == (w3 as nat) / 0x10000 && ((w3 >> 16)
                & 0xFFFFFFFFFFFFu64) < 0x1000000000000u64) by (bit_vector);
            lemma_limbs_from_words(s.0@, w0, w1, w2, w3);
        }
        s
    }

    /// Pack the limbs back into 32 bytes; exact for values below `2^256`.
    pub fn to_bytes(&self) -> (r: [u8; 32])
        requires
            limbs_bounded(self),
            wide_nat(self) < pow2(256),
        ensures
            le_nat(r@) == wide_nat(self),
    {
        proof {
            lemma_pow52_values();
            lemma_limbs_nat_5(self.0@);
            assert(self.0@[4] < 0x1000000000000u64) by {
                if self.0@[4] >= 0x1000000000000u64 {
                    assert((self.0@[4] as nat) * pow2(208) >= 0x1000000000000 * pow2(208))
                        by (nonlinear_arith)
                        requires
                            self.0@[4] >= 0x1000000000000u64,
                    ;
                }
            }
        }
        let mut s = [0u8; 32];
        s[0] = self.0[0] as u8;
        s[1] = (self.0[0] >> 8) as u8;
        s[2] = (self.0[0] >> 16) as u8;
        s[3] = (self.0[0] >> 24) as u8;
        s[4] = (self.0[0] >> 32) as u8;
        s[5] = (self.0[0] >> 40) as u8;
        s[6] = ((self.0[0] >> 48) | (self.0[1] << 4)) as u8;
        s[7] = (self.0[1] >> 4) as u8;
        s[8] = (self.0[1] >> 12) as u8;
        s[9] = (self.0[1] >> 20) as u8;
        s[10] = (self.0[1] >> 28) as u8;
        s[11] = (self.0[1] >> 36) as u8;
        s[12] = (self.0[1] >> 44) as u8;
        s[13] = self.0[2] as u8;
        s[14] = (self.0[2] >> 8) as u8;
        s[15] = (self.0[2] >> 16) as u8;
        s[16] = (self.0[2] >> 24) as u8;
        s[17] = (self.0[2] >> 32) as u8;
        s[18] = (self.0[2] >> 40) as u8;
        s[19] = ((self.0[2] >> 48) | (self.0[3] << 4)) as u8;
        s[20] = (self.0[3] >> 4) as u8;
        s[21] = (self.0[3] >> 12) as u8;
        s[22] = (self.0[3] >> 20) as u8;
        s[23] = (self.0[3] >> 28) as u8;
        s[24] = (self.0[3] >> 36) as u8;
        s[25] = (self.0[3] >> 44) as u8;
        s[26] = self.0[4] as u8;
        s[27] = (self.0[4] >> 8) as u8;
        s[28] = (self.0[4] >> 16) as u8;
        s[29] = (self.0[4] >> 24) as u8;
        s[30] = (self.0[4] >> 32) as u8;
        s[31] = (self.0[4] >> 40) as u8;
        proof {
            let l0 = self.0@[0];
            let l1 = self.0@[1];
            let l2 = self.0@[2];
            let l3 = self.0@[3];
            let l4 = self.0@[4];
            lemma_le_nat_words32(s@);
            let p0 = s@.subrange(0, 8);
            let p1 = s@.subrange(8, 16);
            let p2 = s@.subrange(16, 24);
            let p3 = s@.subrange(24, 32);
            lemma_le_nat_8(p0);
            lemma_le_nat_8(p1);
            lemma_le_nat_8(p2);
            lemma_le_nat_8(p3);
            assert((l0 as u8) as nat + (((l0 >> 8) as u8) as nat) * 0x100 + (((l0 >> 16) as u8) as nat)
                * 0x10000 + (((l0 >> 24) as u8) as nat) * 0x1000000 + (((l0 >> 32) as u8) as nat)
                * 0x100000000 + (((l0 >> 40) as u8) as nat) * 0x10000000000 + ((((l0 >> 48) | (l1
                << 4)) as u8) as nat) * 0x1000000000000 + (((l1 >> 4) as u8) as nat)
                * 0x100000000000000 == (l0 as nat) % 0x10000000000000 + ((l1 as nat) % 0x1000)
                * 0x10000000000000) by (bit_vector)
                requires
                    l0 < 0x10000000000000u64,
                    l1 < 0x10000000000000u64,
            ;
            assert((((l1 >> 12) as u8) as nat) + (((l1 >> 20) as u8) as nat) * 0x100 + (((l1
                >> 28) as u8) as nat) * 0x10000 + (((l1 >> 36) as u8) as nat) * 0x1000000 + (((l1
                >> 44) as u8) as nat) * 0x100000000 + ((l2 as u8) as nat) * 0x10000000000 + (((l2
                >> 8) as u8) as nat) * 0x1000000000000 + (((l2 >> 16) as u8) as nat)
                * 0x100000000000000 == (l1 as nat) / 0x1000 + ((l2 as nat) % 0x1000000)
                * 0x10000000000) by (bit_vector)
                requires
                    l1 < 0x10000000000000u64,
            ;
            assert((((l2 >> 24) as u8) as nat) + (((l2 >> 32) as u8) as nat) * 0x100 + (((l2
                >> 40) as u8) as nat) * 0x10000 + ((((l2 >> 48) | (l3 << 4)) as u8) as nat)
                * 0x1000000 + (((l3 >> 4) as u8) as nat) * 0x100000000 + (((l3 >> 12) as u8) as nat)
                * 0x10000000000 + (((l3 >> 20) as u8) as nat) * 0x1000000000000 + (((l3
                >> 28) as u8) as nat) * 0x100000000000000 == (l2 as nat) / 0x1000000 + ((
            l3 as nat) % 0x1000000000) * 0x10000000) by (bit_vector)
                requires
                    l2 < 0x10000000000000u64,
            ;
            assert((((l3 >> 36) as u8) as nat) + (((l3 >> 44) as u8) as nat) * 0x100 + ((
            l4 as u8) as nat) * 0x10000 + (((l4 >> 8) as u8) as nat) * 0x1000000 + (((l4
                >> 16) as u8) as nat) * 0x100000000 + (((l4 >> 24) as u8) as nat) * 0x10000000000
                + (((l4 >> 32) as u8) as nat) * 0x1000000000000 + (((l4 >> 40) as u8) as nat)
                * 0x100000000000000 == (l3 as nat) / 0x1000000000 + (l4 as nat) * 0x10000)
                by (bit_vector)
                requires
                    l3 < 0x10000000000000u64,
                    l4 < 0x1000000000000u64,
            ;
            lemma_fundamental_div_mod(l1 as int, 0x1000);
            lemma_fundamental_div_mod(l2 as int, 0x1000000);
            lemma_fundamental_div_mod(l3 as int, 0x1000000000);
            lemma_small_mod(l0 as nat, 0x10000000000000);
            assert(le_nat(s@) == wide_nat(self)) by (nonlinear_arith)
                requires
                    le_nat(s@) == ((l0 as nat) % 0x10000000000000 + ((l1 as nat) % 0x1000)
                        * 0x10000000000000) + pow2(64) * ((l1 as nat) / 0x1000 + ((l2 as nat)
                        % 0x1000000) * 0x10000000000) + pow2(128) * ((l2 as nat) / 0x1000000 + ((
                    l3 as nat) % 0x1000000000) * 0x10000000) + pow2(192) * ((l3 as nat)
                        / 0x1000000000 + (l4 as nat) * 0x10000),
                    wide_nat(self) == l0 as nat + (l1 as nat) * pow2(52) + (l2 as nat) * pow2(104)
                        + (l3 as nat) * pow2(156) + (l4 as nat) * pow2(208),
                    l0 < 0x10000000000000u64,
                    pow2(52) == 0x10000000000000,
                    pow2(64) == 0x10000000000000000,
                    pow2(104) == pow2(64) * 0x10000000000,
                    pow2(128) == pow2(104) * 0x1000000,
                    pow2(156) == pow2(128) * 0x10000000,
                    pow2(192) == pow2(156) * 0x1000000000,
                    pow2(208) == pow2(192) * 0x10000,
            ;
        }
        s
    }

    /// Compute the exact sum `a + b`, never reduced modulo `L`.
    pub fn add(a: &Scalar52, b: &Scalar52) -> (sum: Scalar52)
        requires
            limbs_bounded(a),
            limbs_bounded(b),
            wide_nat(a) + wide_nat(b) < pow2(260),
        ensures
            limbs_bounded(&sum),
            wide_nat(&sum) == wide_nat(a) + wide_nat(b),
    {
        let mut sum = Scalar52([0, 0, 0, 0, 0]);
        proof {
            assert(1u64 << 52 == 0x10000000000000u64) by (bit_vector);
            assert(0u64 >> 52 == 0u64) by (bit_vector);
            lemma2_to64();
        }
        let mask = (1u64 << 52) - 1;
        let mut carry: u64 = 0;
        for i in 0..5
            invariant
                limbs_bounded(a),
                limbs_bounded(b),
                mask == 0xFFFFFFFFFFFFFu64,
                carry < 0x20000000000000u64,
                i == 0 ==> carry == 0,
                forall|j: int| 0 <= j < i ==> sum.0@[j] < 0x10000000000000u64,
                forall|j: int| i <= j < 5 ==> sum.0@[j] == 0,
                limbs_prefix(sum.0@, i as nat) + ((carry >> 52) as nat) * pow2(
                    52 * (i as nat),
                ) == limbs_prefix(a.0@, i as nat) + limbs_prefix(b.0@, i as nat),
        {
            let ghost c0 = carry;
            let ghost presum = sum.0@;
            proof {
                assert(c0 >> 52 <= 1u64) by (bit_vector)
                    requires
                        c0 < 0x20000000000000u64,
                ;
            }
            carry = a.0[i] + b.0[i] + (carry >> 52);
            sum.0[i] = carry & mask;
            proof {
                let c1 = carry;
                assert(c1 & 0xFFFFFFFFFFFFFu64 == (c1 as nat) % 0x10000000000000 && c1
                    & 0xFFFFFFFFFFFFFu64 < 0x10000000000000u64 && (c1 >> 52) as nat == (
                c1 as nat) / 0x10000000000000) by (bit_vector);
                assert(sum.0@ =~= presum.update(i as int, c1 & mask));
                lemma_limbs_prefix_update(presum, sum.0@, i as nat);
                lemma_fundamental_div_mod(c1 as int, 0x10000000000000);
                lemma_pow2_adds(52 * (i as nat), 52);
                lemma2_to64_rest();
                assert(52 * ((i + 1) as nat) == 52 * (i as nat) + 52);
                let p = pow2(52 * (i as nat));
                let q = pow2(52 * (i as nat) + 52);
                assert(limbs_prefix(sum.0@, (i + 1) as nat) == limbs_prefix(sum.0@, i as nat) + (
                sum.0@[i as int] as nat) * p);
                assert(((c1 & mask) as nat) * p + ((c1 >> 52) as nat) * q == (
                c1 as nat) * p) by (nonlinear_arith)
                    requires
                        q == p * 0x10000000000000,
                        (c1 as nat) == ((c1 >> 52) as nat) * 0x10000000000000 + ((c1
                            & mask) as nat),
                ;
                assert((c1 as nat) * p == (a.0@[i as int] as nat) * p + (b.0@[i as int] as nat) * p
                    + ((c0 >> 52) as nat) * p) by (nonlinear_arith)
                    requires
                        c1 as nat == a.0@[i as int] as nat + b.0@[i as int] as nat + (c0
                            >> 52) as nat,
                ;
            }
        }
        proof {
            lemma_limbs_prefix_5(sum.0@);
            lemma_limbs_prefix_5(a.0@);
            lemma_limbs_prefix_5(b.0@);
            assert((carry >> 52) <= 1u64) by (bit_vector)
                requires
                    carry < 0x20000000000000u64,
            ;
            if carry >> 52 == 1u64 {
                assert(wide_nat(&sum) + pow2(260) == wide_nat(a) + wide_nat(b));
            }
        }
        sum
    }
}

/// `L` as a `Scalar52`, the same constant the byte packing produces.
pub fn l_wide() -> (s: Scalar52)
    ensures
        wide_nat(&s) == group_order(),
        limbs_bounded(&s),
{
    let s = Scalar52([
        0x0002_631a_5cf5_d3ed,
        0x000d_ea2f_79cd_6581,
        0x0000_0000_0014_def9,
        0x0000_0000_0000_0000,
        0x0000_1000_0000_0000,
    ]);
    proof {
        lemma_limbs_nat_5(s.0@);
        lemma2_to64();
        lemma2_to64_rest();
        lemma_pow2_adds(52, 52);
        assert(pow2(104) == 0x100000000000000000000000000);
        assert(0x0000_1000_0000_0000 * pow2(208) == pow2(252)) by {
            lemma_pow52_values();
            lemma_pow2_adds(44, 208);
        }
        assert(0x0002_631a_5cf5_d3edu64 as nat + (0x000d_ea2f_79cd_6581u64 as nat) * pow2(52) + (
        0x0000_0000_0014_def9u64 as nat) * pow2(104)
            == 27742317777372353535851937790883648493nat);
        assert(s.0@[0] == 0x0002_631a_5cf5_d3edu64);
        assert(s.0@[3] == 0u64);
        assert((s.0@[3] as nat) * pow2(156) == 0) by (nonlinear_arith)
            requires
                s.0@[3] == 0u64,
        ;
        assert(wide_nat(&s) == pow2(252) + 27742317777372353535851937790883648493nat);
    }
    s
}

/// The value reached by adding `L` until the top three bits of a 256-bit
/// encoding are no longer all zero, that is until the value reaches `2^253`.
pub open spec fn widen_to_top_bits(v: nat) -> nat
    decreases pow2(253) + group_order() - v,
{
    if v >= pow2(253) {
        v
    } else {
        widen_to_top_bits(v + group_order())
    }
}

/// Widening keeps the residue modulo `L`, never shrinks the value, stops as
/// soon as `2^253` is reached and stays within one `L` of it.
pub proof fn lemma_widen_props(v: nat)
    ensures
        widen_to_top_bits(v) % group_order() == v % group_order(),
        widen_to_top_bits(v) >= v,
        widen_to_top_bits(v) >= pow2(253),
        v < pow2(253) + group_order() ==> widen_to_top_bits(v) < pow2(253) + group_order(),
    decreases pow2(253) + group_order() - v,
{
    if v >= pow2(253) {
    } else {
        lemma_widen_props(v + group_order());
        lemma_mod_add_multiples_vanish(v as int, group_order() as int);
    }
}

/// Where the group order sits between powers of two, and the power-of-two
/// facts at the byte boundaries the range arguments need.
pub proof fn lemma_group_order_bounds()
    ensures
        pow2(252) < group_order(),
        group_order() < pow2(253),
        pow2(251) < group_order(),
        2 * group_order() < pow2(256),
        group_order() < pow2(255),
        pow2(253) == 32 * pow2(248),
        pow2(255) == 128 * pow2(248),
        pow2(254) == 2 * pow2(253),
        2 * group_order() < pow2(254),
        pow2(253) + group_order() < pow2(254),
        pow2(254) < pow2(255),
        pow2(254) < pow2(256),
        pow2(254) < pow2(260),
        2 * group_order() < pow2(255),
{
    lemma_pow2_adds(5, 248);
    lemma_pow2_adds(7, 248);
    lemma_pow2_adds(253, 1);
    vstd::arithmetic::power2::lemma_pow2_strictly_increases(254, 255);
    vstd::arithmetic::power2::lemma_pow2_strictly_increases(254, 256);
    vstd::arithmetic::power2::lemma_pow2_strictly_increases(254, 260);
    lemma2_to64();
    lemma2_to64_rest();
    lemma_pow2_adds(124, 128);
    lemma_pow2_adds(64, 64);
    lemma_pow2_adds(124, 4);
    assert(pow2(128) == pow2(64) * pow2(64));
    assert(pow2(124) == 0x10000000000000000000000000000000);
    assert(27742317777372353535851937790883648493nat < pow2(128)) by {
        assert(pow2(128) == pow2(124) * 0x10);
    }
    assert(pow2(252) == pow2(124) * pow2(128));
    assert(pow2(128) < pow2(252)) by {
        vstd::arithmetic::power2::lemma_pow2_strictly_increases(128, 252);
    }
    vstd::arithmetic::power2::lemma_pow2_strictly_increases(251, 252);
    vstd::arithmetic::power2::lemma_pow2_strictly_increases(253, 255);
    vstd::arithmetic::power2::lemma_pow2_strictly_increases(253, 256);
    lemma_pow2_adds(252, 1);
    lemma_pow2_adds(253, 3);
    assert(pow2(253) == 2 * pow2(252));
    assert(pow2(256) == pow2(253) * 8);
}

/// Concrete values and products for the powers of two this module uses.
pub proof fn lemma_pow52_values()
    ensures
        pow2(52) == 0x10000000000000,
        pow2(64) == 0x10000000000000000,
        pow2(104) == pow2(64) * 0x10000000000,
        pow2(104) == pow2(52) * pow2(52),
        pow2(128) == pow2(104) * 0x1000000,
        pow2(156) == pow2(128) * 0x10000000,
        pow2(156) == pow2(52) * pow2(104),
        pow2(192) == pow2(156) * 0x1000000000,
        pow2(208) == pow2(192) * 0x10000,
        pow2(208) == pow2(52) * pow2(156),
        pow2(256) == pow2(208) * 0x1000000000000,
        pow2(260) == pow2(208) * 0x10000000000000,
        pow2(48) == 0x1000000000000,
{
    lemma2_to64();
    lemma2_to64_rest();
    lemma_pow2_adds(52, 52);
    lemma_pow2_adds(52, 104);
    lemma_pow2_adds(52, 156);
    lemma_pow2_adds(64, 40);
    lemma_pow2_adds(104, 24);
    lemma_pow2_adds(128, 28);
    lemma_pow2_adds(156, 36);
    lemma_pow2_adds(192, 16);
    lemma_pow2_adds(208, 48);
    lemma_pow2_adds(208, 52);
}

/// Expands the limb value of a five-limb vector into an explicit sum.
pub proof fn lemma_limbs_nat_5(l: Seq<u64>)
    requires
        l.len() == 5,
    ensures
        limbs_nat(l) == l[0] as nat + (l[1] as nat) * pow2(52) + (l[2] as nat) * pow2(104) + (
        l[3] as nat) * pow2(156) + (l[4] as nat) * pow2(208),
{
    let l1 = l.skip(1);
    let l2 = l1.skip(1);
    let l3 = l2.skip(1);
    let l4 = l3.skip(1);
    let l5 = l4.skip(1);
    assert(l5.len() == 0);
    assert(limbs_nat(l5) == 0);
    assert(l4[0] == l[4] && l3[0] == l[3] && l2[0] == l[2] && l1[0] == l[1]);
    assert(limbs_nat(l4) == l[4] + 0x10000000000000 * limbs_nat(l5));
    assert(limbs_nat(l3) == l[3] + 0x10000000000000 * limbs_nat(l4));
    assert(limbs_nat(l2) == l[2] + 0x10000000000000 * limbs_nat(l3));
    assert(limbs_nat(l1) == l[1] + 0x10000000000000 * limbs_nat(l2));
    assert(limbs_nat(l) == l[0] + 0x10000000000000 * limbs_nat(l1));
    lemma_pow52_values();
    assert(0x10000000000000 * ((l[1] as nat) + 0x10000000000000 * ((l[2] as nat)
        + 0x10000000000000 * ((l[3] as nat) + 0x10000000000000 * (l[4] as nat)))) == (l[1] as nat)
        * pow2(52) + (l[2] as nat) * pow2(104) + (l[3] as nat) * pow2(156) + (l[4] as nat) * pow2(
        208,
    )) by (nonlinear_arith)
        requires
            pow2(52) == 0x10000000000000 && pow2(104) == pow2(52) * pow2(52) && pow2(156) == pow2(
                52,
            ) * pow2(104) && pow2(208) == pow2(52) * pow2(156),
    ;
}

/// The five-limb prefix value is the whole value.
pub proof fn lemma_limbs_prefix_5(l: Seq<u64>)
    requires
        l.len() == 5,
    ensures
        limbs_prefix(l, 5) == limbs_nat(l),
{
    lemma_limbs_nat_5(l);
    lemma_pow52_values();
    assert(limbs_prefix(l, 0) == 0);
    assert(limbs_prefix(l, 1) == limbs_prefix(l, 0) + (l[0] as nat) * pow2(0));
    assert(limbs_prefix(l, 2) == limbs_prefix(l, 1) + (l[1] as nat) * pow2(52));
    assert(limbs_prefix(l, 3) == limbs_prefix(l, 2) + (l[2] as nat) * pow2(104));
    assert(limbs_prefix(l, 4) == limbs_prefix(l, 3) + (l[3] as nat) * pow2(156));
    assert(limbs_prefix(l, 5) == limbs_prefix(l, 4) + (l[4] as nat) * pow2(208));
    lemma2_to64();
}

/// A prefix value only reads the limbs below the prefix length.
pub proof fn lemma_limbs_prefix_update(l: Seq<u64>, l2: Seq<u64>, n: nat)
    requires
        l.len() == l2.len(),
        forall|j: int| 0 <= j < n ==> l[j] == l2[j],
        n <= l.len(),
    ensures
        limbs_prefix(l, n) == limbs_prefix(l2, n),
    decreases n,
{
    if n > 0 {
        lemma_limbs_prefix_update(l, l2, (n - 1) as nat);
    }
}

/// Builds the limb value from the four 64-bit words of the byte string.
proof fn lemma_limbs_from_words(l: Seq<u64>, w0: u64, w1: u64, w2: u64, w3: u64)
    requires
        l.len() == 5,
        l[0] as nat == (w0 as nat) % 0x10000000000000,
        l[1] as nat == (w0 as nat) / 0x10000000000000 + ((w1 as nat) % 0x10000000000) * 0x1000,
        l[2] as nat == (w1 as nat) / 0x10000000000 + ((w2 as nat) % 0x10000000) * 0x1000000,
        l[3] as nat == (w2 as nat) / 0x10000000 + ((w3 as nat) % 0x10000) * 0x1000000000,
        l[4] as nat == (w3 as nat) / 0x10000,
    ensures
        limbs_nat(l) == w0 as nat + pow2(64) * (w1 as nat) + pow2(128) * (w2 as nat) + pow2(192) * (
        w3 as nat),
{
    lemma_limbs_nat_5(l);
    lemma_pow52_values();
    lemma_fundamental_div_mod(w0 as int, 0x10000000000000);
    lemma_fundamental_div_mod(w1 as int, 0x10000000000);
    lemma_fundamental_div_mod(w2 as int, 0x10000000);
    lemma_fundamental_div_mod(w3 as int, 0x10000);
    assert(limbs_nat(l) == w0 as nat + pow2(64) * (w1 as nat) + pow2(128) * (w2 as nat) + pow2(192)
        * (w3 as nat)) by (nonlinear_arith)
        requires
            limbs_nat(l) == ((w0 as nat) % 0x10000000000000) + ((w0 as nat) / 0x10000000000000 + ((
            w1 as nat) % 0x10000000000) * 0x1000) * pow2(52) + ((w1 as nat) / 0x10000000000 + ((
            w2 as nat) % 0x10000000) * 0x1000000) * pow2(104) + ((w2 as nat) / 0x10000000 + ((
            w3 as nat) % 0x10000) * 0x1000000000) * pow2(156) + ((w3 as nat) / 0x10000) * pow2(208),
            w0 as nat == 0x10000000000000 * ((w0 as nat) / 0x10000000000000) + (w0 as nat)
                % 0x10000000000000,
            w1 as nat == 0x10000000000 * ((w1 as nat) / 0x10000000000) + (w1 as nat)
                % 0x10000000000,
            w2 as nat == 0x10000000 * ((w2 as nat) / 0x10000000) + (w2 as nat) % 0x10000000,
            w3 as nat == 0x10000 * ((w3 as nat) / 0x10000) + (w3 as nat) % 0x10000,
            pow2(52) == 0x10000000000000,
            pow2(64) == 0x10000000000000000,
            pow2(104) == pow2(64) * 0x10000000000,
            pow2(128) == pow2(104) * 0x1000000,
            pow2(156) == pow2(128) * 0x10000000,
            pow2(192) == pow2(156) * 0x1000000000,
            pow2(208) == pow2(192) * 0x10000,
    ;
}

/// Packing a 32-byte string into limbs and unpacking it again reproduces the
/// bytes exactly: the limb value determines the bytes, and `from_bytes` and
/// `to_bytes` each preserve that value.
pub proof fn lemma_wide_round_trip(b: Seq<u8>, s: &Scalar52, out: Seq<u8>)
    requires
        b.len() == 32,
        wide_nat(s) == le_nat(b),
        out.len() == 32,
        le_nat(out) == wide_nat(s),
    ensures
        out == b,
{
    lemma_le_nat_injective(out, b);
}

/// Adding a positive multiple of `L` keeps the residue modulo `L` but always
/// changes the 32-byte encoding.
pub proof fn lemma_multiple_of_l_same_residue(s: Seq<u8>, sp: Seq<u8>, k: nat)
    requires
        s.len() == 32,
        sp.len() == 32,
        le_nat(sp) == le_nat(s) + k * group_order(),
    ensures
        le_nat(sp) % group_order() == le_nat(s) % group_order(),
        k > 0 ==> sp != s,
{
    lemma_mod_multiples_vanish(k as int, le_nat(s) as int, group_order() as int);
    if k > 0 {
        assert(k * group_order() >= group_order()) by (nonlinear_arith)
            requires
                k >= 1,
        ;
        assert(le_nat(sp) != le_nat(s));
    }
}

} // verus!
