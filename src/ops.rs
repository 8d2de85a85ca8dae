//! The arithmetic kernels and what they share: reading denormals as zero,
//! the canonical quiet NaN, and facts about significands in a 32-bit word.
use crate::format::{lemma_pow2_u32, Format};
use crate::value::{two_to, Value};
use vstd::arithmetic::power2::{
    lemma_pow2_pos, lemma_pow2_strictly_increases, lemma_pow2_unfold, pow2,
};
use vstd::bits::lemma_u32_shr_is_div;
use vstd::prelude::*;
use vstd::std_specs::bits::{axiom_u32_leading_zeros, u32_leading_zeros};

pub mod addition;
pub mod multiplication;

pub use self::addition::addition;
pub use self::multiplication::multiplication;

verus! {

/// `v` with the significand of a denormal (exponent 0) cleared, so that it
/// reads as a signed zero.
pub open spec fn flushed(v: Value) -> Value {
    if v.exp == 0 {
        Value { sig: 0, ..v }
    } else {
        v
    }
}

/// The one NaN that arithmetic emits: positive, exponent all ones, only the
/// top significand bit set.
pub open spec fn quiet_nan(format: Format) -> Value {
    Value {
        sign: false,
        exp: format.spec_exp_max() as u32,
        sig: two_to((format.sig_bits() - 1) as nat) as u32,
        format,
    }
}

/// Positive zero.
pub open spec fn zero_of(format: Format) -> Value {
    Value { sign: false, exp: 0, sig: 0, format }
}

/// Infinity of the given sign.
pub open spec fn infinity_of(sign: bool, format: Format) -> Value {
    Value { sign, exp: format.spec_exp_max() as u32, sig: 0, format }
}

/// Treats a denormal input as zero by clearing its significand.
pub fn flush_denormal_to_zero(value: Value) -> (r: Value)
    ensures
        r == flushed(value),
{
    if value.exp == 0 {
        Value { sig: 0, ..value }
    } else {
        value
    }
}

/// Builds the canonical quiet NaN of a format with at least one significand bit.
pub(crate) fn make_quiet_nan(format: Format) -> (r: Value)
    requires
        format.sig_bits() >= 1,
    ensures
        r == quiet_nan(format),
        r.in_range(),
{
    let s = format.num_sig_bits();
    let exp_max = format.exp_max();
    proof {
        lemma_pow2_u32((s - 1) as u32);
        lemma_pow2_u32(s);
        vstd::arithmetic::power2::lemma_pow2_unfold(s as nat);
    }
    Value { sign: false, exp: exp_max, sig: 1u32 << (s - 1), format }
}

/// Number of binary digits of `m` (0 for 0).
pub open spec fn bit_len(m: nat) -> nat
    decreases m,
{
    if m == 0 {
        0
    } else {
        1 + bit_len(m / 2)
    }
}

/// Significand with the hidden bit set, denormals read as zero.
pub open spec fn full_sig(v: Value) -> nat {
    (two_to(v.format.sig_bits()) + flushed(v).sig) as nat
}

/// In a word, `(hi << k) | lo` adds the two when `lo` lies below bit `k`.
pub(crate) proof fn lemma_or_is_add(lo: u32, hi: u32, k: u32)
    by (bit_vector)
    requires
        k < 31,
        lo < (1u32 << k),
        hi <= 1,
    ensures
        (hi << k) | lo == (hi << k) + lo,
{
}

/// Bit `k` of a number below `2^(k+1)` is set exactly when it is at least `2^k`.
pub(crate) proof fn lemma_carry_bit(v: u32, k: u32)
    by (bit_vector)
    requires
        k < 31,
        v < (1u32 << (k + 1) as u32),
    ensures
        ((v >> k) & 1u32 != 0u32) == (v >= (1u32 << k)),
        v >> 1u32 == v / 2,
{
}

/// `bit_len(m)` is the `k` with `2^(k-1) <= m < 2^k`.
pub(crate) proof fn lemma_bit_len_bounds(m: nat)
    ensures
        m == 0 <==> bit_len(m) == 0,
        m > 0 ==> pow2((bit_len(m) - 1) as nat) <= m < pow2(bit_len(m)),
    decreases m,
{
    if m > 0 {
        lemma_bit_len_bounds(m / 2);
        lemma_pow2_unfold(bit_len(m));
        if m / 2 > 0 {
            lemma_pow2_unfold((bit_len(m) - 1) as nat);
        } else {
            vstd::arithmetic::power2::lemma2_to64();
        }
    }
}

/// A number below `2^k` has at most `k` digits.
pub(crate) proof fn lemma_bit_len_le(m: nat, k: nat)
    requires
        m < pow2(k),
    ensures
        bit_len(m) <= k,
{
    lemma_bit_len_bounds(m);
    let b = bit_len(m);
    if b > k && k < (b - 1) as nat {
        lemma_pow2_strictly_increases(k, (b - 1) as nat);
    }
}

/// A number between `2^(k-1)` and `2^k` has `k` digits.
pub(crate) proof fn lemma_bit_len_unique(m: nat, k: nat)
    requires
        k >= 1,
        pow2((k - 1) as nat) <= m < pow2(k),
    ensures
        bit_len(m) == k,
{
    lemma_pow2_pos((k - 1) as nat);
    lemma_bit_len_bounds(m);
    lemma_bit_len_le(m, k);
    let b = bit_len(m);
    if b < k && b < (k - 1) as nat {
        lemma_pow2_strictly_increases(b, (k - 1) as nat);
    }
}

/// `leading_zeros` counts the zero bits above the highest set one.
pub(crate) proof fn lemma_leading_zeros(i: u32)
    ensures
        u32_leading_zeros(i) == 32 - bit_len(i as nat),
{
    axiom_u32_leading_zeros(i);
    let lz = u32_leading_zeros(i);
    vstd::arithmetic::power2::lemma2_to64();
    if i == 0 {
        assert(bit_len(0) == 0);
    } else {
        let lo = (31 - lz) as u32;
        lemma_u32_shr_is_div(i, lo);
        let q = i >> lo;
        assert(q & 1u32 != 0u32 ==> q != 0u32) by (bit_vector);
        lemma_pow2_pos(lo as nat);
        vstd::arithmetic::div_mod::lemma_fundamental_div_mod(i as int, pow2(lo as nat) as int);
        vstd::arithmetic::div_mod::lemma_mod_bound(i as int, pow2(lo as nat) as int);
        assert(i >= pow2(lo as nat)) by (nonlinear_arith)
            requires
                i as int == pow2(lo as nat) * q + (i as int) % (pow2(lo as nat) as int),
                q >= 1,
                (i as int) % (pow2(lo as nat) as int) >= 0,
        ;
        if lz >= 1 {
            let hi = (32 - lz) as u32;
            lemma_u32_shr_is_div(i, hi);
            lemma_pow2_pos(hi as nat);
            vstd::arithmetic::div_mod::lemma_fundamental_div_mod(i as int, pow2(hi as nat) as int);
            vstd::arithmetic::div_mod::lemma_mod_bound(i as int, pow2(hi as nat) as int);
        }
        lemma_bit_len_unique(i as nat, (32 - lz) as nat);
    }
}

/// Clearing the hidden bit of a normalized significand subtracts `2^s`.
pub(crate) proof fn lemma_strip_hidden_bit(v: u32, s: u32)
    requires
        s < 30,
        pow2(s as nat) <= v < pow2((s + 1) as nat),
    ensures
        v & ((1u32 << s) - 1u32) as u32 == v - pow2(s as nat),
        v - pow2(s as nat) < pow2(s as nat),
{
    lemma_pow2_u32(s);
    lemma_pow2_unfold((s + 1) as nat);
    vstd::bits::lemma_u32_low_bits_mask_is_mod(v, s as nat);
    assert(vstd::bits::low_bits_mask(s as nat) == pow2(s as nat) - 1);
    vstd::arithmetic::div_mod::lemma_fundamental_div_mod_converse(
        v as int,
        pow2(s as nat) as int,
        1,
        v - pow2(s as nat),
    );
}

} // verus!
