use crate::format::{lemma_format_bounds, lemma_pow2_u32};
use crate::ops::{
    bit_len, flush_denormal_to_zero, flushed, full_sig, infinity_of, lemma_bit_len_bounds,
    lemma_bit_len_le, lemma_bit_len_unique, lemma_carry_bit, lemma_leading_zeros, lemma_or_is_add,
    lemma_strip_hidden_bit, make_quiet_nan, quiet_nan, zero_of,
};
use crate::value::{two_to, Value};
use vstd::arithmetic::power2::{lemma_pow2_pos, lemma_pow2_strictly_increases, lemma_pow2_unfold, pow2};
use vstd::bits::{lemma_u32_shl_is_mul, lemma_u32_shr_is_div};
use vstd::prelude::*;

verus! {

/// `a` is smaller in magnitude than `b`: compared by exponent, then by the
/// significand with denormals read as zero.
pub open spec fn mag_less(a: Value, b: Value) -> bool {
    a.exp < b.exp || (a.exp == b.exp && flushed(a).sig < flushed(b).sig)
}

/// The smaller operand's full significand shifted right to the larger one's
/// exponent, or 0 when the shift exceeds the significand width.
pub open spec fn aligned_sig(hi: Value, lo: Value) -> nat {
    let d = hi.exp - lo.exp;
    if d > hi.format.sig_bits() {
        0
    } else {
        full_sig(lo) / two_to(d as nat)
    }
}

/// Sum of the aligned significands, or their difference when the signs differ.
pub open spec fn raw_sum(hi: Value, lo: Value) -> int {
    if hi.sign == lo.sign {
        (full_sig(hi) + aligned_sig(hi, lo)) as int
    } else {
        full_sig(hi) - aligned_sig(hi, lo)
    }
}

/// The sum of two finite-or-infinite operands, `hi` at least as large in
/// magnitude as `lo`: carry into the exponent, saturate to infinity,
/// renormalize after cancellation, and give `+0` for a zero or underflowing sum.
pub open spec fn sum_ordered(hi: Value, lo: Value) -> Value {
    let f = hi.format;
    let s = f.sig_bits();
    let m = raw_sum(hi, lo);
    let carry = m >= two_to(s + 1);
    let m1: nat = if carry { (m / 2) as nat } else { m as nat };
    let e1: nat = if carry { (hi.exp + 1) as nat } else { hi.exp as nat };
    let shift: int = (s + 1) - bit_len(m1);
    if e1 >= f.spec_exp_max() {
        infinity_of(hi.sign, f)
    } else if hi.exp == 0 || m == 0 || shift >= e1 {
        zero_of(f)
    } else {
        Value {
            sign: hi.sign,
            exp: (e1 - shift) as u32,
            sig: (m1 * two_to(shift as nat) - two_to(s)) as u32,
            format: f,
        }
    }
}

/// What `addition` returns.
pub open spec fn add_result(a: Value, b: Value) -> Value {
    if a.spec_is_nan() || b.spec_is_nan() || (a.spec_is_inf() && b.spec_is_inf() && a.sign
        != b.sign) {
        quiet_nan(a.format)
    } else if mag_less(a, b) {
        sum_ordered(b, a)
    } else {
        sum_ordered(a, b)
    }
}

/// The operands `addition` accepts: one format, fields in range, and a NaN
/// encoding available where the result is NaN.
pub open spec fn addable(a: Value, b: Value) -> bool {
    &&& a.format == b.format
    &&& a.in_range()
    &&& b.in_range()
    &&& a.format.sig_bits() == 0 ==> !(a.spec_is_inf() && b.spec_is_inf() && a.sign != b.sign)
}

/// Adds two values of one format, bit-exactly: denormals read as zero, NaN in
/// gives the canonical quiet NaN, opposite infinities give NaN, overflow
/// saturates to infinity, and a zero or underflowing sum is `+0`.
pub fn addition(source1: Value, source2: Value) -> (r: Value)
    requires
        addable(source1, source2),
    ensures
        r == add_result(source1, source2),
        r.in_range(),
{
    let source1 = flush_denormal_to_zero(source1);
    let source2 = flush_denormal_to_zero(source2);

    // The operand of greater magnitude goes left.
    let (hi, lo) = if source1.exp < source2.exp || (source1.exp == source2.exp && source1.sig
        < source2.sig) {
        (source2, source1)
    } else {
        (source1, source2)
    };
    let format = hi.format;
    proof {
        use_type_invariant(&format);
        lemma_format_bounds(format);
    }

    if hi.is_nan() || lo.is_nan() {
        return make_quiet_nan(format);
    }
    if hi.is_inf() && lo.is_inf() && hi.sign != lo.sign {
        return make_quiet_nan(format);
    }
    add_ordered(hi, lo)
}

/// Adds `lo` to `hi`, neither NaN nor the two opposite infinities, `hi` at
/// least as large in magnitude and both with denormals flushed.
fn add_ordered(hi: Value, lo: Value) -> (r: Value)
    requires
        hi.format == lo.format,
        hi.in_range(),
        lo.in_range(),
        hi == flushed(hi),
        lo == flushed(lo),
        !mag_less(hi, lo),
    ensures
        r == sum_ordered(hi, lo),
        r.in_range(),
{
    let format = hi.format;
    let s = format.num_sig_bits();
    let exp_max = format.exp_max();
    proof {
        lemma_format_bounds(format);
        lemma_pow2_u32(s);
        lemma_pow2_u32((s + 1) as u32);
        lemma_pow2_u32((s + 2) as u32);
        lemma_pow2_unfold((s + 1) as nat);
        lemma_pow2_unfold((s + 2) as nat);
        lemma_or_is_add(hi.sig, 1, s);
        lemma_or_is_add(lo.sig, 1, s);
    }

    // Full significands, hidden bit included.
    let hidden_bit = 1u32 << s;
    let hi_sig = hidden_bit | hi.sig;
    let mut lo_sig = hidden_bit | lo.sig;
    assert(hi_sig == full_sig(hi) && lo_sig == full_sig(lo));

    // Align the smaller operand to the larger exponent.
    if lo.exp < hi.exp {
        let shift_digits = hi.exp - lo.exp;
        if shift_digits > s {
            lo_sig = 0;
        } else {
            proof {
                lemma_u32_shr_is_div(lo_sig, shift_digits);
            }
            lo_sig = lo_sig >> shift_digits;
        }
    } else {
        // Equal exponents: nothing to shift.
        assert(two_to(0) == 1);
        assert(full_sig(lo) / 1 == full_sig(lo));
    }
    proof {
        lemma_aligned_below(hi, lo);
    }
    assert(lo_sig == aligned_sig(hi, lo));

    // Negate the smaller operand in two's complement when the signs differ,
    // over the significand, hidden and carry bits.
    let mask = (1u32 << (s + 2)) - 1;
    let ghost aligned = lo_sig;
    if hi.sign != lo.sign {
        lo_sig = (!lo_sig).wrapping_add(1) & mask;
    }
    proof {
        if hi.sign != lo.sign {
            lemma_negate_and_add(hi_sig, aligned, (s + 2) as u32, mask, lo_sig);
        } else {
            lemma_mask_small((hi_sig + lo_sig) as u32, (s + 2) as u32, mask);
        }
    }

    let sum_sign = hi.sign;
    let mut sum_exp = hi.exp;
    let mut sum_sig = (hi_sig + lo_sig) & mask;
    assert(sum_sig == raw_sum(hi, lo));
    let is_sum_zero = sum_exp == 0 || sum_sig == 0;

    // A carry out of the hidden bit moves the point one place.
    proof {
        lemma_carry_bit(sum_sig, (s + 1) as u32);
    }
    if ((sum_sig >> (s + 1)) & 1) != 0 {
        sum_exp = sum_exp + 1;
        sum_sig = sum_sig >> 1;
    }

    if sum_exp >= exp_max {
        return Value::from_comps(sum_sign, exp_max, 0, format);
    }

    // Renormalize after cancellation.
    proof {
        lemma_leading_zeros(sum_sig);
        lemma_bit_len_bounds(sum_sig as nat);
        lemma_bit_len_le(sum_sig as nat, (s + 1) as nat);
    }
    let leading_zeros = sum_sig.leading_zeros() - (32 - (s + 1));
    if is_sum_zero || leading_zeros >= sum_exp {
        return Value::from_comps(false, 0, 0, format);
    }
    proof {
        lemma_normalized(sum_sig as nat, leading_zeros as nat, s as nat);
        lemma_u32_shl_is_mul(sum_sig, leading_zeros);
        lemma_pow2_pos(leading_zeros as nat);
    }
    let norm_sig = sum_sig << leading_zeros;
    proof {
        lemma_strip_hidden_bit(norm_sig, s);
    }
    Value::from_comps(sum_sign, sum_exp - leading_zeros, norm_sig & (hidden_bit - 1), format)
}

/// Addition is commutative: swapping the operands gives the same value, bit
/// for bit. This holds for NaN and opposite infinities too, which both give the
/// canonical quiet NaN.
pub proof fn lemma_addition_commutative(a: Value, b: Value)
    requires
        a.format == b.format,
        a.format.valid(),
        a.in_range(),
        b.in_range(),
    ensures
        add_result(a, b) == add_result(b, a),
{
    lemma_format_bounds(a.format);
    lemma_pow2_pos(a.format.sig_bits() + 1);
    let special = a.spec_is_nan() || b.spec_is_nan() || (a.spec_is_inf() && b.spec_is_inf()
        && a.sign != b.sign);
    if !special && !mag_less(a, b) && !mag_less(b, a) {
        // Equal magnitudes: the same sign gives equal operands, opposite signs
        // cancel to zero whichever goes left.
        assert(a.exp == b.exp);
        assert(full_sig(a) == full_sig(b));
        assert(two_to(0) == 1);
        assert(full_sig(b) / 1 == full_sig(b));
        assert(aligned_sig(a, b) == full_sig(b));
        assert(aligned_sig(b, a) == full_sig(a));
        if a.sign == b.sign {
            assert(raw_sum(a, b) == raw_sum(b, a));
            assert(sum_ordered(a, b) == sum_ordered(b, a));
        } else {
            assert(raw_sum(a, b) == 0);
            assert(raw_sum(b, a) == 0);
            assert(a.exp < a.format.spec_exp_max());
            assert(sum_ordered(a, b) == zero_of(a.format));
            assert(sum_ordered(b, a) == zero_of(a.format));
        }
    }
}

/// A NaN operand, on either side, gives the canonical quiet NaN.
pub proof fn lemma_addition_nan(a: Value, b: Value)
    requires
        a.format == b.format,
        a.spec_is_nan(),
    ensures
        add_result(a, b) == quiet_nan(a.format),
        add_result(b, a) == quiet_nan(a.format),
{
}

/// Infinities of opposite signs give the canonical quiet NaN; an infinity
/// plus a finite value in range is that infinity.
pub proof fn lemma_addition_infinity(a: Value, b: Value)
    requires
        a.format == b.format,
        a.format.valid(),
        a.spec_is_inf(),
        b.in_range(),
    ensures
        b.spec_is_inf() && a.sign != b.sign ==> add_result(a, b) == quiet_nan(a.format),
        b.exp < a.format.spec_exp_max() ==> add_result(a, b) == infinity_of(a.sign, a.format),
{
    let f = a.format;
    let s = f.sig_bits();
    lemma_format_bounds(f);
    if b.exp < f.spec_exp_max() {
        lemma_pow2_unfold(s + 1);
        lemma_aligned_below(flushed(a), flushed(b));
        assert(!b.spec_is_nan());
        assert(!mag_less(a, b));
        assert(raw_sum(a, b) >= 1) by {
            if a.sign != b.sign {
                assert(a.exp > b.exp);
            }
        }
    }
}

/// The significand of an operand with exponent 0 is never read: the sum is
/// the same with it cleared.
pub proof fn lemma_addition_ignores_denormal_significand(a: Value, b: Value)
    requires
        a.format == b.format,
        a.format.valid(),
        b.exp == 0,
    ensures
        add_result(a, b) == add_result(a, flushed(b)),
        add_result(b, a) == add_result(flushed(b), a),
{
    lemma_format_bounds(a.format);
    let z = flushed(b);
    assert(full_sig(z) == full_sig(b));
    assert(aligned_sig(a, z) == aligned_sig(a, b));
    assert(aligned_sig(z, a) == aligned_sig(b, a));
}

/// Two operands with exponent 0 add to `+0`, whatever their significands and
/// signs.
pub proof fn lemma_addition_of_zeros(a: Value, b: Value)
    requires
        a.format == b.format,
        a.format.valid(),
        a.exp == 0,
        b.exp == 0,
    ensures
        add_result(a, b) == zero_of(a.format),
{
    lemma_format_bounds(a.format);
}

/// Adding an operand with exponent 0 to a finite `x` whose exponent exceeds
/// the significand width gives `x` back. (For a smaller exponent the zero's
/// hidden bit, shifted into range, is added.)
pub proof fn lemma_addition_zero_below_precision(x: Value, z: Value)
    requires
        x.format == z.format,
        x.format.valid(),
        x.in_range(),
        z.exp == 0,
        x.format.sig_bits() < x.exp < x.format.spec_exp_max(),
    ensures
        add_result(x, z) == x,
        add_result(z, x) == x,
{
    let f = x.format;
    let s = f.sig_bits();
    lemma_format_bounds(f);
    lemma_pow2_unfold(s + 1);
    let m = full_sig(x);
    assert(raw_sum(x, z) == m);
    assert(m < two_to(s + 1));
    lemma_bit_len_unique(m, s + 1);
    assert(two_to(0) == 1);
    assert(m * two_to(0) == m);
    let zf = flushed(z);
    lemma_addition_ignores_denormal_significand(x, z);
    lemma_addition_commutative(x, zf);
}

/// Masking a number below `2^w` to `w` bits keeps it.
proof fn lemma_mask_small(v: u32, w: u32, mask: u32)
    by (bit_vector)
    requires
        w < 32,
        v < (1u32 << w),
        mask == ((1u32 << w) - 1u32) as u32,
    ensures
        v & mask == v,
{
}

/// Adding the `w`-bit two's complement of `x` to `a`, within `w` bits, is
/// `a - x` for `x <= a < 2^w`.
proof fn lemma_negate_and_add(a: u32, x: u32, w: u32, mask: u32, neg: u32)
    by (bit_vector)
    requires
        w <= 31,
        x <= a,
        a < (1u32 << w),
        mask == ((1u32 << w) - 1u32) as u32,
        neg == vstd::wrapping::u32_specs::wrapping_add(!x, 1u32) & mask,
    ensures
        a + neg <= 0xffff_ffffu32,
        ((a + neg) as u32) & mask == a - x,
{
}

/// The aligned smaller significand is at most the larger one and both fit
/// below the carry bit.
proof fn lemma_aligned_below(hi: Value, lo: Value)
    requires
        hi.format == lo.format,
        hi.format.valid(),
        hi.in_range(),
        lo.in_range(),
        hi == flushed(hi),
        lo == flushed(lo),
        !mag_less(hi, lo),
    ensures
        aligned_sig(hi, lo) <= full_sig(hi) < two_to((hi.format.sig_bits() + 1) as nat),
        full_sig(lo) < two_to((hi.format.sig_bits() + 1) as nat),
        hi.exp > lo.exp ==> aligned_sig(hi, lo) < two_to(hi.format.sig_bits()),
{
    let s = hi.format.sig_bits();
    lemma_pow2_unfold(s + 1);
    lemma_pow2_pos(s);
    lemma_format_bounds(hi.format);
    if hi.exp > lo.exp && hi.exp - lo.exp <= s {
        let d = (hi.exp - lo.exp) as nat;
        lemma_pow2_unfold(d);
        lemma_pow2_pos((d - 1) as nat);
        assert(full_sig(lo) / pow2(d) < pow2(s)) by {
            vstd::arithmetic::div_mod::lemma_div_is_ordered_by_denominator(
                full_sig(lo) as int,
                2,
                pow2(d) as int,
            );
        }
    }
}

/// After the carry step the sum is below `2^(s+1)`; shifting it left by its
/// leading zeros within `s+1` bits puts its top bit at the hidden-bit place.
proof fn lemma_normalized(m: nat, lz: nat, s: nat)
    requires
        0 < m < pow2(s + 1),
        lz == (s + 1) - bit_len(m),
    ensures
        pow2(s) <= m * pow2(lz) < pow2(s + 1),
{
    lemma_bit_len_bounds(m);
    let b = bit_len(m);
    if b > s + 1 {
        lemma_pow2_strictly_increases(s + 1, (b - 1) as nat);
        if (b - 1) as nat == s + 1 {
        }
    }
    vstd::arithmetic::power2::lemma_pow2_adds((b - 1) as nat, lz);
    vstd::arithmetic::power2::lemma_pow2_adds(b, lz);
    assert(pow2(s) <= m * pow2(lz) < pow2(s + 1)) by (nonlinear_arith)
        requires
            pow2((b - 1) as nat) <= m < pow2(b),
            pow2(s) == pow2((b - 1) as nat) * pow2(lz),
            pow2(s + 1) == pow2(b) * pow2(lz),
            pow2(lz) > 0,
    {
    }
    lemma_pow2_pos(lz);
}

} // verus!
