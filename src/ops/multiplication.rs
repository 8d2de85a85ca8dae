use crate::format::{lemma_format_bounds, lemma_pow2_u32};
use crate::ops::{
    flush_denormal_to_zero, full_sig, lemma_bit_len_bounds, lemma_bit_len_le,
    lemma_bit_len_unique, lemma_carry_bit, lemma_leading_zeros, lemma_or_is_add,
    lemma_strip_hidden_bit, make_quiet_nan, quiet_nan,
};
use crate::value::{two_to, Value};
use vstd::arithmetic::power2::{lemma_pow2_adds, lemma_pow2_pos, lemma_pow2_unfold, pow2};
use vstd::bits::lemma_u64_shr_is_div;
use vstd::prelude::*;

verus! {

/// The product's significand realigned to the hidden-bit place: the product
/// of the two full significands divided by `2^s`, which lies in `[2^s, 2^(s+2))`.
pub open spec fn realigned_product(a: Value, b: Value) -> nat {
    (full_sig(a) * full_sig(b)) / two_to(a.format.sig_bits())
}

/// What `multiplication` returns. A zero operand gives a zero signed by the
/// exclusive or of the signs; otherwise the exponent is `a.exp + b.exp - bias`
/// (plus one when the significand product reaches `2^(s+1)`), wrapped to 32
/// bits with no saturation to infinity and no flush to zero.
pub open spec fn mul_result(a: Value, b: Value) -> Value {
    let f = a.format;
    let s = f.sig_bits();
    let sign = a.sign != b.sign;
    if a.spec_is_nan() || b.spec_is_nan() {
        quiet_nan(f)
    } else if a.exp == 0 || b.exp == 0 {
        Value { sign, exp: 0, sig: 0, format: f }
    } else {
        let q = realigned_product(a, b);
        let carry = q >= two_to(s + 1);
        let q1: nat = if carry { q / 2 } else { q };
        let exp = a.exp + b.exp - f.spec_bias() + (if carry { 1int } else { 0int });
        Value {
            sign,
            exp: (exp % 0x1_0000_0000) as u32,
            sig: (q1 - two_to(s)) as u32,
            format: f,
        }
    }
}

/// The operands `multiplication` accepts: one format, fields in range.
pub open spec fn multipliable(a: Value, b: Value) -> bool {
    &&& a.format == b.format
    &&& a.in_range()
    &&& b.in_range()
}

/// Multiplies two values of one format: denormals read as zero, NaN in gives
/// the canonical quiet NaN, a zero operand gives a zero signed by the
/// exclusive or of the signs, and the product significand is truncated.
pub fn multiplication(source1: Value, source2: Value) -> (r: Value)
    requires
        multipliable(source1, source2),
    ensures
        r == mul_result(source1, source2),
        r.sig < two_to(r.format.sig_bits()),
{
    let source1 = flush_denormal_to_zero(source1);
    let source2 = flush_denormal_to_zero(source2);
    let format = source1.format;
    let s = format.num_sig_bits();
    let e = format.num_exp_bits();
    proof {
        lemma_format_bounds(format);
    }

    if source1.is_nan() || source2.is_nan() {
        return make_quiet_nan(format);
    }

    let product_sign = source1.sign ^ source2.sign;

    if source1.exp == 0 || source2.exp == 0 {
        return Value::from_comps(product_sign, 0, 0, format);
    }

    proof {
        lemma_pow2_u32(s);
        lemma_pow2_u32((s + 1) as u32);
        lemma_pow2_u32((s + 2) as u32);
        lemma_pow2_u32((e - 1) as u32);
        lemma_pow2_unfold((s + 1) as nat);
        lemma_pow2_unfold((s + 2) as nat);
        lemma_pow2_unfold(e as nat);
        lemma_or_is_add(source1.sig, 1, s);
        lemma_or_is_add(source2.sig, 1, s);
    }

    // Full significands, hidden bit included.
    let hidden_bit = 1u32 << s;
    let source1_sig = hidden_bit | source1.sig;
    let source2_sig = hidden_bit | source2.sig;
    assert(source1_sig == full_sig(source1) && source2_sig == full_sig(source2));

    // Re-centre the doubled bias; out-of-range exponents wrap.
    let exp_bias = (1u32 << (e - 1)) - 1;
    let mut product_exp = (source1.exp + source2.exp).wrapping_sub(exp_bias);

    // Widened product, realigned to the hidden-bit place.
    proof {
        lemma_product_bounds(source1_sig as nat, source2_sig as nat, s as nat);
    }
    let wide = (source1_sig as u64) * (source2_sig as u64);
    proof {
        lemma_u64_shr_is_div(wide, s as u64);
    }
    let mut product_sig = (wide >> (s as u64)) as u32;
    assert(product_sig == realigned_product(source1, source2));

    proof {
        lemma_leading_zeros(product_sig);
        lemma_bit_len_le(product_sig as nat, (s + 2) as nat);
        lemma_bit_len_bounds(product_sig as nat);
        lemma_carry_bit(product_sig, (s + 1) as u32);
        if product_sig >= pow2((s + 1) as nat) {
            lemma_bit_len_unique(product_sig as nat, (s + 2) as nat);
        } else {
            lemma_bit_len_unique(product_sig as nat, (s + 1) as nat);
        }
    }
    let product_sig_leading_zeros = product_sig.leading_zeros() - (32 - (s + 2));
    if product_sig_leading_zeros < 1 {
        let product_sig_shift_right = 1 - product_sig_leading_zeros;
        product_exp = product_exp.wrapping_add(product_sig_shift_right);
        product_sig = product_sig >> product_sig_shift_right;
    }

    // Remove the hidden bit.
    proof {
        lemma_strip_hidden_bit(product_sig, s);
    }
    Value::from_comps(product_sign, product_exp, product_sig & (hidden_bit - 1), format)
}

/// A NaN operand, on either side, gives the canonical quiet NaN.
pub proof fn lemma_multiplication_nan(a: Value, b: Value)
    requires
        a.format == b.format,
        a.spec_is_nan(),
    ensures
        mul_result(a, b) == quiet_nan(a.format),
        mul_result(b, a) == quiet_nan(a.format),
{
}

/// An operand with exponent 0 (a zero, or a denormal read as zero) times any
/// operand but NaN, on either side, is a zero whose sign is the exclusive or of
/// the two signs. Infinity is not excepted: zero times infinity is that zero.
pub proof fn lemma_multiplication_by_zero(z: Value, x: Value)
    requires
        z.format == x.format,
        z.format.valid(),
        z.exp == 0,
        !x.spec_is_nan(),
    ensures
        mul_result(z, x) == (Value { sign: z.sign != x.sign, exp: 0, sig: 0, format: z.format }),
        mul_result(x, z) == (Value { sign: z.sign != x.sign, exp: 0, sig: 0, format: z.format }),
{
    lemma_format_bounds(z.format);
}

/// Two full significands multiply below `2^60`, and the product over `2^s`
/// lies in `[2^s, 2^(s+2))`.
proof fn lemma_product_bounds(x: nat, y: nat, s: nat)
    requires
        s <= 29,
        pow2(s) <= x < pow2(s + 1),
        pow2(s) <= y < pow2(s + 1),
    ensures
        x * y < 0x1000_0000_0000_0000,
        pow2(s) <= (x * y) / pow2(s) < pow2(s + 2),
{
    lemma_pow2_unfold(s + 1);
    lemma_pow2_unfold(s + 2);
    lemma_pow2_pos(s);
    lemma_pow2_adds(s, s);
    lemma_pow2_adds(s, s + 2);
    vstd::arithmetic::power2::lemma2_to64();
    if s < 29 {
        vstd::arithmetic::power2::lemma_pow2_strictly_increases(s, 29);
    }
    assert(x * y < 0x1000_0000_0000_0000) by (nonlinear_arith)
        requires
            x < 2 * pow2(s),
            y < 2 * pow2(s),
            pow2(s) <= 0x2000_0000,
    ;
    assert(pow2(s) * pow2(s) <= x * y < pow2(s) * pow2(s + 2)) by (nonlinear_arith)
        requires
            pow2(s) <= x < 2 * pow2(s),
            pow2(s) <= y < 2 * pow2(s),
            pow2(s + 2) == 4 * pow2(s),
    ;
    vstd::arithmetic::div_mod::lemma_div_multiples_vanish(pow2(s) as int, pow2(s) as int);
    vstd::arithmetic::div_mod::lemma_div_is_ordered(
        (pow2(s) * pow2(s)) as int,
        (x * y) as int,
        pow2(s) as int,
    );
    vstd::arithmetic::div_mod::lemma_multiply_divide_lt(
        (x * y) as int,
        pow2(s) as int,
        pow2(s + 2) as int,
    );
}

} // verus!
