use crate::format::{lemma_pow2_u32, Format};
use vstd::arithmetic::div_mod::{lemma_fundamental_div_mod_converse, lemma_mod_bound};
use vstd::arithmetic::power2::{lemma2_to64, lemma_pow2_adds, lemma_pow2_pos, pow2};
use vstd::bits::{
    lemma_u32_low_bits_mask_is_mod, lemma_u32_shl_is_mul, lemma_u32_shr_is_div, low_bits_mask,
};
use vstd::prelude::*;

verus! {

/// A number decomposed into sign, biased exponent and stored significand (the
/// hidden leading bit excluded), read against `format`.
///
/// The fields are not checked against the format: a value is in range when
/// `exp <= exp_max` and `sig < 2^num_sig_bits` (see [`Value::in_range`]).
#[derive(Clone, Copy, Debug, PartialEq, Eq, Structural)]
pub struct Value {
    pub sign: bool,
    pub exp: u32,
    pub sig: u32,
    pub format: Format,
}

/// `2^n` as a natural number.
pub open spec fn two_to(n: nat) -> nat {
    pow2(n)
}

/// The word whose fields are `bits`' low `s` bits (significand), the next `e`
/// bits (exponent) and the bit above them (sign), for a word that fits in
/// `1 + e + s` bits.
pub open spec fn decode(bits: u32, format: Format) -> Option<Value> {
    let s = format.sig_bits();
    let e = format.exp_bits();
    if bits < two_to(format.spec_storage_bits()) {
        Some(
            Value {
                sign: (bits as nat / two_to(s)) / two_to(e) != 0,
                exp: ((bits as nat / two_to(s)) % two_to(e)) as u32,
                sig: (bits as nat % two_to(s)) as u32,
                format,
            },
        )
    } else {
        None
    }
}

impl Value {
    /// The exponent and significand fit the fields of the format.
    pub open spec fn in_range(self) -> bool {
        &&& self.exp <= self.format.spec_exp_max()
        &&& self.sig < two_to(self.format.sig_bits())
    }

    /// Exponent all ones with a nonzero significand.
    pub open spec fn spec_is_nan(self) -> bool {
        self.exp == self.format.spec_exp_max() && self.sig != 0
    }

    /// Exponent all ones with a zero significand.
    pub open spec fn spec_is_inf(self) -> bool {
        self.exp == self.format.spec_exp_max() && self.sig == 0
    }

    /// The packed word as a number: sign, then exponent, then significand,
    /// most significant first.
    pub open spec fn packed(self) -> nat {
        let s = self.format.sig_bits();
        let e = self.format.exp_bits();
        ((if self.sign { two_to(e + s) } else { 0 }) + self.exp * two_to(s) + self.sig) as nat
    }

    /// What `to_bits` computes for any fields: the three fields shifted into
    /// place in a 32-bit word and or-ed together.
    pub open spec fn spec_to_bits(self) -> u32 {
        let s = self.format.sig_bits() as u32;
        let e = self.format.exp_bits() as u32;
        (if self.sign { 1u32 << (e + s) as u32 } else { 0u32 }) | ((self.exp << s) | self.sig)
    }

    /// Builds a value from its fields, unchecked against the format; `from_bits`
    /// is the checked way in.
    pub fn from_comps(sign: bool, exp: u32, sig: u32, format: Format) -> (r: Value)
        ensures
            r == (Value { sign, exp, sig, format }),
    {
        Value { sign, exp, sig, format }
    }

    /// Packs the value as `[sign:1][exponent:e][significand:s]`, most
    /// significant bit first.
    pub fn to_bits(&self) -> (r: u32)
        ensures
            r == self.spec_to_bits(),
            self.in_range() ==> r == self.packed(),
    {
        let e = self.format.num_exp_bits();
        let s = self.format.num_sig_bits();
        let sign_field: u32 = if self.sign { 1u32 << (e + s) } else { 0 };
        let low = (self.exp << s) | self.sig;
        proof {
            if self.in_range() {
                lemma_pack_in_range(*self);
            }
        }
        sign_field | low
    }

    /// Whether the value is a NaN.
    pub fn is_nan(&self) -> (r: bool)
        ensures
            r == self.spec_is_nan(),
    {
        self.exp == self.format.exp_max() && self.sig != 0
    }

    /// Whether the value is an infinity of either sign.
    pub fn is_inf(&self) -> (r: bool)
        ensures
            r == self.spec_is_inf(),
    {
        self.exp == self.format.exp_max() && self.sig == 0
    }

    /// Unpacks a word laid out as by `to_bits`; `None` when a bit above the
    /// format's storage width is set.
    pub fn from_bits(bits: u32, format: Format) -> (r: Option<Value>)
        ensures
            r == decode(bits, format),
            r is Some <==> bits < two_to(format.spec_storage_bits()),
    {
        let e = format.num_exp_bits();
        let s = format.num_sig_bits();
        let storage = format.num_storage_bits();
        proof {
            lemma2_to64();
            lemma_pow2_u32(s);
            lemma_pow2_u32(e);
            lemma_u32_shr_is_div(bits, s);
            assert(low_bits_mask(s as nat) == pow2(s as nat) - 1);
            assert(low_bits_mask(e as nat) == pow2(e as nat) - 1);
            lemma_u32_low_bits_mask_is_mod(bits, s as nat);
            lemma_u32_low_bits_mask_is_mod(bits >> s, e as nat);
            lemma_u32_shr_is_div(bits >> s, e);
        }
        if storage < 32 {
            proof {
                lemma_u32_shr_is_div(bits, storage);
                lemma_pow2_pos(storage as nat);
            }
            if (bits >> storage) != 0 {
                proof {
                    if bits < pow2(storage as nat) {
                        vstd::arithmetic::div_mod::lemma_basic_div(
                            bits as int,
                            pow2(storage as nat) as int,
                        );
                    }
                }
                return None;
            }
            proof {
                vstd::arithmetic::div_mod::lemma_fundamental_div_mod(
                    bits as int,
                    pow2(storage as nat) as int,
                );
                lemma_mod_bound(bits as int, pow2(storage as nat) as int);
            }
        }
        let sig = bits & ((1u32 << s) - 1);
        let exp = (bits >> s) & ((1u32 << e) - 1);
        let sign = ((bits >> s) >> e) != 0;
        Some(Value { sign, exp, sig, format })
    }
}

/// In a word, `lo | (hi << k)` adds the two when `lo` lies below bit `k`.
proof fn lemma_or_is_add(lo: u32, hi: u32, k: u32)
    by (bit_vector)
    requires
        k < 32,
        lo < (1u32 << k),
        hi <= (0xffff_ffffu32 >> k),
    ensures
        (hi << k) | lo == (hi << k) + lo,
        lo | (hi << k) == lo + (hi << k),
{
}

/// For a value in range, the shifted-and-or-ed word is the packed number.
proof fn lemma_pack_in_range(v: Value)
    requires
        v.in_range(),
        v.format.valid(),
    ensures
        v.spec_to_bits() == v.packed(),
{
    let s = v.format.sig_bits();
    let e = v.format.exp_bits();
    let su = s as u32;
    let eu = e as u32;
    lemma_pow2_adds(e, s);
    lemma_pow2_u32(su);
    lemma_pow2_u32(eu);
    lemma_pow2_u32((eu + su) as u32);
    // exp * 2^s + sig < 2^(e+s)
    assert(v.exp * pow2(s) + v.sig < pow2(e) * pow2(s)) by (nonlinear_arith)
        requires
            v.exp + 1 <= pow2(e),
            v.sig < pow2(s),
    ;
    lemma_u32_shr_is_div(0xffff_ffffu32, su);
    assert(v.exp <= 0xffff_ffffu32 as nat / pow2(s)) by {
        vstd::arithmetic::div_mod::lemma_div_is_ordered(
            (v.exp * pow2(s)) as int,
            0xffff_ffff,
            pow2(s) as int,
        );
        vstd::arithmetic::div_mod::lemma_div_multiples_vanish(v.exp as int, pow2(s) as int);
    }
    lemma_u32_shl_is_mul(v.exp, su);
    lemma_or_is_add(v.sig, v.exp, su);
    let low = (v.exp << su) | v.sig;
    if v.sign {
        assert(1u32 <= (0xffff_ffffu32 >> ((eu + su) as u32))) by (bit_vector)
            requires
                eu + su < 32,
        ;
        lemma_u32_shl_is_mul(1, (eu + su) as u32);
        lemma_or_is_add(low, 1, (eu + su) as u32);
    } else {
        assert(0u32 | low == low) by (bit_vector);
    }
}

/// Unpacking the packed word of a value in range gives the value back.
pub proof fn lemma_from_bits_of_to_bits(v: Value)
    requires
        v.in_range(),
        v.format.valid(),
    ensures
        decode(v.spec_to_bits(), v.format) == Some(v),
{
    lemma_pack_in_range(v);
    let s = v.format.sig_bits();
    let e = v.format.exp_bits();
    let sg: nat = if v.sign { 1 } else { 0 };
    lemma_pow2_adds(e, s);
    lemma_pow2_adds(1, e + s);
    lemma_pow2_pos(s);
    lemma_pow2_pos(e);
    lemma2_to64();
    let n = v.packed();
    assert(n == (sg * pow2(e) + v.exp) * pow2(s) + v.sig) by (nonlinear_arith)
        requires
            n == (if v.sign { pow2(e) * pow2(s) } else { 0 }) + v.exp * pow2(s) + v.sig,
            sg == (if v.sign { 1nat } else { 0nat }),
    ;
    lemma_fundamental_div_mod_converse(n as int, pow2(s) as int, (sg * pow2(e) + v.exp) as int, v.sig as int);
    lemma_fundamental_div_mod_converse((sg * pow2(e) + v.exp) as int, pow2(e) as int, sg as int, v.exp as int);
    assert(n < pow2(e + s + 1)) by (nonlinear_arith)
        requires
            n == (sg * pow2(e) + v.exp) * pow2(s) + v.sig,
            sg <= 1,
            v.exp + 1 <= pow2(e),
            v.sig < pow2(s),
            pow2(e + s + 1) == 2 * (pow2(e) * pow2(s)),
    ;
    assert(pow2(1 + (e + s)) == pow2(e + s + 1));
}

/// Packing what `from_bits` unpacked gives the word back; the unpacked value
/// is in range.
pub proof fn lemma_to_bits_of_from_bits(bits: u32, format: Format)
    requires
        format.valid(),
        decode(bits, format) is Some,
    ensures
        decode(bits, format).unwrap().in_range(),
        decode(bits, format).unwrap().spec_to_bits() == bits,
{
    let v = decode(bits, format).unwrap();
    let s = format.sig_bits();
    let e = format.exp_bits();
    lemma_pow2_adds(e, s);
    lemma_pow2_adds(1, e + s);
    lemma_pow2_pos(s);
    lemma_pow2_pos(e);
    lemma2_to64();
    let q = bits as nat / pow2(s);
    lemma_mod_bound(bits as int, pow2(s) as int);
    lemma_mod_bound(q as int, pow2(e) as int);
    vstd::arithmetic::div_mod::lemma_div_denominator(bits as int, pow2(s) as int, pow2(e) as int);
    assert(pow2(1 + (e + s)) == 2 * (pow2(e) * pow2(s)));
    assert(q / pow2(e) < 2) by {
        vstd::arithmetic::div_mod::lemma_multiply_divide_lt(bits as int, (pow2(e) * pow2(s)) as int, 2);
    }
    vstd::arithmetic::div_mod::lemma_fundamental_div_mod(bits as int, pow2(s) as int);
    vstd::arithmetic::div_mod::lemma_fundamental_div_mod(q as int, pow2(e) as int);
    let sg: nat = if v.sign { 1 } else { 0 };
    assert(sg == q / pow2(e));
    assert(v.packed() == bits) by (nonlinear_arith)
        requires
            v.packed() == (if v.sign { pow2(e) * pow2(s) } else { 0 }) + v.exp * pow2(s) + v.sig,
            sg == (if v.sign { 1nat } else { 0nat }),
            bits == pow2(s) * q + v.sig,
            q == pow2(e) * sg + v.exp,
    ;
    lemma_pack_in_range(v);
}

} // verus!
