use vstd::arithmetic::power2::pow2;
use vstd::bits::{lemma_u32_pow2_no_overflow, lemma_u32_shl_is_mul};
use vstd::prelude::*;

verus! {

/// The widest storage word a format may occupy.
pub const MAX_STORAGE_BITS: u32 = 32;

/// The fewest exponent bits a format may have.
pub const MIN_EXP_BITS: u32 = 2;

/// Why a requested format was rejected.
#[derive(Clone, Copy, Debug, PartialEq, Eq, Structural)]
pub enum FormatError {
    /// Fewer than two exponent bits were requested.
    TooFewExponentBits,
    /// Sign, exponent and significand together need `required` bits, more than 32.
    StorageWidthExceeded { required: u64 },
}

/// Bit layout of a number format: one sign bit, `num_exp_bits` biased exponent
/// bits and `num_sig_bits` stored significand bits, at most 32 bits in all.
#[derive(Clone, Copy, Debug, PartialEq, Eq, Structural)]
pub struct Format {
    num_exp_bits: u32,
    num_sig_bits: u32,
}

/// Whether `(e, s)` describes a format that can be built.
pub open spec fn valid_widths(e: int, s: int) -> bool {
    MIN_EXP_BITS <= e && 0 <= s && 1 + e + s <= MAX_STORAGE_BITS
}

impl Format {
    /// Number of exponent bits.
    pub closed spec fn exp_bits(self) -> nat {
        self.num_exp_bits as nat
    }

    /// Number of stored significand bits (the hidden bit excluded).
    pub closed spec fn sig_bits(self) -> nat {
        self.num_sig_bits as nat
    }

    /// Every format built by this library satisfies this.
    pub open spec fn valid(self) -> bool {
        valid_widths(self.exp_bits() as int, self.sig_bits() as int)
    }

    #[verifier::type_invariant]
    pub(crate) open spec fn inv(self) -> bool {
        self.valid()
    }

    /// Width of the packed word.
    pub open spec fn spec_storage_bits(self) -> nat {
        1 + self.exp_bits() + self.sig_bits()
    }

    /// The reserved all-ones exponent that marks infinity and NaN.
    pub open spec fn spec_exp_max(self) -> nat {
        (pow2(self.exp_bits()) - 1) as nat
    }

    /// The exponent bias, `2^(e-1) - 1`.
    pub open spec fn spec_bias(self) -> nat {
        (pow2((self.exp_bits() - 1) as nat) - 1) as nat
    }

    /// Builds a format, rejecting fewer than two exponent bits or more than
    /// 32 storage bits.
    pub fn new(num_exp_bits: u32, num_sig_bits: u32) -> (r: Result<Format, FormatError>)
        ensures
            num_exp_bits < MIN_EXP_BITS <==> r == Err::<Format, FormatError>(
                FormatError::TooFewExponentBits,
            ),
            (MIN_EXP_BITS <= num_exp_bits && 1 + num_exp_bits + num_sig_bits > MAX_STORAGE_BITS)
                <==> r == Err::<Format, FormatError>(
                FormatError::StorageWidthExceeded {
                    required: (1 + num_exp_bits + num_sig_bits) as u64,
                },
            ),
            valid_widths(num_exp_bits as int, num_sig_bits as int) <==> r is Ok,
            r matches Ok(f) ==> f.exp_bits() == num_exp_bits && f.sig_bits() == num_sig_bits,
    {
        if num_exp_bits < MIN_EXP_BITS {
            return Err(FormatError::TooFewExponentBits);
        }
        let required: u64 = 1 + num_exp_bits as u64 + num_sig_bits as u64;
        if required > MAX_STORAGE_BITS as u64 {
            return Err(FormatError::StorageWidthExceeded { required });
        }
        Ok(Format { num_exp_bits, num_sig_bits })
    }
    /// The IEEE-754 single-precision layout: 8 exponent bits, 23 significand bits.
    pub fn ieee754_single() -> (r: Format)
        ensures
            r.exp_bits() == 8 && r.sig_bits() == 23,
    {
        Format { num_exp_bits: 8, num_sig_bits: 23 }
    }

    /// Number of exponent bits.
    pub fn num_exp_bits(&self) -> (r: u32)
        ensures
            r == self.exp_bits(),
            self.valid(),
    {
        proof {
            use_type_invariant(self);
        }
        self.num_exp_bits
    }

    /// Number of stored significand bits.
    pub fn num_sig_bits(&self) -> (r: u32)
        ensures
            r == self.sig_bits(),
            self.valid(),
    {
        proof {
            use_type_invariant(self);
        }
        self.num_sig_bits
    }

    /// Width of the packed word: `1 + num_exp_bits + num_sig_bits`.
    pub fn num_storage_bits(&self) -> (r: u32)
        ensures
            r == self.spec_storage_bits(),
            r <= MAX_STORAGE_BITS,
    {
        proof {
            use_type_invariant(self);
        }
        1 + self.num_exp_bits + self.num_sig_bits
    }

    /// The reserved exponent value `2^num_exp_bits - 1`.
    pub fn exp_max(&self) -> (r: u32)
        ensures
            r == self.spec_exp_max(),
    {
        proof {
            use_type_invariant(self);
            lemma_pow2_u32(self.num_exp_bits);
        }
        (1u32 << self.num_exp_bits) - 1
    }
}

/// Every width pair with at least two exponent bits and at most 32 storage
/// bits makes a format (see `Format::new`), whose storage width is `1 + e + s`
/// and whose reserved exponent is `2^e - 1`, a value that fits in 32 bits.
pub proof fn lemma_format_queries(e: u32, s: u32, f: Format)
    requires
        valid_widths(e as int, s as int),
        f.exp_bits() == e,
        f.sig_bits() == s,
    ensures
        f.valid(),
        f.spec_storage_bits() == 1 + e + s,
        f.spec_exp_max() == pow2(e as nat) - 1,
        f.spec_exp_max() <= 0x7fff_ffff,
{
    lemma_format_bounds(f);
}

/// Bounds that hold of every valid format.
pub proof fn lemma_format_bounds(f: Format)
    requires
        f.valid(),
    ensures
        f.sig_bits() <= 29,
        2 <= f.exp_bits() <= 31,
        3 <= f.spec_exp_max() < 0x8000_0000,
        f.spec_exp_max() + 1 == pow2(f.exp_bits()),
        1 <= f.spec_bias() < f.spec_exp_max(),
        f.spec_exp_max() == 2 * f.spec_bias() + 1,
        pow2(0) == 1,
        0 < pow2(f.sig_bits()) <= 0x2000_0000,
{
    let e = f.exp_bits();
    let s = f.sig_bits();
    vstd::arithmetic::power2::lemma2_to64();
    vstd::arithmetic::power2::lemma_pow2_unfold(e);
    if e > 2 {
        vstd::arithmetic::power2::lemma_pow2_strictly_increases(1, (e - 1) as nat);
    }
    if e < 31 {
        vstd::arithmetic::power2::lemma_pow2_strictly_increases(e, 31);
    }
    vstd::arithmetic::power2::lemma_pow2_pos(s);
    if s < 29 {
        vstd::arithmetic::power2::lemma_pow2_strictly_increases(s, 29);
    }
}

/// For `n < 32`, `1 << n` is `2^n` and does not overflow.
pub proof fn lemma_pow2_u32(n: u32)
    requires
        n < 32,
    ensures
        1u32 << n == pow2(n as nat),
        0 < pow2(n as nat) <= 0x8000_0000,
{
    lemma_u32_pow2_no_overflow(n as nat);
    lemma_u32_shl_is_mul(1, n);
    assert(1u32 << n <= 0x8000_0000u32) by (bit_vector)
        requires
            n < 32,
    ;
}

} // verus!
