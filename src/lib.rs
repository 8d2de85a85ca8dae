//! Software floating-point arithmetic on custom formats packed into at most
//! 32 bits: a format descriptor, decomposed values, and bit-exact addition and
//! multiplication with IEEE-754-style special values.
use vstd::prelude::*;

pub mod format;
pub mod ops;
pub mod value;

pub use format::{Format, FormatError};
pub use ops::{addition, multiplication};
pub use value::Value;

verus! {

/// A format descriptor that checks only the 32-bit storage ceiling; see
/// [`format::Format`] for the full set of checks and derived queries.
#[derive(Clone, Copy, Debug, PartialEq, Eq, Structural)]
pub struct FloatingPointFormat {
    num_exp_bits: u32,
    num_sig_bits: u32,
}

impl FloatingPointFormat {
    /// Number of exponent bits.
    pub closed spec fn exp_bits(self) -> nat {
        self.num_exp_bits as nat
    }

    /// Number of stored significand bits.
    pub closed spec fn sig_bits(self) -> nat {
        self.num_sig_bits as nat
    }

    #[verifier::type_invariant]
    spec fn inv(self) -> bool {
        1 + self.exp_bits() + self.sig_bits() <= format::MAX_STORAGE_BITS
    }

    /// Builds the descriptor, rejecting one that needs more than 32 storage
    /// bits.
    pub fn new(num_exp_bits: u32, num_sig_bits: u32) -> (r: Result<
        FloatingPointFormat,
        format::FormatError,
    >)
        ensures
            1 + num_exp_bits + num_sig_bits <= format::MAX_STORAGE_BITS <==> r is Ok,
            r matches Ok(f) ==> f.exp_bits() == num_exp_bits && f.sig_bits() == num_sig_bits,
            1 + num_exp_bits + num_sig_bits > format::MAX_STORAGE_BITS ==> r == Err::<
                FloatingPointFormat,
                format::FormatError,
            >(
                format::FormatError::StorageWidthExceeded {
                    required: (1 + num_exp_bits + num_sig_bits) as u64,
                },
            ),
    {
        let required: u64 = 1 + num_exp_bits as u64 + num_sig_bits as u64;
        if required > format::MAX_STORAGE_BITS as u64 {
            return Err(format::FormatError::StorageWidthExceeded { required });
        }
        Ok(FloatingPointFormat { num_exp_bits, num_sig_bits })
    }

    /// Number of exponent bits.
    pub fn num_exp_bits(&self) -> (r: u32)
        ensures
            r == self.exp_bits(),
    {
        self.num_exp_bits
    }

    /// Number of stored significand bits.
    pub fn num_sig_bits(&self) -> (r: u32)
        ensures
            r == self.sig_bits(),
    {
        self.num_sig_bits
    }

    /// Width of the packed word: `1 + num_exp_bits + num_sig_bits`.
    pub fn num_storage_bits(&self) -> (r: u32)
        ensures
            r == 1 + self.exp_bits() + self.sig_bits(),
            r <= format::MAX_STORAGE_BITS,
    {
        proof {
            use_type_invariant(self);
        }
        1 + self.num_exp_bits + self.num_sig_bits
    }
}

} // verus!
