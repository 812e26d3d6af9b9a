//! Error types for time parsing and correlation.

use vstd::prelude::*;
use crate::text::{fmt_dec, fmt_hex, push_dec, push_hex, push_str};

verus! {

/// Crate-wide result alias.
pub type Result<T> = core::result::Result<T, TimeError>;

/// Errors produced by time parsing and correlation operations.
#[derive(Debug, Clone, PartialEq, Eq)]
#[non_exhaustive]
pub enum TimeError {
    /// A BCD nibble contained a value greater than 9.
    InvalidBcdDigit {
        /// The invalid nibble value.
        nibble: u8,
        /// Human-readable description of where the nibble was found.
        position: &'static str,
    },
    /// A reserved bit field was non-zero.
    ReservedBitSet {
        /// Human-readable description of the reserved field.
        position: &'static str,
    },
    /// A decoded field value exceeded its valid range.
    OutOfRange {
        /// Name of the field (e.g., "hours", "minutes").
        field: &'static str,
        /// The actual decoded value.
        value: u32,
        /// The maximum allowed value (inclusive).
        max: u32,
    },
    /// A secondary header checksum did not match.
    ChecksumMismatch {
        /// Checksum stored in the header.
        stored: u16,
        /// Checksum computed from the header bytes.
        computed: u16,
    },
    /// No reference point available for RTC-to-absolute-time correlation.
    NoReferencePoint,
    /// Input buffer was shorter than required.
    BufferTooShort {
        /// Number of bytes required.
        expected: usize,
        /// Number of bytes actually available.
        actual: usize,
    },
}

impl TimeError {
    /// The human-readable description of the error.
    pub open spec fn message(self) -> Seq<char> {
        match self {
            TimeError::InvalidBcdDigit { nibble, position } => "invalid BCD digit "@ + fmt_dec(
                nibble as nat,
                0,
            ) + " at "@ + position@,
            TimeError::ReservedBitSet { position } => "reserved bit set at "@ + position@,
            TimeError::OutOfRange { field, value, max } => field@ + " value "@ + fmt_dec(
                value as nat,
                0,
            ) + " exceeds maximum "@ + fmt_dec(max as nat, 0),
            TimeError::ChecksumMismatch { stored, computed } =>
                "secondary header checksum mismatch: stored=0x"@ + fmt_hex(stored as nat, 4)
                    + ", computed=0x"@ + fmt_hex(computed as nat, 4),
            TimeError::NoReferencePoint => "no time reference point available for correlation"@,
            TimeError::BufferTooShort { expected, actual } => "buffer too short: need "@ + fmt_dec(
                expected as nat,
                0,
            ) + " bytes, got "@ + fmt_dec(actual as nat, 0),
        }
    }

    /// Render the error as text.
    pub fn to_string(&self) -> (s: String)
        ensures
            s@ == self.message(),
    {
        let mut s = String::new();
        match self {
            TimeError::InvalidBcdDigit { nibble, position } => {
                push_str(&mut s, "invalid BCD digit ");
                push_dec(&mut s, *nibble as u64, 0);
                push_str(&mut s, " at ");
                push_str(&mut s, position);
            },
            TimeError::ReservedBitSet { position } => {
                push_str(&mut s, "reserved bit set at ");
                push_str(&mut s, position);
            },
            TimeError::OutOfRange { field, value, max } => {
                push_str(&mut s, field);
                push_str(&mut s, " value ");
                push_dec(&mut s, *value as u64, 0);
                push_str(&mut s, " exceeds maximum ");
                push_dec(&mut s, *max as u64, 0);
            },
            TimeError::ChecksumMismatch { stored, computed } => {
                push_str(&mut s, "secondary header checksum mismatch: stored=0x");
                push_hex(&mut s, *stored as u64, 4);
                push_str(&mut s, ", computed=0x");
                push_hex(&mut s, *computed as u64, 4);
            },
            TimeError::NoReferencePoint => {
                push_str(&mut s, "no time reference point available for correlation");
            },
            TimeError::BufferTooShort { expected, actual } => {
                push_str(&mut s, "buffer too short: need ");
                push_dec(&mut s, *expected as u64, 0);
                push_str(&mut s, " bytes, got ");
                push_dec(&mut s, *actual as u64, 0);
            },
        }
        proof {
            assert(s@ =~= self.message());
        }
        s
    }
}

} // verus!
