//! 48-bit Relative Time Counter (RTC) for IRIG 106 Chapter 10.
//!
//! The RTC is a free-running 10 MHz counter providing 100 ns resolution.
//! It occupies 6 bytes (48 bits) in the primary packet header.

use vstd::prelude::*;

verus! {

/// Bitmask for the lower 48 bits.
pub const MASK_48: u64 = 0x0000_FFFF_FFFF_FFFF;

/// Nanoseconds per RTC tick (10 MHz clock, 100 ns per tick).
pub const NANOS_PER_TICK: u64 = 100;

/// Number of distinct 48-bit counter values (2^48).
pub open spec fn rtc_modulus() -> int {
    0x1_0000_0000_0000
}

/// The value of six little-endian bytes as an unsigned integer.
pub open spec fn le48(b: [u8; 6]) -> int {
    b[0] + 0x100 * b[1] + 0x1_0000 * b[2] + 0x100_0000 * b[3] + 0x1_0000_0000 * b[4]
        + 0x100_0000_0000 * b[5]
}

/// Elapsed ticks from `from` to `to` on a counter that wraps at 2^48.
pub open spec fn spec_elapsed_ticks(from: u64, to: u64) -> int {
    (to - from) % rtc_modulus()
}

/// A 48-bit Relative Time Counter value.
///
/// The inner value always fits within 48 bits.
#[derive(Debug, Clone, Copy, PartialEq, Eq, PartialOrd, Ord, Hash, Structural)]
pub struct Rtc(u64);

impl Rtc {
    #[verifier::type_invariant]
    spec fn fits_48_bits(self) -> bool {
        self.0 <= MASK_48
    }

    /// The raw tick count.
    pub closed spec fn raw(self) -> u64 {
        self.0
    }

    /// RTC value of zero.
    pub fn zero() -> (r: Rtc)
        ensures
            r.raw() == 0,
    {
        Rtc(0)
    }

    /// Maximum 48-bit RTC value (2^48 - 1), about 325.4 days at 100 ns per tick.
    pub fn max_value() -> (r: Rtc)
        ensures
            r.raw() == MASK_48,
    {
        Rtc(MASK_48)
    }

    /// Construct an RTC from 6 little-endian bytes.
    pub fn from_le_bytes(bytes: [u8; 6]) -> (r: Rtc)
        ensures
            r.raw() == le48(bytes),
    {
        let raw: u64 = bytes[0] as u64 + 0x100 * (bytes[1] as u64) + 0x1_0000 * (bytes[2] as u64)
            + 0x100_0000 * (bytes[3] as u64) + 0x1_0000_0000 * (bytes[4] as u64)
            + 0x100_0000_0000 * (bytes[5] as u64);
        Rtc(raw)
    }

    /// Construct an RTC from a raw `u64`, masking to 48 bits.
    pub fn from_raw(value: u64) -> (r: Rtc)
        ensures
            r.raw() == value % 0x1_0000_0000_0000,
    {
        assert(value & 0x0000_FFFF_FFFF_FFFF == value % 0x1_0000_0000_0000) by (bit_vector);
        Rtc(value & MASK_48)
    }

    /// Return the raw 48-bit tick count.
    pub fn as_raw(self) -> (r: u64)
        ensures
            r == self.raw(),
            r <= MASK_48,
    {
        proof {
            use_type_invariant(&self);
        }
        self.0
    }

    /// Compute elapsed ticks from `self` to `later`, handling 48-bit wrap-around.
    pub fn elapsed_ticks(self, later: Rtc) -> (r: u64)
        ensures
            r == spec_elapsed_ticks(self.raw(), later.raw()),
            r <= MASK_48,
    {
        proof {
            use_type_invariant(&self);
            use_type_invariant(&later);
        }
        let a = self.0;
        let b = later.0;
        let r = b.wrapping_sub(a) & MASK_48;
        assert(a <= 0xFFFF_FFFF_FFFF && b <= 0xFFFF_FFFF_FFFF ==> (b.wrapping_sub(a)
            & 0xFFFF_FFFF_FFFF) as int == (b - a) % 0x1_0000_0000_0000) by (bit_vector);
        r
    }

    /// Compute elapsed nanoseconds from `self` to `later`.
    pub fn elapsed_nanos(self, later: Rtc) -> (r: u64)
        ensures
            r == 100 * spec_elapsed_ticks(self.raw(), later.raw()),
    {
        let t = self.elapsed_ticks(later);
        t * NANOS_PER_TICK
    }

    /// Convert the raw tick count to nanoseconds since the counter epoch.
    pub fn to_nanos(self) -> (r: u64)
        ensures
            r == 100 * self.raw(),
    {
        let t = self.as_raw();
        t * NANOS_PER_TICK
    }

    /// Encode the 48-bit RTC value as 6 little-endian bytes.
    pub fn to_le_bytes(self) -> (b: [u8; 6])
        ensures
            le48(b) == self.raw(),
    {
        let v0 = self.as_raw();
        let v1 = v0 / 0x100;
        let v2 = v1 / 0x100;
        let v3 = v2 / 0x100;
        let v4 = v3 / 0x100;
        let v5 = v4 / 0x100;
        assert(v5 < 0x100);
        let b = [
            (v0 % 0x100) as u8,
            (v1 % 0x100) as u8,
            (v2 % 0x100) as u8,
            (v3 % 0x100) as u8,
            (v4 % 0x100) as u8,
            v5 as u8,
        ];
        assert(le48(b) == v0);
        b
    }
}

/// Two counter values with the same tick count are the same value.
pub proof fn lemma_raw_injective(a: Rtc, b: Rtc)
    requires
        a.raw() == b.raw(),
    ensures
        a == b,
{
}

/// A counter value reached from itself takes no ticks.
pub proof fn lemma_elapsed_self(a: u64)
    ensures
        spec_elapsed_ticks(a, a) == 0,
{
}

/// Counting the elapsed ticks forward from `from` reaches `to` on the 48-bit circle, across a
/// wrap too.
pub proof fn lemma_elapsed_reaches(from: u64, to: u64)
    requires
        from < rtc_modulus(),
        to < rtc_modulus(),
    ensures
        (from + spec_elapsed_ticks(from, to)) % rtc_modulus() == to,
{
    let m = rtc_modulus();
    if to >= from {
        vstd::arithmetic::div_mod::lemma_small_mod((to - from) as nat, m as nat);
        vstd::arithmetic::div_mod::lemma_small_mod(to as nat, m as nat);
    } else {
        vstd::arithmetic::div_mod::lemma_fundamental_div_mod_converse(to - from, m, -1, m + to - from);
        vstd::arithmetic::div_mod::lemma_fundamental_div_mod_converse(from + (m + to - from), m, 1, to as int);
    }
}

/// The bytes of a six-byte little-endian number are its base-256 digits.
proof fn lemma_le48_digits(b0: u8, b1: u8, b2: u8, b3: u8, b4: u8, b5: u8)
    by (bit_vector)
    ensures
        ({
            let w = (b0 as u64) + 0x100 * (b1 as u64) + 0x1_0000 * (b2 as u64) + 0x100_0000 * (
            b3 as u64) + 0x1_0000_0000 * (b4 as u64) + 0x100_0000_0000 * (b5 as u64);
            &&& w % 0x100 == b0
            &&& (w / 0x100) % 0x100 == b1
            &&& (w / 0x1_0000) % 0x100 == b2
            &&& (w / 0x100_0000) % 0x100 == b3
            &&& (w / 0x1_0000_0000) % 0x100 == b4
            &&& (w / 0x100_0000_0000) % 0x100 == b5
        }),
{
}

/// Six bytes are determined by their little-endian value, so encoding a counter decoded
/// from six bytes gives those bytes back.
pub proof fn lemma_le48_injective(a: [u8; 6], b: [u8; 6])
    requires
        le48(a) == le48(b),
    ensures
        a == b,
{
    lemma_le48_digits(a[0], a[1], a[2], a[3], a[4], a[5]);
    lemma_le48_digits(b[0], b[1], b[2], b[3], b[4], b[5]);
    assert(a@ =~= b@);
}

} // verus!
