//! Time Data Format 2 (0x12): network time from NTP (RFC 5905) or PTP (IEEE 1588) sources.
//!
//! - [`TimeF2Csdw`]: the channel-specific data word, naming the protocol.
//! - [`NtpTime`], [`PtpTime`]: the two wire formats of the time data.
//! - [`LeapSecondTable`]: historical TAI-UTC offsets.

use vstd::prelude::*;
use crate::absolute::{le16, le32, spec_absolute_new, u16_from_le, u32_from_le, AbsoluteTime};
use crate::csdw::{lemma_u32_le_round_trip, u32_le_bytes, u32_to_le};
use crate::error::{Result, TimeError};
use crate::search::{
    count_below, insert_sorted, keys_sorted, lemma_count_below_prefix, lemma_count_below_split,
    lemma_insert_sorted, lower_bound, SortKey,
};
use crate::util::{abs_diff_u64, is_leap_year, spec_days_in_year};

verus! {

/// Seconds between the NTP epoch (1900-01-01) and the Unix epoch (1970-01-01).
pub const NTP_UNIX_EPOCH_OFFSET: u64 = 2_208_988_800;

/// Default TAI-UTC offset in seconds (in force since 2017-01-01).
pub const DEFAULT_TAI_UTC_OFFSET: i32 = 37;

/// Seconds per day.
const SECS_PER_DAY: u64 = 86_400;

// ── Format 2 CSDW ────────────────────────────────────────────────────

/// Network time protocol named by the Format 2 CSDW.
#[derive(Debug, Clone, Copy, PartialEq, Eq, Structural)]
pub enum NetworkTimeProtocol {
    /// Network Time Protocol (RFC 5905). Epoch: 1900-01-01 UTC.
    Ntp,
    /// Precision Time Protocol (IEEE 1588). Epoch: 1970-01-01 TAI.
    Ptp,
    /// Reserved or unrecognized value.
    Reserved(u8),
}

/// The protocol named by the low four bits of a Format 2 CSDW.
pub open spec fn spec_time_protocol(raw: u32) -> NetworkTimeProtocol {
    let v = raw % 16;
    if v == 0 {
        NetworkTimeProtocol::Ntp
    } else if v == 1 {
        NetworkTimeProtocol::Ptp
    } else {
        NetworkTimeProtocol::Reserved(v as u8)
    }
}

/// The values of the Format 2 protocol field (bits 3:0): 0 NTP, 1 PTP, any other reserved.
pub proof fn lemma_time_protocol_table(raw: u32)
    ensures
        raw % 16 == 0 ==> spec_time_protocol(raw) == NetworkTimeProtocol::Ntp,
        raw % 16 == 1 ==> spec_time_protocol(raw) == NetworkTimeProtocol::Ptp,
        raw % 16 >= 2 ==> spec_time_protocol(raw) == NetworkTimeProtocol::Reserved((raw % 16) as u8),
{
}

/// Parsed Time Data Format 2 (0x12) Channel-Specific Data Word.
#[derive(Debug, Clone, Copy, PartialEq, Eq, Structural)]
pub struct TimeF2Csdw(u32);

impl TimeF2Csdw {
    /// The raw 32-bit value.
    pub closed spec fn raw(self) -> u32 {
        self.0
    }

    /// Construct from a raw 32-bit value.
    pub fn from_raw(raw: u32) -> (r: Self)
        ensures
            r.raw() == raw,
    {
        TimeF2Csdw(raw)
    }

    /// Construct from 4 little-endian bytes.
    pub fn from_le_bytes(buf: [u8; 4]) -> (r: Self)
        ensures
            r.raw() == le32(buf[0], buf[1], buf[2], buf[3]),
    {
        TimeF2Csdw(u32_from_le(buf[0], buf[1], buf[2], buf[3]))
    }

    /// Raw 32-bit value.
    pub fn as_raw(self) -> (r: u32)
        ensures
            r == self.raw(),
    {
        self.0
    }

    /// Encode as 4 little-endian bytes.
    pub fn to_le_bytes(self) -> (b: [u8; 4])
        ensures
            b == u32_le_bytes(self.raw()),
            le32(b[0], b[1], b[2], b[3]) == self.raw(),
    {
        u32_to_le(self.0)
    }

    /// Time protocol (bits 3:0).
    pub fn time_protocol(self) -> (r: NetworkTimeProtocol)
        ensures
            r == spec_time_protocol(self.raw()),
    {
        let v = self.0 % 16;
        if v == 0 {
            NetworkTimeProtocol::Ntp
        } else if v == 1 {
            NetworkTimeProtocol::Ptp
        } else {
            NetworkTimeProtocol::Reserved(v as u8)
        }
    }

    /// Check that the reserved bits 31:4 are zero.
    pub fn validate_reserved(&self) -> (r: Result<()>)
        ensures
            r == if self.raw() >= 16 {
                Err(TimeError::ReservedBitSet { position: "f2_csdw bits[31:4]" })
            } else {
                Ok::<(), TimeError>(())
            },
    {
        let v = self.0;
        assert(v & 0xFFFF_FFF0 != 0 <==> v >= 16) by (bit_vector);
        if v & 0xFFFF_FFF0 != 0 {
            Err(TimeError::ReservedBitSet { position: "f2_csdw bits[31:4]" })
        } else {
            Ok(())
        }
    }
}

// ── Civil time from Unix seconds ─────────────────────────────────────

/// Walking whole years forward from `year` while `days` covers them: the year reached and
/// the days left over. The walk stops at year 65535.
pub open spec fn spec_year_walk(days: int, year: u16) -> (u16, int)
    decreases 65535 - year,
{
    if year >= 65535 || days < spec_days_in_year(year as int) {
        (year, days)
    } else {
        spec_year_walk(days - spec_days_in_year(year as int), (year + 1) as u16)
    }
}

/// Year, day of year, hour, minute and second of a Unix time (leap seconds not counted).
///
/// The day of year is the day count left after the year walk plus one, kept to 16 bits.
pub open spec fn spec_unix_to_ymd(unix_secs: int) -> (u16, u16, u8, u8, u8) {
    let walk = spec_year_walk(unix_secs / 86_400, 1970);
    let tod = unix_secs % 86_400;
    (
        walk.0,
        ((walk.1 % 0x1_0000 + 1) % 0x1_0000) as u16,
        (tod / 3600) as u8,
        ((tod % 3600) / 60) as u8,
        (tod % 60) as u8,
    )
}

/// The day count left by the year walk is below 366 unless the walk ran out of years.
pub proof fn lemma_year_walk_bounds(days: int, year: u16)
    requires
        days >= 0,
    ensures
        spec_year_walk(days, year).0 >= year,
        spec_year_walk(days, year).1 >= 0,
        spec_year_walk(days, year).0 < 65535 ==> spec_year_walk(days, year).1 < spec_days_in_year(
            spec_year_walk(days, year).0 as int,
        ),
    decreases 65535 - year,
{
    if year < 65535 && days >= spec_days_in_year(year as int) {
        lemma_year_walk_bounds(days - spec_days_in_year(year as int), (year + 1) as u16);
    }
}

/// Convert Unix seconds to (year, day of year, hour, minute, second).
pub(crate) fn unix_seconds_to_ymd(unix_secs: u64) -> (r: (u16, u16, u8, u8, u8))
    ensures
        r == spec_unix_to_ymd(unix_secs as int),
        r.2 < 24 && r.3 < 60 && r.4 < 60,
        r.2 * 3600 + r.3 * 60 + r.4 == unix_secs % 86_400,
        r.0 < 65535 ==> 1 <= r.1 && spec_days_before_year(r.0 as int) + r.1 - 1 == unix_secs
            / 86_400,
{
    proof {
        lemma_unix_to_ymd_law(unix_secs as int);
    }
    let mut days: u64 = unix_secs / SECS_PER_DAY;
    let time_of_day = unix_secs % SECS_PER_DAY;
    let hour = (time_of_day / 3600) as u8;
    let minute = ((time_of_day % 3600) / 60) as u8;
    let second = (time_of_day % 60) as u8;
    let mut year: u16 = 1970;
    loop
        invariant
            spec_year_walk(days as int, year) == spec_year_walk(unix_secs as int / 86_400, 1970),
        ensures
            spec_year_walk(unix_secs as int / 86_400, 1970) == (year, days as int),
        decreases 65535 - year,
    {
        if year == u16::MAX {
            break ;
        }
        let days_in_year: u64 = if is_leap_year(year) {
            366
        } else {
            365
        };
        if days < days_in_year {
            break ;
        }
        days = days - days_in_year;
        year = year + 1;
    }
    let low: u16 = (days % 0x1_0000) as u16;
    let doy: u16 = if low == u16::MAX {
        0
    } else {
        low + 1
    };
    (year, doy, hour, minute, second)
}

/// Walking the years from `year` takes whole years off the day count: the days before the
/// year reached plus the days left are the days before `year` plus `days`.
proof fn lemma_year_walk_sum(days: int, year: u16)
    requires
        days >= 0,
        year >= 1970,
    ensures
        spec_days_before_year(spec_year_walk(days, year).0 as int) + spec_year_walk(days, year).1
            == spec_days_before_year(year as int) + days,
    decreases 65535 - year,
{
    if year < 65535 && days >= spec_days_in_year(year as int) {
        lemma_year_walk_sum(days - spec_days_in_year(year as int), (year + 1) as u16);
        assert(spec_days_before_year(year + 1) == spec_days_before_year(year as int)
            + spec_days_in_year(year as int));
    }
}

/// The civil fields of a Unix time: hour, minute and second make up the seconds of its day,
/// and, while the year fits, the days before the year plus the day of year less one are the
/// whole days since 1970-01-01.
pub proof fn lemma_unix_to_ymd_law(unix_secs: int)
    requires
        unix_secs >= 0,
    ensures
        ({
            let r = spec_unix_to_ymd(unix_secs);
            &&& r.2 < 24 && r.3 < 60 && r.4 < 60
            &&& r.2 * 3600 + r.3 * 60 + r.4 == unix_secs % 86_400
            &&& r.0 < 65535 ==> 1 <= r.1 && spec_days_before_year(r.0 as int) + r.1 - 1
                == unix_secs / 86_400
        }),
{
    let d = unix_secs / 86_400;
    let tod = unix_secs % 86_400;
    assert(tod == (tod / 3600) * 3600 + ((tod % 3600) / 60) * 60 + tod % 60);
    lemma_year_walk_bounds(d, 1970);
    lemma_year_walk_sum(d, 1970);
    let walk = spec_year_walk(d, 1970);
    if walk.0 < 65535 {
        assert(walk.1 < 366);
        assert((walk.1 % 0x1_0000 + 1) % 0x1_0000 == walk.1 + 1);
    }
}

/// A Unix time that converts is at the time of day given by its seconds within the day, plus
/// the nanoseconds, on the day its whole days since 1970-01-01 name: the days before its
/// year plus its day of year less one.
pub proof fn lemma_unix_to_absolute_law(unix_secs: int, nanos: u32)
    requires
        unix_secs >= 0,
    ensures
        spec_unix_to_absolute(unix_secs, nanos) matches Ok(t) ==> {
            &&& t.nanos_of_day() == (unix_secs % 86_400) * 1_000_000_000 + nanos
            &&& t.year is Some
            &&& spec_days_before_year(t.year->0 as int) + t.day_of_year - 1 == unix_secs / 86_400
        },
{
    lemma_unix_to_ymd_law(unix_secs);
}

/// What converting a Unix time to `AbsoluteTime` gives: the civil fields of the time, the
/// given nanoseconds, and the year; a year past 9999 is out of range.
pub open spec fn spec_unix_to_absolute(unix_secs: int, nanos: u32) -> Result<AbsoluteTime> {
    let (year, doy, hour, minute, second) = spec_unix_to_ymd(unix_secs);
    match spec_absolute_new(doy, hour, minute, second, nanos) {
        Ok(t) => if year > 9999 {
            Err(TimeError::OutOfRange { field: "year", value: year as u32, max: 9999 })
        } else {
            Ok(AbsoluteTime { year: Some(year), ..t })
        },
        Err(e) => Err(e),
    }
}

/// Build an `AbsoluteTime` from Unix seconds and a nanosecond part.
fn unix_to_absolute(unix_secs: u64, nanos: u32) -> (r: Result<AbsoluteTime>)
    ensures
        r == spec_unix_to_absolute(unix_secs as int, nanos),
        r is Ok ==> r->Ok_0.valid(),
{
    let (year, doy, hour, minute, second) = unix_seconds_to_ymd(unix_secs);
    let mut abs = AbsoluteTime::new(doy, hour, minute, second, nanos)?;
    abs.set_year(Some(year))?;
    Ok(abs)
}

// ── NTP time ─────────────────────────────────────────────────────────

/// NTP timestamp: 32-bit seconds since 1900-01-01 00:00:00 UTC and a 32-bit fraction of a
/// second in units of 2^-32 seconds.
#[derive(Debug, Clone, Copy, PartialEq, Eq, Structural)]
pub struct NtpTime {
    /// Seconds since 1900-01-01 00:00:00 UTC.
    pub seconds: u32,
    /// Fractional seconds in units of 2^-32 seconds.
    pub fraction: u32,
}

/// What `NtpTime::from_le_bytes` returns: `[seconds(4), fraction(4)]`, little-endian.
pub open spec fn spec_ntp_from_bytes(buf: Seq<u8>) -> Result<NtpTime> {
    if buf.len() < 8 {
        Err(TimeError::BufferTooShort { expected: 8, actual: buf.len() as usize })
    } else {
        Ok(
            NtpTime {
                seconds: le32(buf[0], buf[1], buf[2], buf[3]) as u32,
                fraction: le32(buf[4], buf[5], buf[6], buf[7]) as u32,
            },
        )
    }
}

/// The wire form of an NTP time: the seconds, then the fraction.
pub open spec fn ntp_le_bytes(t: NtpTime) -> Seq<u8> {
    u32_le_bytes(t.seconds)@ + u32_le_bytes(t.fraction)@
}

impl NtpTime {
    /// Fraction of a second in nanoseconds, rounded down.
    pub open spec fn spec_fraction_nanos(self) -> int {
        (self.fraction * 1_000_000_000) / 0x1_0000_0000
    }

    /// The nanoseconds of an NTP fraction are the fraction of a second it gives, rounded
    /// down: `n` nanoseconds with `n * 2^32 <= fraction * 10^9 < (n + 1) * 2^32`.
    pub proof fn lemma_fraction_nanos_law(self)
        ensures
            self.spec_fraction_nanos() * 0x1_0000_0000 <= self.fraction * 1_000_000_000,
            self.fraction * 1_000_000_000 < (self.spec_fraction_nanos() + 1) * 0x1_0000_0000,
            0 <= self.spec_fraction_nanos() < 1_000_000_000,
    {
        let x = self.fraction * 1_000_000_000;
        vstd::arithmetic::div_mod::lemma_fundamental_div_mod(x, 0x1_0000_0000);
        assert(0 <= x % 0x1_0000_0000 < 0x1_0000_0000) by {
            vstd::arithmetic::div_mod::lemma_mod_bound(x, 0x1_0000_0000);
        }
        assert(x < 1_000_000_000 * 0x1_0000_0000);
        assert(x / 0x1_0000_0000 < 1_000_000_000) by {
            vstd::arithmetic::div_mod::lemma_div_is_ordered(x, 1_000_000_000 * 0x1_0000_0000 - 1, 0x1_0000_0000);
        }
        assert(x / 0x1_0000_0000 >= 0) by {
            vstd::arithmetic::div_mod::lemma_div_pos_is_pos(x, 0x1_0000_0000);
        }
    }

    /// Parse from an 8-byte little-endian buffer: `[seconds(4), fraction(4)]`.
    pub fn from_le_bytes(buf: &[u8]) -> (r: Result<Self>)
        ensures
            r == spec_ntp_from_bytes(buf@),
    {
        if buf.len() < 8 {
            return Err(TimeError::BufferTooShort { expected: 8, actual: buf.len() });
        }
        Ok(
            NtpTime {
                seconds: u32_from_le(buf[0], buf[1], buf[2], buf[3]),
                fraction: u32_from_le(buf[4], buf[5], buf[6], buf[7]),
            },
        )
    }

    /// Convert the fractional seconds to nanoseconds: `(fraction * 10^9) >> 32`.
    pub fn fraction_as_nanos(&self) -> (r: u32)
        ensures
            r == self.spec_fraction_nanos(),
            r < 1_000_000_000,
    {
        let f = self.fraction as u64;
        assert(f * 1_000_000_000 <= 0xFFFF_FFFF * 1_000_000_000) by (nonlinear_arith)
            requires
                f <= 0xFFFF_FFFF,
        ;
        let scaled = f * 1_000_000_000;
        assert(scaled / 0x1_0000_0000 < 1_000_000_000) by (nonlinear_arith)
            requires
                scaled <= 0xFFFF_FFFF * 1_000_000_000,
        ;
        (scaled / 0x1_0000_0000) as u32
    }

    /// Total nanoseconds since the NTP epoch (1900-01-01 UTC).
    pub fn to_nanos_since_ntp_epoch(&self) -> (r: u64)
        ensures
            r == self.seconds * 1_000_000_000 + self.spec_fraction_nanos(),
    {
        let ns = self.fraction_as_nanos();
        (self.seconds as u64) * 1_000_000_000 + (ns as u64)
    }

    /// Convert to Unix seconds (epoch 1970-01-01 UTC); `None` before the Unix epoch.
    pub fn to_unix_seconds(&self) -> (r: Option<u64>)
        ensures
            r == if self.seconds >= NTP_UNIX_EPOCH_OFFSET {
                Some((self.seconds - NTP_UNIX_EPOCH_OFFSET) as u64)
            } else {
                None::<u64>
            },
    {
        (self.seconds as u64).checked_sub(NTP_UNIX_EPOCH_OFFSET)
    }

    /// What `to_absolute` returns.
    pub open spec fn spec_to_absolute(self) -> Result<AbsoluteTime> {
        if self.seconds < NTP_UNIX_EPOCH_OFFSET {
            Err(TimeError::OutOfRange { field: "ntp_seconds", value: self.seconds, max: u32::MAX })
        } else {
            spec_unix_to_absolute(
                self.seconds - NTP_UNIX_EPOCH_OFFSET,
                self.spec_fraction_nanos() as u32,
            )
        }
    }

    /// Convert to `AbsoluteTime` (day of year within its year, with the year set).
    pub fn to_absolute(&self) -> (r: Result<AbsoluteTime>)
        ensures
            r == self.spec_to_absolute(),
            r is Ok ==> r->Ok_0.valid(),
            r matches Ok(t) ==> t.nanos_of_day() == ((self.seconds - NTP_UNIX_EPOCH_OFFSET)
                % 86_400) * 1_000_000_000 + self.spec_fraction_nanos() && spec_days_before_year(
                t.year->0 as int,
            ) + t.day_of_year - 1 == (self.seconds - NTP_UNIX_EPOCH_OFFSET) / 86_400,
    {
        proof {
            if self.seconds >= NTP_UNIX_EPOCH_OFFSET {
                lemma_unix_to_absolute_law(
                    self.seconds - NTP_UNIX_EPOCH_OFFSET,
                    self.spec_fraction_nanos() as u32,
                );
            }
        }
        let unix_secs = match self.to_unix_seconds() {
            Some(s) => s,
            None => {
                return Err(
                    TimeError::OutOfRange {
                        field: "ntp_seconds",
                        value: self.seconds,
                        max: u32::MAX,
                    },
                );
            },
        };
        let nanos = self.fraction_as_nanos();
        unix_to_absolute(unix_secs, nanos)
    }

    /// Encode as 8 little-endian bytes: 4 bytes of seconds, 4 bytes of fraction.
    pub fn to_le_bytes(&self) -> (b: [u8; 8])
        ensures
            b@ == ntp_le_bytes(*self),
    {
        let s = u32_to_le(self.seconds);
        let f = u32_to_le(self.fraction);
        let b = [s[0], s[1], s[2], s[3], f[0], f[1], f[2], f[3]];
        assert(b@ =~= ntp_le_bytes(*self));
        b
    }
}

// ── PTP time ─────────────────────────────────────────────────────────

/// PTP (IEEE 1588) timestamp: seconds since 1970-01-01 00:00:00 TAI and nanoseconds.
#[derive(Debug, Clone, Copy, PartialEq, Eq, Structural)]
pub struct PtpTime {
    /// Seconds since 1970-01-01 00:00:00 TAI (48 bits on the wire).
    pub seconds: u64,
    /// Nanoseconds within the current second (0-999_999_999).
    pub nanoseconds: u32,
}

/// Six little-endian bytes of a sequence, starting at `i`, as an unsigned integer.
pub open spec fn le48_at(b: Seq<u8>, i: int) -> int {
    le32(b[i], b[i + 1], b[i + 2], b[i + 3]) + 0x1_0000_0000 * le16(b[i + 4], b[i + 5])
}

/// The six little-endian bytes of the low 48 bits of a value.
pub open spec fn u48_le_bytes(v: u64) -> Seq<u8> {
    seq![
        (v % 0x100) as u8,
        ((v / 0x100) % 0x100) as u8,
        ((v / 0x1_0000) % 0x100) as u8,
        ((v / 0x100_0000) % 0x100) as u8,
        ((v / 0x1_0000_0000) % 0x100) as u8,
        ((v / 0x100_0000_0000) % 0x100) as u8,
    ]
}

/// The wire form of a PTP time: the low 48 bits of the seconds, then the nanoseconds.
pub open spec fn ptp_le_bytes(t: PtpTime) -> Seq<u8> {
    u48_le_bytes(t.seconds) + u32_le_bytes(t.nanoseconds)@
}

/// What `PtpTime::from_le_bytes` returns: `[seconds(6), nanoseconds(4)]`, little-endian,
/// with the nanoseconds below one second.
pub open spec fn spec_ptp_from_bytes(buf: Seq<u8>) -> Result<PtpTime> {
    if buf.len() < 10 {
        Err(TimeError::BufferTooShort { expected: 10, actual: buf.len() as usize })
    } else {
        let ns = le32(buf[6], buf[7], buf[8], buf[9]);
        if ns >= 1_000_000_000 {
            Err(TimeError::OutOfRange { field: "ptp_nanoseconds", value: ns as u32, max: 999_999_999 })
        } else {
            Ok(PtpTime { seconds: le48_at(buf, 0) as u64, nanoseconds: ns as u32 })
        }
    }
}

/// UTC seconds from TAI seconds and the TAI-UTC offset, kept within `0..=u64::MAX`.
pub open spec fn spec_tai_to_utc(tai_seconds: u64, tai_utc_offset: i32) -> u64 {
    let v = tai_seconds - tai_utc_offset;
    if v < 0 {
        0
    } else if v > u64::MAX {
        u64::MAX
    } else {
        v as u64
    }
}

impl PtpTime {
    /// Parse from a 10-byte little-endian buffer: `[seconds(6), nanoseconds(4)]`.
    pub fn from_le_bytes(buf: &[u8]) -> (r: Result<Self>)
        ensures
            r == spec_ptp_from_bytes(buf@),
    {
        if buf.len() < 10 {
            return Err(TimeError::BufferTooShort { expected: 10, actual: buf.len() });
        }
        let lo = u32_from_le(buf[0], buf[1], buf[2], buf[3]);
        let hi = u16_from_le(buf[4], buf[5]);
        let seconds: u64 = lo as u64 + 0x1_0000_0000 * (hi as u64);
        let nanoseconds = u32_from_le(buf[6], buf[7], buf[8], buf[9]);
        if nanoseconds >= 1_000_000_000 {
            return Err(
                TimeError::OutOfRange {
                    field: "ptp_nanoseconds",
                    value: nanoseconds,
                    max: 999_999_999,
                },
            );
        }
        Ok(PtpTime { seconds, nanoseconds })
    }

    /// Total nanoseconds since the PTP (TAI) epoch.
    pub fn to_nanos_since_tai_epoch(&self) -> (r: u128)
        ensures
            r == self.seconds * 1_000_000_000 + self.nanoseconds,
    {
        (self.seconds as u128) * 1_000_000_000 + (self.nanoseconds as u128)
    }

    /// Convert TAI seconds to UTC seconds by subtracting the leap-second offset, saturating
    /// at both ends of the `u64` range.
    pub fn to_utc_seconds(&self, tai_utc_offset: i32) -> (r: u64)
        requires
            tai_utc_offset != i32::MIN,
        ensures
            r == spec_tai_to_utc(self.seconds, tai_utc_offset),
    {
        if tai_utc_offset >= 0 {
            self.seconds.saturating_sub(tai_utc_offset as u64)
        } else {
            self.seconds.saturating_add((-tai_utc_offset) as u64)
        }
    }

    /// What `to_absolute` returns for an offset.
    pub open spec fn spec_to_absolute(self, tai_utc_offset: i32) -> Result<AbsoluteTime> {
        spec_unix_to_absolute(spec_tai_to_utc(self.seconds, tai_utc_offset) as int, self.nanoseconds)
    }

    /// Convert to `AbsoluteTime` using the given TAI-UTC offset (37 s since 2017).
    pub fn to_absolute(&self, tai_utc_offset: i32) -> (r: Result<AbsoluteTime>)
        requires
            tai_utc_offset != i32::MIN,
        ensures
            r == self.spec_to_absolute(tai_utc_offset),
            r is Ok ==> r->Ok_0.valid(),
            r matches Ok(t) ==> t.nanos_of_day() == (spec_tai_to_utc(self.seconds, tai_utc_offset)
                % 86_400) * 1_000_000_000 + self.nanoseconds && spec_days_before_year(
                t.year->0 as int,
            ) + t.day_of_year - 1 == spec_tai_to_utc(self.seconds, tai_utc_offset) / 86_400,
    {
        proof {
            lemma_unix_to_absolute_law(
                spec_tai_to_utc(self.seconds, tai_utc_offset) as int,
                self.nanoseconds,
            );
        }
        let utc_secs = self.to_utc_seconds(tai_utc_offset);
        unix_to_absolute(utc_secs, self.nanoseconds)
    }

    /// Encode as 10 little-endian bytes: the low 48 bits of the seconds, then 4 bytes of
    /// nanoseconds.
    pub fn to_le_bytes(&self) -> (b: [u8; 10])
        ensures
            b@ == ptp_le_bytes(*self),
    {
        let v = self.seconds;
        let n = u32_to_le(self.nanoseconds);
        let b = [
            (v % 0x100) as u8,
            ((v / 0x100) % 0x100) as u8,
            ((v / 0x1_0000) % 0x100) as u8,
            ((v / 0x100_0000) % 0x100) as u8,
            ((v / 0x1_0000_0000) % 0x100) as u8,
            ((v / 0x100_0000_0000) % 0x100) as u8,
            n[0],
            n[1],
            n[2],
            n[3],
        ];
        assert(b@ =~= ptp_le_bytes(*self));
        b
    }
}

// ── Parsed network time ──────────────────────────────────────────────

/// Parsed payload of a Format 2 network time packet.
#[derive(Debug, Clone, Copy, PartialEq, Eq, Structural)]
pub enum NetworkTime {
    /// NTP time (UTC epoch 1900-01-01).
    Ntp(NtpTime),
    /// PTP time (TAI epoch 1970-01-01).
    Ptp(PtpTime),
}

/// What `parse_time_f2_payload` returns: the raw CSDW from the first four bytes, then the
/// time data that follows in the format the CSDW names.
pub open spec fn spec_parse_f2(payload: Seq<u8>) -> Result<(u32, NetworkTime)> {
    if payload.len() < 4 {
        Err(TimeError::BufferTooShort { expected: 4, actual: payload.len() as usize })
    } else {
        let raw = le32(payload[0], payload[1], payload[2], payload[3]) as u32;
        let data = payload.subrange(4, payload.len() as int);
        match spec_time_protocol(raw) {
            NetworkTimeProtocol::Ntp => match spec_ntp_from_bytes(data) {
                Ok(t) => Ok((raw, NetworkTime::Ntp(t))),
                Err(e) => Err(e),
            },
            NetworkTimeProtocol::Ptp => match spec_ptp_from_bytes(data) {
                Ok(t) => Ok((raw, NetworkTime::Ptp(t))),
                Err(e) => Err(e),
            },
            NetworkTimeProtocol::Reserved(v) => Err(
                TimeError::OutOfRange { field: "network_time_protocol", value: v as u32, max: 1 },
            ),
        }
    }
}

/// Parse a Format 2 time packet payload: the CSDW (4 bytes), then the time data.
pub fn parse_time_f2_payload(payload: &[u8]) -> (r: Result<(TimeF2Csdw, NetworkTime)>)
    ensures
        match spec_parse_f2(payload@) {
            Ok((raw, t)) => r is Ok && r->Ok_0.0.raw() == raw && r->Ok_0.1 == t,
            Err(e) => r == Err::<(TimeF2Csdw, NetworkTime), TimeError>(e),
        },
{
    if payload.len() < 4 {
        return Err(TimeError::BufferTooShort { expected: 4, actual: payload.len() });
    }
    let csdw = TimeF2Csdw::from_le_bytes([payload[0], payload[1], payload[2], payload[3]]);
    let time_data = vstd::slice::slice_subrange(payload, 4, payload.len());
    let network_time = match csdw.time_protocol() {
        NetworkTimeProtocol::Ntp => NetworkTime::Ntp(NtpTime::from_le_bytes(time_data)?),
        NetworkTimeProtocol::Ptp => NetworkTime::Ptp(PtpTime::from_le_bytes(time_data)?),
        NetworkTimeProtocol::Reserved(v) => {
            return Err(
                TimeError::OutOfRange { field: "network_time_protocol", value: v as u32, max: 1 },
            );
        },
    };
    Ok((csdw, network_time))
}

// ── Leap second table ────────────────────────────────────────────────

/// An entry of the leap-second table.
#[derive(Debug, Clone, Copy, PartialEq, Eq, Structural)]
pub struct LeapSecondEntry {
    /// Unix time (UTC) at which this offset became effective.
    pub effective_unix: u64,
    /// TAI-UTC offset in seconds (TAI = UTC + offset).
    pub tai_utc_offset: i32,
}

impl SortKey for LeapSecondEntry {
    open spec fn sort_key(&self) -> u64 {
        self.effective_unix
    }

    fn key(&self) -> (r: u64) {
        self.effective_unix
    }
}

/// The TAI-UTC offsets since 1972, when the modern leap-second system began.
#[verifier::opaque]
pub open spec fn builtin_entries() -> Seq<LeapSecondEntry> {
    seq![
        LeapSecondEntry { effective_unix: 63_072_000, tai_utc_offset: 10 },
        LeapSecondEntry { effective_unix: 78_796_800, tai_utc_offset: 11 },
        LeapSecondEntry { effective_unix: 94_694_400, tai_utc_offset: 12 },
        LeapSecondEntry { effective_unix: 126_230_400, tai_utc_offset: 13 },
        LeapSecondEntry { effective_unix: 157_766_400, tai_utc_offset: 14 },
        LeapSecondEntry { effective_unix: 189_302_400, tai_utc_offset: 15 },
        LeapSecondEntry { effective_unix: 220_924_800, tai_utc_offset: 16 },
        LeapSecondEntry { effective_unix: 252_460_800, tai_utc_offset: 17 },
        LeapSecondEntry { effective_unix: 283_996_800, tai_utc_offset: 18 },
        LeapSecondEntry { effective_unix: 315_532_800, tai_utc_offset: 19 },
        LeapSecondEntry { effective_unix: 362_793_600, tai_utc_offset: 20 },
        LeapSecondEntry { effective_unix: 394_329_600, tai_utc_offset: 21 },
        LeapSecondEntry { effective_unix: 425_865_600, tai_utc_offset: 22 },
        LeapSecondEntry { effective_unix: 489_024_000, tai_utc_offset: 23 },
        LeapSecondEntry { effective_unix: 567_993_600, tai_utc_offset: 24 },
        LeapSecondEntry { effective_unix: 631_152_000, tai_utc_offset: 25 },
        LeapSecondEntry { effective_unix: 662_688_000, tai_utc_offset: 26 },
        LeapSecondEntry { effective_unix: 709_948_800, tai_utc_offset: 27 },
        LeapSecondEntry { effective_unix: 741_484_800, tai_utc_offset: 28 },
        LeapSecondEntry { effective_unix: 773_020_800, tai_utc_offset: 29 },
        LeapSecondEntry { effective_unix: 820_454_400, tai_utc_offset: 30 },
        LeapSecondEntry { effective_unix: 867_715_200, tai_utc_offset: 31 },
        LeapSecondEntry { effective_unix: 915_148_800, tai_utc_offset: 32 },
        LeapSecondEntry { effective_unix: 1_136_073_600, tai_utc_offset: 33 },
        LeapSecondEntry { effective_unix: 1_230_768_000, tai_utc_offset: 34 },
        LeapSecondEntry { effective_unix: 1_341_100_800, tai_utc_offset: 35 },
        LeapSecondEntry { effective_unix: 1_435_708_800, tai_utc_offset: 36 },
        LeapSecondEntry { effective_unix: 1_483_228_800, tai_utc_offset: 37 },
    ]
}

/// Each entry's effective time is at most the next one's.
pub open spec fn ascending(s: Seq<LeapSecondEntry>) -> bool
    decreases s.len(),
{
    s.len() <= 1 || (s[0].effective_unix <= s[1].effective_unix && ascending(s.drop_first()))
}

/// Neighbouring entries in order make the whole sequence sorted.
proof fn lemma_ascending_sorted(s: Seq<LeapSecondEntry>)
    requires
        ascending(s),
    ensures
        keys_sorted(s),
    decreases s.len(),
{
    if s.len() > 1 {
        let t = s.drop_first();
        lemma_ascending_sorted(t);
        assert forall|i: int, j: int| 0 <= i <= j < s.len() implies s[i].sort_key()
            <= s[j].sort_key() by {
            if i > 0 {
                assert(s[i] == t[i - 1] && s[j] == t[j - 1]);
            } else if j > 0 {
                assert(s[1] == t[0] && s[j] == t[j - 1]);
            }
        }
    }
}

/// The TAI-UTC offset in force at a Unix time: the entry effective exactly then (the first
/// such), else the last entry effective before it; before the first entry, the first
/// entry's offset; for an empty table, `DEFAULT_TAI_UTC_OFFSET`.
pub open spec fn spec_offset_at_unix(s: Seq<LeapSecondEntry>, unix_seconds: u64) -> i32 {
    let i = count_below(s, unix_seconds) as int;
    if s.len() == 0 {
        DEFAULT_TAI_UTC_OFFSET
    } else if i < s.len() && s[i].effective_unix == unix_seconds {
        s[i].tai_utc_offset
    } else if i == 0 {
        s[0].tai_utc_offset
    } else {
        s[i - 1].tai_utc_offset
    }
}

/// `a - b`, or 0 when `b` exceeds `a`.
pub open spec fn saturating_diff(a: u64, b: u64) -> u64 {
    if a >= b {
        (a - b) as u64
    } else {
        0
    }
}

/// Days from 1970-01-01 to the first day of `year` (0 for years before 1970).
pub open spec fn spec_days_before_year(year: int) -> int
    decreases year,
{
    if year <= 1970 {
        0
    } else {
        spec_days_before_year(year - 1) + spec_days_in_year(year - 1)
    }
}

/// Unix time of 00:00:00 UTC on a day of a year (day 0 counts as day 1; years before 1970
/// give 0).
pub open spec fn spec_unix_of_day(year: u16, day_of_year: u16) -> int {
    if year < 1970 {
        0
    } else {
        (spec_days_before_year(year as int) + if day_of_year >= 1 {
            day_of_year - 1
        } else {
            0
        }) * 86_400
    }
}

/// Table of historical TAI-UTC leap-second offsets, sorted by effective time.
#[derive(Debug, Clone)]
pub struct LeapSecondTable {
    entries: Vec<LeapSecondEntry>,
}

impl View for LeapSecondTable {
    type V = Seq<LeapSecondEntry>;

    closed spec fn view(&self) -> Seq<LeapSecondEntry> {
        self.entries@
    }
}

impl LeapSecondTable {
    /// The entries are sorted by effective time.
    pub closed spec fn wf(self) -> bool {
        keys_sorted(self.entries@)
    }

    /// A well-formed table's entries are sorted by effective time.
    pub proof fn lemma_wf_sorted(self)
        requires
            self.wf(),
        ensures
            keys_sorted(self@),
    {
    }

    /// The built-in table, current as of 2026.
    pub fn builtin() -> (r: Self)
        ensures
            r.wf(),
            r@ == builtin_entries(),
    {
        let entries = vec![
            LeapSecondEntry { effective_unix: 63_072_000, tai_utc_offset: 10 },  // 1972-01-01
            LeapSecondEntry { effective_unix: 78_796_800, tai_utc_offset: 11 },  // 1972-07-01
            LeapSecondEntry { effective_unix: 94_694_400, tai_utc_offset: 12 },  // 1973-01-01
            LeapSecondEntry { effective_unix: 126_230_400, tai_utc_offset: 13 },  // 1974-01-01
            LeapSecondEntry { effective_unix: 157_766_400, tai_utc_offset: 14 },  // 1975-01-01
            LeapSecondEntry { effective_unix: 189_302_400, tai_utc_offset: 15 },  // 1976-01-01
            LeapSecondEntry { effective_unix: 220_924_800, tai_utc_offset: 16 },  // 1977-01-01
            LeapSecondEntry { effective_unix: 252_460_800, tai_utc_offset: 17 },  // 1978-01-01
            LeapSecondEntry { effective_unix: 283_996_800, tai_utc_offset: 18 },  // 1979-01-01
            LeapSecondEntry { effective_unix: 315_532_800, tai_utc_offset: 19 },  // 1980-01-01
            LeapSecondEntry { effective_unix: 362_793_600, tai_utc_offset: 20 },  // 1981-07-01
            LeapSecondEntry { effective_unix: 394_329_600, tai_utc_offset: 21 },  // 1982-07-01
            LeapSecondEntry { effective_unix: 425_865_600, tai_utc_offset: 22 },  // 1983-07-01
            LeapSecondEntry { effective_unix: 489_024_000, tai_utc_offset: 23 },  // 1985-07-01
            LeapSecondEntry { effective_unix: 567_993_600, tai_utc_offset: 24 },  // 1988-01-01
            LeapSecondEntry { effective_unix: 631_152_000, tai_utc_offset: 25 },  // 1990-01-01
            LeapSecondEntry { effective_unix: 662_688_000, tai_utc_offset: 26 },  // 1991-01-01
            LeapSecondEntry { effective_unix: 709_948_800, tai_utc_offset: 27 },  // 1992-07-01
            LeapSecondEntry { effective_unix: 741_484_800, tai_utc_offset: 28 },  // 1993-07-01
            LeapSecondEntry { effective_unix: 773_020_800, tai_utc_offset: 29 },  // 1994-07-01
            LeapSecondEntry { effective_unix: 820_454_400, tai_utc_offset: 30 },  // 1996-01-01
            LeapSecondEntry { effective_unix: 867_715_200, tai_utc_offset: 31 },  // 1997-07-01
            LeapSecondEntry { effective_unix: 915_148_800, tai_utc_offset: 32 },  // 1999-01-01
            LeapSecondEntry { effective_unix: 1_136_073_600, tai_utc_offset: 33 },  // 2006-01-01
            LeapSecondEntry { effective_unix: 1_230_768_000, tai_utc_offset: 34 },  // 2009-01-01
            LeapSecondEntry { effective_unix: 1_341_100_800, tai_utc_offset: 35 },  // 2012-07-01
            LeapSecondEntry { effective_unix: 1_435_708_800, tai_utc_offset: 36 },  // 2015-07-01
            LeapSecondEntry { effective_unix: 1_483_228_800, tai_utc_offset: 37 },  // 2017-01-01
        ];
        proof {
            reveal(builtin_entries);
            assert(entries@ =~= builtin_entries());
            assert(ascending(builtin_entries())) by {
                reveal_with_fuel(ascending, 30);
            }
            lemma_ascending_sorted(builtin_entries());
        }
        LeapSecondTable { entries }
    }

    /// An empty table.
    pub fn empty() -> (r: Self)
        ensures
            r.wf(),
            r@ == Seq::<LeapSecondEntry>::empty(),
    {
        LeapSecondTable { entries: Vec::new() }
    }

    /// Add an entry, keeping the entries sorted: it goes before any entry effective at the
    /// same time or later.
    pub fn add(&mut self, entry: LeapSecondEntry)
        requires
            old(self).wf(),
        ensures
            final(self).wf(),
            final(self)@ == old(self)@.insert(
                count_below(old(self)@, entry.effective_unix) as int,
                entry,
            ),
    {
        insert_sorted(&mut self.entries, entry);
    }

    /// The TAI-UTC offset in force at a Unix time (UTC).
    pub fn offset_at_unix(&self, unix_seconds: u64) -> (r: i32)
        requires
            self.wf(),
        ensures
            r == spec_offset_at_unix(self@, unix_seconds),
    {
        if self.entries.len() == 0 {
            return DEFAULT_TAI_UTC_OFFSET;
        }
        let i = lower_bound(&self.entries, unix_seconds);
        if i < self.entries.len() && self.entries[i].effective_unix == unix_seconds {
            self.entries[i].tai_utc_offset
        } else if i == 0 {
            self.entries[0].tai_utc_offset
        } else {
            self.entries[i - 1].tai_utc_offset
        }
    }

    /// The TAI-UTC offset for a TAI time, looked up at the time less the default offset.
    pub fn offset_at_tai(&self, tai_seconds: u64) -> (r: i32)
        requires
            self.wf(),
        ensures
            r == spec_offset_at_unix(
                self@,
                saturating_diff(tai_seconds, DEFAULT_TAI_UTC_OFFSET as u64),
            ),
    {
        let approx_utc = tai_seconds.saturating_sub(DEFAULT_TAI_UTC_OFFSET as u64);
        self.offset_at_unix(approx_utc)
    }

    /// The TAI-UTC offset in force at the start of a UTC day, for Format 1 time that gives
    /// the year and day of year.
    pub fn offset_for_f1(&self, year: u16, day_of_year: u16) -> (r: i32)
        requires
            self.wf(),
        ensures
            r == spec_offset_at_unix(self@, spec_unix_of_day(year, day_of_year) as u64),
    {
        let mut days: u64 = 0;
        if year >= 1970 {
            let mut y: u16 = 1970;
            while y < year
                invariant
                    1970 <= y <= year,
                    days == spec_days_before_year(y as int),
                    days <= (y - 1970) * 366,
                decreases year - y,
            {
                days = days + if is_leap_year(y) {
                    366
                } else {
                    365
                };
                y = y + 1;
            }
            if day_of_year >= 1 {
                days = days + (day_of_year - 1) as u64;
            }
        }
        self.offset_at_unix(days * SECS_PER_DAY)
    }

    /// Whether a Unix time lies within `window_secs` seconds of an entry's effective time.
    pub fn is_near_leap_second(&self, unix_seconds: u64, window_secs: u64) -> (r: bool)
        ensures
            r == exists|i: int|
                0 <= i < self@.len() && #[trigger] spec_abs_diff(
                    unix_seconds,
                    self@[i].effective_unix,
                ) <= window_secs,
    {
        let mut k: usize = 0;
        while k < self.entries.len()
            invariant
                0 <= k <= self.entries@.len(),
                forall|i: int|
                    0 <= i < k ==> #[trigger] spec_abs_diff(
                        unix_seconds,
                        self.entries@[i].effective_unix,
                    ) > window_secs,
            decreases self.entries@.len() - k,
        {
            if abs_diff_u64(unix_seconds, self.entries[k].effective_unix) <= window_secs {
                assert(spec_abs_diff(unix_seconds, self@[k as int].effective_unix) <= window_secs);
                return true;
            }
            k = k + 1;
        }
        false
    }

    /// Number of entries in the table.
    pub fn len(&self) -> (r: usize)
        ensures
            r == self@.len(),
    {
        self.entries.len()
    }

    /// Whether the table is empty.
    pub fn is_empty(&self) -> (r: bool)
        ensures
            r == (self@.len() == 0),
    {
        self.entries.len() == 0
    }
}

/// Distance between two unsigned values.
pub open spec fn spec_abs_diff(a: u64, b: u64) -> int {
    if a >= b {
        a - b
    } else {
        b - a
    }
}

impl Default for LeapSecondTable {
    /// The built-in table.
    fn default() -> (r: Self)
        ensures
            r.wf(),
            r@ == builtin_entries(),
    {
        Self::builtin()
    }
}

/// Every entry's offset lies between `lo` and `hi`.
pub open spec fn offsets_between(s: Seq<LeapSecondEntry>, lo: i32, hi: i32) -> bool
    decreases s.len(),
{
    s.len() == 0 || (lo <= s[0].tai_utc_offset <= hi && offsets_between(s.drop_first(), lo, hi))
}

/// An entry of a sequence whose offsets lie between two bounds lies between them.
proof fn lemma_offsets_between_index(s: Seq<LeapSecondEntry>, lo: i32, hi: i32, i: int)
    requires
        offsets_between(s, lo, hi),
        0 <= i < s.len(),
    ensures
        lo <= s[i].tai_utc_offset <= hi,
    decreases i,
{
    if i > 0 {
        lemma_offsets_between_index(s.drop_first(), lo, hi, i - 1);
    }
}

/// The offset the built-in table gives at any time is between 10 and 37 seconds.
pub proof fn lemma_builtin_offset_range(unix_seconds: u64)
    ensures
        10 <= spec_offset_at_unix(builtin_entries(), unix_seconds) <= 37,
{
    reveal(builtin_entries);
    let s = builtin_entries();
    assert(offsets_between(s, 10, 37)) by {
        reveal_with_fuel(offsets_between, 30);
    }
    assert(s.len() == 28);
    lemma_count_below_prefix(s, unix_seconds);
    let i = count_below(s, unix_seconds) as int;
    if i < s.len() {
        lemma_offsets_between_index(s, 10, 37, i);
    }
    if i > 0 {
        lemma_offsets_between_index(s, 10, 37, i - 1);
    }
    lemma_offsets_between_index(s, 10, 37, 0);
}

/// An offset looked up at the effective time of an entry just added is that entry's
/// offset.
pub proof fn lemma_offset_after_add(s: Seq<LeapSecondEntry>, entry: LeapSecondEntry)
    requires
        keys_sorted(s),
    ensures
        spec_offset_at_unix(
            s.insert(count_below(s, entry.effective_unix) as int, entry),
            entry.effective_unix,
        ) == entry.tai_utc_offset,
{
    let k = entry.effective_unix;
    let i = count_below(s, k) as int;
    let t = s.insert(i, entry);
    lemma_count_below_prefix(s, k);
    lemma_insert_sorted(s, entry);
    lemma_count_below_prefix(t, k);
    assert(t[i] == entry);
    assert forall|j: int| 0 <= j < i implies t[j].sort_key() < k by {
        assert(t[j] == s[j]);
    }
    assert(count_below(t, k) == i) by {
        if count_below(t, k) > i {
            assert(t[i].sort_key() < k);
        } else if count_below(t, k) < i {
            let c = count_below(t, k) as int;
            assert(t[c].sort_key() >= k);
        }
    }
}

/// How many entries lie below `x` once `entry` is inserted at its position: one more than
/// before when `x` is past the new entry, as many as before otherwise.
proof fn lemma_count_below_after_insert(s: Seq<LeapSecondEntry>, entry: LeapSecondEntry, x: u64)
    requires
        keys_sorted(s),
    ensures
        ({
            let i = count_below(s, entry.effective_unix) as int;
            let t = s.insert(i, entry);
            &&& entry.effective_unix < x ==> count_below(t, x) == count_below(s, x) + 1
                && count_below(s, x) >= i
            &&& x <= entry.effective_unix ==> count_below(t, x) == count_below(s, x)
                && count_below(s, x) <= i
        }),
{
    let k = entry.effective_unix;
    let i = count_below(s, k) as int;
    let t = s.insert(i, entry);
    lemma_count_below_prefix(s, k);
    lemma_count_below_prefix(s, x);
    lemma_insert_sorted(s, entry);
    let c = count_below(s, x) as int;
    if k < x {
        assert(c >= i) by {
            if c < i {
                assert(s[c].sort_key() >= x);
                assert(s[c].sort_key() < k);
            }
        }
        assert forall|j: int| 0 <= j < c + 1 implies t[j].sort_key() < x by {
            if j < i {
                assert(t[j] == s[j]);
            } else if j > i {
                assert(t[j] == s[j - 1]);
            }
        }
        assert forall|j: int| c + 1 <= j < t.len() implies t[j].sort_key() >= x by {
            assert(t[j] == s[j - 1]);
        }
        lemma_count_below_split(t, x, c + 1);
    } else {
        assert(c <= i) by {
            if c > i {
                assert(s[i].sort_key() < x);
                assert(s[i].sort_key() >= k);
            }
        }
        assert forall|j: int| 0 <= j < c implies t[j].sort_key() < x by {
            assert(t[j] == s[j]);
        }
        assert forall|j: int| c <= j < t.len() implies t[j].sort_key() >= x by {
            if j < i {
                assert(t[j] == s[j]);
            } else if j > i {
                assert(t[j] == s[j - 1]);
            }
        }
        lemma_count_below_split(t, x, c);
    }
}

/// The offset at every time once an entry with a new effective time is added: from the
/// entry's time up to the next entry's (or on, when it is the last), the entry's offset;
/// from the next entry's time on, the offset as before; before the entry's time, the offset
/// as before, unless the entry is now the first, whose offset then applies.
pub proof fn lemma_offsets_after_add(s: Seq<LeapSecondEntry>, entry: LeapSecondEntry, x: u64)
    requires
        keys_sorted(s),
        forall|j: int| 0 <= j < s.len() ==> s[j].effective_unix != entry.effective_unix,
    ensures
        ({
            let i = count_below(s, entry.effective_unix) as int;
            let t = s.insert(i, entry);
            &&& entry.effective_unix <= x && (i < s.len() ==> x < s[i].effective_unix)
                ==> spec_offset_at_unix(t, x) == entry.tai_utc_offset
            &&& i < s.len() && s[i].effective_unix <= x ==> spec_offset_at_unix(t, x)
                == spec_offset_at_unix(s, x)
            &&& x < entry.effective_unix && i > 0 ==> spec_offset_at_unix(t, x)
                == spec_offset_at_unix(s, x)
            &&& x < entry.effective_unix && i == 0 ==> spec_offset_at_unix(t, x)
                == entry.tai_utc_offset
        }),
{
    let k = entry.effective_unix;
    let i = count_below(s, k) as int;
    let t = s.insert(i, entry);
    lemma_count_below_prefix(s, k);
    lemma_count_below_prefix(s, x);
    lemma_count_below_after_insert(s, entry, x);
    let c = count_below(s, x) as int;
    let ct = count_below(t, x) as int;
    assert(t[i] == entry);
    if x == k {
        lemma_offset_after_add(s, entry);
        if i < s.len() {
            assert(s[i].sort_key() != k);
        }
    } else if k < x {
        assert(ct == c + 1);
        if i < s.len() && x < s[i].effective_unix {
            assert(c == i) by {
                if c > i {
                    assert(s[i].sort_key() < x);
                }
            }
            if ct < t.len() {
                assert(t[ct] == s[i]);
            }
        } else if i == s.len() {
            assert(c == i);
        } else {
            assert(s[i].sort_key() != k);
            if ct < t.len() {
                assert(t[ct] == s[c]);
            }
            if c > i {
                assert(t[c] == s[c - 1]);
            } else {
                assert(c == i);
                assert(s[i].effective_unix == x);
            }
        }
    } else {
        assert(ct == c);
        if c < i {
            assert(t[c] == s[c]);
        }
        if c > 0 && c - 1 < i {
            assert(t[c - 1] == s[c - 1]);
        }
        if i > 0 {
            assert(t[0] == s[0]);
        }
        if c == i && i < s.len() {
            assert(s[i].sort_key() >= k);
        }
    }
}

/// Between an entry's effective time and the next entry's, the entry's offset applies.
pub proof fn lemma_offset_between_entries(s: Seq<LeapSecondEntry>, k: int, unix_seconds: u64)
    requires
        keys_sorted(s),
        0 <= k < s.len(),
        s[k].effective_unix <= unix_seconds,
        k + 1 < s.len() ==> unix_seconds < s[k + 1].effective_unix,
        forall|j: int| 0 <= j < k ==> s[j].effective_unix < s[k].effective_unix,
    ensures
        spec_offset_at_unix(s, unix_seconds) == s[k].tai_utc_offset,
{
    lemma_count_below_prefix(s, unix_seconds);
    let i = count_below(s, unix_seconds) as int;
    if s[k].effective_unix == unix_seconds {
        assert(i == k) by {
            if i < k {
                assert(s[i].sort_key() >= unix_seconds);
            } else if i > k {
                assert(s[k].sort_key() < unix_seconds);
            }
        }
    } else {
        assert(i == k + 1) by {
            if i <= k {
                assert(s[k].sort_key() >= unix_seconds);
            } else if i > k + 1 {
                assert(s[k + 1].sort_key() < unix_seconds);
            }
        }
    }
}

/// Encoding an NTP time and parsing the bytes gives the same time; parsing eight bytes and
/// encoding the result gives the same bytes.
pub proof fn lemma_ntp_bytes_round_trip(t: NtpTime, b: Seq<u8>)
    ensures
        spec_ntp_from_bytes(ntp_le_bytes(t)) == Ok::<NtpTime, TimeError>(t),
        b.len() >= 8 ==> ntp_le_bytes(spec_ntp_from_bytes(b)->Ok_0) == b.subrange(0, 8),
{
    let e = ntp_le_bytes(t);
    lemma_u32_le_round_trip(t.seconds, [0u8, 0u8, 0u8, 0u8]);
    lemma_u32_le_round_trip(t.fraction, [0u8, 0u8, 0u8, 0u8]);
    assert(e[0] == u32_le_bytes(t.seconds)[0] && e[3] == u32_le_bytes(t.seconds)[3]);
    assert(e[4] == u32_le_bytes(t.fraction)[0] && e[7] == u32_le_bytes(t.fraction)[3]);
    if b.len() >= 8 {
        let b0 = [b[0], b[1], b[2], b[3]];
        let b1 = [b[4], b[5], b[6], b[7]];
        lemma_u32_le_round_trip(0, b0);
        lemma_u32_le_round_trip(0, b1);
        let p = spec_ntp_from_bytes(b)->Ok_0;
        assert(u32_le_bytes(p.seconds) == b0);
        assert(u32_le_bytes(p.fraction) == b1);
        assert(ntp_le_bytes(p) =~= b.subrange(0, 8));
    }
}

/// The low 48 bits of a value survive a trip through six bytes.
proof fn lemma_u48_encode(v: u64)
    ensures
        le48_at(u48_le_bytes(v), 0) == v % 0x1_0000_0000_0000,
{
    assert((v % 0x100) + 0x100 * ((v / 0x100) % 0x100) + 0x1_0000 * ((v / 0x1_0000) % 0x100)
        + 0x100_0000 * ((v / 0x100_0000) % 0x100) + 0x1_0000_0000 * ((v / 0x1_0000_0000) % 0x100)
        + 0x100_0000_0000 * ((v / 0x100_0000_0000) % 0x100) == v % 0x1_0000_0000_0000)
        by (bit_vector);
}

/// The digits of a six-byte little-endian number are its bytes.
proof fn lemma_bytes48(b0: u8, b1: u8, b2: u8, b3: u8, b4: u8, b5: u8)
    by (bit_vector)
    ensures
        ({
            let w = (b0 as u64) + 0x100 * (b1 as u64) + 0x1_0000 * (b2 as u64) + 0x100_0000 * (
            b3 as u64) + 0x1_0000_0000 * (b4 as u64) + 0x100_0000_0000 * (b5 as u64);
            &&& w < 0x1_0000_0000_0000
            &&& w % 0x100 == b0
            &&& (w / 0x100) % 0x100 == b1
            &&& (w / 0x1_0000) % 0x100 == b2
            &&& (w / 0x100_0000) % 0x100 == b3
            &&& (w / 0x1_0000_0000) % 0x100 == b4
            &&& (w / 0x100_0000_0000) % 0x100 == b5
        }),
{
}

/// Six bytes survive a trip through their value.
proof fn lemma_u48_decode(b: Seq<u8>)
    requires
        b.len() >= 6,
    ensures
        u48_le_bytes(le48_at(b, 0) as u64) == b.subrange(0, 6),
{
    let w = le48_at(b, 0);
    lemma_bytes48(b[0], b[1], b[2], b[3], b[4], b[5]);
    assert(u48_le_bytes(w as u64) =~= b.subrange(0, 6));
}

/// Encoding a PTP time whose seconds fit in 48 bits and whose nanoseconds are below one
/// second, then parsing the bytes, gives the same time; bytes that parse encode back to
/// themselves.
pub proof fn lemma_ptp_bytes_round_trip(t: PtpTime, b: Seq<u8>)
    ensures
        t.seconds < 0x1_0000_0000_0000 && t.nanoseconds < 1_000_000_000 ==> spec_ptp_from_bytes(
            ptp_le_bytes(t),
        ) == Ok::<PtpTime, TimeError>(t),
        spec_ptp_from_bytes(b) is Ok ==> ptp_le_bytes(spec_ptp_from_bytes(b)->Ok_0)
            == b.subrange(0, 10),
{
    let e = ptp_le_bytes(t);
    lemma_u48_encode(t.seconds);
    lemma_u32_le_round_trip(t.nanoseconds, [0u8, 0u8, 0u8, 0u8]);
    assert(e.subrange(0, 6) =~= u48_le_bytes(t.seconds));
    assert(le48_at(e, 0) == le48_at(u48_le_bytes(t.seconds), 0));
    assert(e[6] == u32_le_bytes(t.nanoseconds)[0] && e[9] == u32_le_bytes(t.nanoseconds)[3]);
    if spec_ptp_from_bytes(b) is Ok {
        let p = spec_ptp_from_bytes(b)->Ok_0;
        lemma_u48_decode(b);
        let b1 = [b[6], b[7], b[8], b[9]];
        lemma_u32_le_round_trip(0, b1);
        assert(u32_le_bytes(p.nanoseconds) == b1);
        assert(ptp_le_bytes(p) =~= b.subrange(0, 10));
    }
}

/// PTP times order like their nanosecond counts: a later second gives a larger count, and
/// within a second more nanoseconds give a larger count.
pub proof fn lemma_ptp_nanos_order(a: PtpTime, b: PtpTime)
    requires
        a.nanoseconds < 1_000_000_000,
        b.nanoseconds < 1_000_000_000,
    ensures
        a.seconds < b.seconds ==> a.seconds * 1_000_000_000 + a.nanoseconds < b.seconds
            * 1_000_000_000 + b.nanoseconds,
        a.seconds == b.seconds && a.nanoseconds <= b.nanoseconds ==> a.seconds * 1_000_000_000
            + a.nanoseconds <= b.seconds * 1_000_000_000 + b.nanoseconds,
{
    if a.seconds < b.seconds {
        assert(a.seconds * 1_000_000_000 + 1_000_000_000 <= b.seconds * 1_000_000_000)
            by (nonlinear_arith)
            requires
                a.seconds < b.seconds,
        ;
    }
}

} // verus!
