//! Time Data Format 1 (0x11) Channel-Specific Data Word.

use vstd::prelude::*;
use crate::absolute::le32;
use crate::version::Irig106Version;

verus! {

/// Time source applied to the recorder.
#[derive(Debug, Clone, Copy, PartialEq, Eq, Structural)]
pub enum TimeSource {
    /// Internal time source (0x0).
    Internal,
    /// External time source (0x1).
    External,
    /// Internal RTC (0x2).
    InternalRtc,
    /// GPS time (0x3).
    Gps,
    /// No time source (0xF).
    NoSource,
    /// Reserved or unrecognized value.
    Reserved(u8),
}

/// The time source that a 4-bit field value names.
pub open spec fn spec_time_source(val: u8) -> TimeSource {
    if val == 0 {
        TimeSource::Internal
    } else if val == 1 {
        TimeSource::External
    } else if val == 2 {
        TimeSource::InternalRtc
    } else if val == 3 {
        TimeSource::Gps
    } else if val == 0xF {
        TimeSource::NoSource
    } else {
        TimeSource::Reserved(val)
    }
}

/// The time source under the mapping of a given standard version: value 3 is ambiguous
/// before 106-07 (106-04 "None", 106-05 "GPS") and decodes as `Reserved(3)` there.
pub open spec fn spec_time_source_versioned(val: u8, version: Irig106Version) -> TimeSource {
    if val == 3 && version is Pre07 {
        TimeSource::Reserved(3)
    } else {
        spec_time_source(val)
    }
}

/// The values of the time source field: 0 internal, 1 external, 2 internal RTC, 3 GPS,
/// 15 none; 4 to 14 reserved.
pub proof fn lemma_time_source_table(val: u8)
    ensures
        val == 0 ==> spec_time_source(val) == TimeSource::Internal,
        val == 1 ==> spec_time_source(val) == TimeSource::External,
        val == 2 ==> spec_time_source(val) == TimeSource::InternalRtc,
        val == 3 ==> spec_time_source(val) == TimeSource::Gps,
        val == 15 ==> spec_time_source(val) == TimeSource::NoSource,
        4 <= val <= 14 ==> spec_time_source(val) == TimeSource::Reserved(val),
        val > 15 ==> spec_time_source(val) == TimeSource::Reserved(val),
{
}

impl TimeSource {
    fn from_raw(val: u8) -> (r: Self)
        ensures
            r == spec_time_source(val),
            val == 0 ==> r == TimeSource::Internal,
            val == 1 ==> r == TimeSource::External,
            val == 2 ==> r == TimeSource::InternalRtc,
            val == 3 ==> r == TimeSource::Gps,
            val == 15 ==> r == TimeSource::NoSource,
            4 <= val <= 14 || val > 15 ==> r == TimeSource::Reserved(val),
    {
        match val {
            0 => TimeSource::Internal,
            1 => TimeSource::External,
            2 => TimeSource::InternalRtc,
            3 => TimeSource::Gps,
            0xF => TimeSource::NoSource,
            other => TimeSource::Reserved(other),
        }
    }

    fn from_raw_versioned(val: u8, version: &Irig106Version) -> (r: Self)
        ensures
            r == spec_time_source_versioned(val, *version),
    {
        if val == 3 && !version.has_gps_time_source() {
            TimeSource::Reserved(3)
        } else {
            Self::from_raw(val)
        }
    }
}

/// Format of the external time source.
#[derive(Debug, Clone, Copy, PartialEq, Eq, Structural)]
pub enum TimeFormat {
    /// IRIG-B (0x0).
    IrigB,
    /// IRIG-A (0x1).
    IrigA,
    /// IRIG-G (0x2).
    IrigG,
    /// Internal RTC (0x3).
    Rtc,
    /// UTC from GPS (0x4).
    Utc,
    /// GPS time (0x5).
    Gps,
    /// Reserved or unrecognized value.
    Reserved(u8),
}

/// The time format that a 4-bit field value names.
pub open spec fn spec_time_format(val: u8) -> TimeFormat {
    if val == 0 {
        TimeFormat::IrigB
    } else if val == 1 {
        TimeFormat::IrigA
    } else if val == 2 {
        TimeFormat::IrigG
    } else if val == 3 {
        TimeFormat::Rtc
    } else if val == 4 {
        TimeFormat::Utc
    } else if val == 5 {
        TimeFormat::Gps
    } else {
        TimeFormat::Reserved(val)
    }
}

/// The values of the time format field: 0 IRIG-B, 1 IRIG-A, 2 IRIG-G, 3 real-time clock,
/// 4 UTC, 5 GPS; 6 and above reserved.
pub proof fn lemma_time_format_table(val: u8)
    ensures
        val == 0 ==> spec_time_format(val) == TimeFormat::IrigB,
        val == 1 ==> spec_time_format(val) == TimeFormat::IrigA,
        val == 2 ==> spec_time_format(val) == TimeFormat::IrigG,
        val == 3 ==> spec_time_format(val) == TimeFormat::Rtc,
        val == 4 ==> spec_time_format(val) == TimeFormat::Utc,
        val == 5 ==> spec_time_format(val) == TimeFormat::Gps,
        val >= 6 ==> spec_time_format(val) == TimeFormat::Reserved(val),
{
}

impl TimeFormat {
    fn from_raw(val: u8) -> (r: Self)
        ensures
            r == spec_time_format(val),
            val == 0 ==> r == TimeFormat::IrigB,
            val == 1 ==> r == TimeFormat::IrigA,
            val == 2 ==> r == TimeFormat::IrigG,
            val == 3 ==> r == TimeFormat::Rtc,
            val == 4 ==> r == TimeFormat::Utc,
            val == 5 ==> r == TimeFormat::Gps,
            val >= 6 ==> r == TimeFormat::Reserved(val),
    {
        match val {
            0 => TimeFormat::IrigB,
            1 => TimeFormat::IrigA,
            2 => TimeFormat::IrigG,
            3 => TimeFormat::Rtc,
            4 => TimeFormat::Utc,
            5 => TimeFormat::Gps,
            other => TimeFormat::Reserved(other),
        }
    }
}

/// Date representation format in the time message.
#[derive(Debug, Clone, Copy, PartialEq, Eq, Structural)]
pub enum DateFormat {
    /// Day-of-year format (bit 9 = 0).
    DayOfYear,
    /// Day-month-year format (bit 9 = 1).
    DayMonthYear,
}

/// Parsed Time Data Format 1 (0x11) Channel-Specific Data Word.
#[derive(Debug, Clone, Copy, PartialEq, Eq, Structural)]
pub struct TimeF1Csdw(u32);

/// The four little-endian bytes of a 32-bit word.
pub open spec fn u32_le_bytes(v: u32) -> [u8; 4] {
    [(v % 0x100) as u8, ((v / 0x100) % 0x100) as u8, ((v / 0x1_0000) % 0x100) as u8, (v
        / 0x100_0000) as u8]
}

/// Encode a 32-bit word as four little-endian bytes.
pub(crate) fn u32_to_le(v: u32) -> (b: [u8; 4])
    ensures
        b == u32_le_bytes(v),
        le32(b[0], b[1], b[2], b[3]) == v,
{
    [(v % 0x100) as u8, ((v / 0x100) % 0x100) as u8, ((v / 0x1_0000) % 0x100) as u8, (v
        / 0x100_0000) as u8]
}

impl TimeF1Csdw {
    /// The raw 32-bit value.
    pub closed spec fn raw(self) -> u32 {
        self.0
    }

    /// Construct from a raw 32-bit value.
    pub fn from_raw(raw: u32) -> (r: Self)
        ensures
            r.raw() == raw,
    {
        TimeF1Csdw(raw)
    }

    /// Construct from 4 little-endian bytes.
    pub fn from_le_bytes(buf: [u8; 4]) -> (r: Self)
        ensures
            r.raw() == le32(buf[0], buf[1], buf[2], buf[3]),
    {
        TimeF1Csdw(crate::absolute::u32_from_le(buf[0], buf[1], buf[2], buf[3]))
    }

    /// Raw 32-bit value.
    pub fn as_raw(self) -> (r: u32)
        ensures
            r == self.raw(),
    {
        self.0
    }

    /// Encode as 4 little-endian bytes.
    pub fn to_le_bytes(self) -> (b: [u8; 4])
        ensures
            b == u32_le_bytes(self.raw()),
            le32(b[0], b[1], b[2], b[3]) == self.raw(),
    {
        u32_to_le(self.0)
    }

    /// Time source (bits 3:0).
    pub fn time_source(self) -> (r: TimeSource)
        ensures
            r == spec_time_source((self.raw() % 16) as u8),
            self.raw() % 16 == 0 ==> r == TimeSource::Internal,
            self.raw() % 16 == 1 ==> r == TimeSource::External,
            self.raw() % 16 == 2 ==> r == TimeSource::InternalRtc,
            self.raw() % 16 == 3 ==> r == TimeSource::Gps,
            self.raw() % 16 == 15 ==> r == TimeSource::NoSource,
            4 <= self.raw() % 16 <= 14 ==> r == TimeSource::Reserved((self.raw() % 16) as u8),
    {
        proof {
            lemma_time_source_table((self.raw() % 16) as u8);
        }
        TimeSource::from_raw((self.0 % 16) as u8)
    }

    /// Time format (bits 7:4).
    pub fn time_format(self) -> (r: TimeFormat)
        ensures
            r == spec_time_format(((self.raw() / 16) % 16) as u8),
            (self.raw() / 16) % 16 == 0 ==> r == TimeFormat::IrigB,
            (self.raw() / 16) % 16 == 1 ==> r == TimeFormat::IrigA,
            (self.raw() / 16) % 16 == 2 ==> r == TimeFormat::IrigG,
            (self.raw() / 16) % 16 == 3 ==> r == TimeFormat::Rtc,
            (self.raw() / 16) % 16 == 4 ==> r == TimeFormat::Utc,
            (self.raw() / 16) % 16 == 5 ==> r == TimeFormat::Gps,
            (self.raw() / 16) % 16 >= 6 ==> r == TimeFormat::Reserved(((self.raw() / 16) % 16) as u8),
    {
        proof {
            lemma_time_format_table(((self.raw() / 16) % 16) as u8);
        }
        TimeFormat::from_raw(((self.0 / 16) % 16) as u8)
    }

    /// Leap year indicator (bit 8).
    pub fn is_leap_year(self) -> (r: bool)
        ensures
            r == ((self.raw() / 0x100) % 2 == 1),
    {
        (self.0 / 0x100) % 2 == 1
    }

    /// Date format (bit 9).
    pub fn date_format(self) -> (r: DateFormat)
        ensures
            r == if (self.raw() / 0x200) % 2 == 0 {
                DateFormat::DayOfYear
            } else {
                DateFormat::DayMonthYear
            },
    {
        if (self.0 / 0x200) % 2 == 0 {
            DateFormat::DayOfYear
        } else {
            DateFormat::DayMonthYear
        }
    }

    /// Version-aware time source (bits 3:0): value 3 is `Reserved(3)` for pre-07 files.
    pub fn time_source_versioned(self, version: &Irig106Version) -> (r: TimeSource)
        ensures
            r == spec_time_source_versioned((self.raw() % 16) as u8, *version),
    {
        TimeSource::from_raw_versioned((self.0 % 16) as u8, version)
    }
}

/// Encoding four bytes as a word and back gives the same bytes, and the other way round.
pub proof fn lemma_u32_le_round_trip(v: u32, b: [u8; 4])
    ensures
        le32(u32_le_bytes(v)[0], u32_le_bytes(v)[1], u32_le_bytes(v)[2], u32_le_bytes(v)[3]) == v,
        u32_le_bytes(le32(b[0], b[1], b[2], b[3]) as u32) == b,
{
    let w = le32(b[0], b[1], b[2], b[3]);
    assert(w % 0x100 == b[0]);
    assert((w / 0x100) % 0x100 == b[1]);
    assert((w / 0x1_0000) % 0x100 == b[2]);
    assert(w / 0x100_0000 == b[3]);
    assert(u32_le_bytes(w as u32) =~= b);
}

} // verus!
