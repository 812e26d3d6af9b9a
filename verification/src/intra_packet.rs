//! Intra-packet time stamp parsing for IRIG 106 Chapter 10 data messages.
//!
//! Each data message within a packet may carry an 8-byte intra-packet time stamp whose
//! format is determined by the Packet Flag bits.

use vstd::prelude::*;
use crate::absolute::{
    le64_at, spec_ch4_from_bytes, spec_ieee1588_from_bytes, Ch4BinaryTime, Ertc, Ieee1588Time,
};
use crate::error::{Result, TimeError};
use crate::rtc::{le48, Rtc};

verus! {

/// Discriminant for intra-packet time stamp format.
#[derive(Debug, Clone, Copy, PartialEq, Eq, Structural)]
pub enum IntraPacketTimeFormat {
    /// 48-bit RTC (6 bytes used, 2 bytes reserved).
    Rtc48,
    /// IRIG 106 Chapter 4 Binary Weighted Time.
    Ch4Binary,
    /// IEEE-1588 Precision Time Protocol.
    Ieee1588,
    /// 64-bit Extended RTC.
    Ertc64,
}

/// The format selected by Packet Flag bits: RTC when bit 2 (secondary header present) is
/// clear; otherwise bits 3:2 select 0 = Ch4, 1 = IEEE-1588, 2 = ERTC, 3 = RTC.
pub open spec fn spec_intra_packet_format(flags: u8) -> IntraPacketTimeFormat {
    let sel = (flags / 4) % 4;
    if (flags / 4) % 2 == 0 {
        IntraPacketTimeFormat::Rtc48
    } else if sel == 0 {
        IntraPacketTimeFormat::Ch4Binary
    } else if sel == 1 {
        IntraPacketTimeFormat::Ieee1588
    } else if sel == 2 {
        IntraPacketTimeFormat::Ertc64
    } else {
        IntraPacketTimeFormat::Rtc48
    }
}

/// The intra-packet time format for the Packet Flags: RTC without a secondary header
/// (bit 2 clear); with one, bits 3:2 (then 1 or 3) select IEEE-1588 or RTC.
pub proof fn lemma_intra_packet_format_table(flags: u8)
    ensures
        (flags / 4) % 2 == 0 ==> spec_intra_packet_format(flags) == IntraPacketTimeFormat::Rtc48,
        (flags / 4) % 4 == 1 ==> spec_intra_packet_format(flags) == IntraPacketTimeFormat::Ieee1588,
        (flags / 4) % 4 == 3 ==> spec_intra_packet_format(flags) == IntraPacketTimeFormat::Rtc48,
{
}

impl IntraPacketTimeFormat {
    /// Derive the intra-packet time format from Packet Flag bits.
    pub fn from_packet_flags(flags: u8) -> (r: Self)
        ensures
            r == spec_intra_packet_format(flags),
    {
        let has_secondary = (flags / 4) % 2 != 0;
        if !has_secondary {
            return IntraPacketTimeFormat::Rtc48;
        }
        match (flags / 4) % 4 {
            0 => IntraPacketTimeFormat::Ch4Binary,
            1 => IntraPacketTimeFormat::Ieee1588,
            2 => IntraPacketTimeFormat::Ertc64,
            _ => IntraPacketTimeFormat::Rtc48,
        }
    }
}

/// Parsed intra-packet time stamp.
#[derive(Debug, Clone, Copy, PartialEq, Eq, Structural)]
pub enum IntraPacketTime {
    /// 48-bit Relative Time Counter value.
    Rtc(Rtc),
    /// Chapter 4 Binary Weighted Time.
    Ch4(Ch4BinaryTime),
    /// IEEE-1588 time.
    Ieee1588(Ieee1588Time),
    /// 64-bit Extended RTC.
    Ertc(Ertc),
}

/// The first six bytes of a sequence as a 6-byte array.
pub open spec fn first_six(buf: Seq<u8>) -> [u8; 6] {
    [buf[0], buf[1], buf[2], buf[3], buf[4], buf[5]]
}

/// Parse an 8-byte intra-packet time stamp buffer in the given format.
pub fn parse_intra_packet_time(buf: &[u8], fmt: IntraPacketTimeFormat) -> (r: Result<
    IntraPacketTime,
>)
    ensures
        buf@.len() < 8 ==> r == Err::<IntraPacketTime, TimeError>(
            TimeError::BufferTooShort { expected: 8, actual: buf@.len() as usize },
        ),
        buf@.len() >= 8 ==> match fmt {
            IntraPacketTimeFormat::Rtc48 => r matches Ok(IntraPacketTime::Rtc(t)) && t.raw()
                == le48(first_six(buf@)),
            IntraPacketTimeFormat::Ch4Binary => match spec_ch4_from_bytes(buf@) {
                Ok(t) => r == Ok::<IntraPacketTime, TimeError>(IntraPacketTime::Ch4(t)),
                Err(e) => r == Err::<IntraPacketTime, TimeError>(e),
            },
            IntraPacketTimeFormat::Ieee1588 => match spec_ieee1588_from_bytes(buf@) {
                Ok(t) => r == Ok::<IntraPacketTime, TimeError>(IntraPacketTime::Ieee1588(t)),
                Err(e) => r == Err::<IntraPacketTime, TimeError>(e),
            },
            IntraPacketTimeFormat::Ertc64 => r matches Ok(IntraPacketTime::Ertc(e)) && e.raw()
                == le64_at(buf@, 0),
        },
{
    if buf.len() < 8 {
        return Err(TimeError::BufferTooShort { expected: 8, actual: buf.len() });
    }
    match fmt {
        IntraPacketTimeFormat::Rtc48 => {
            let rtc = Rtc::from_le_bytes([buf[0], buf[1], buf[2], buf[3], buf[4], buf[5]]);
            Ok(IntraPacketTime::Rtc(rtc))
        },
        IntraPacketTimeFormat::Ch4Binary => {
            let ch4 = Ch4BinaryTime::from_intra_packet_bytes(buf)?;
            Ok(IntraPacketTime::Ch4(ch4))
        },
        IntraPacketTimeFormat::Ieee1588 => {
            let t = Ieee1588Time::from_le_bytes(buf)?;
            Ok(IntraPacketTime::Ieee1588(t))
        },
        IntraPacketTimeFormat::Ertc64 => {
            let e = Ertc::from_le_bytes(buf)?;
            Ok(IntraPacketTime::Ertc(e))
        },
    }
}

} // verus!
