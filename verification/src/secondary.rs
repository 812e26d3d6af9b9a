//! Secondary header time format parsing and checksum validation.

use vstd::prelude::*;
use crate::absolute::{
    le16, le64_at, spec_ch4_from_bytes, spec_ieee1588_from_bytes, u16_from_le, Ch4BinaryTime,
    Ertc, Ieee1588Time,
};
use crate::error::{Result, TimeError};

verus! {

/// Time format discriminant derived from Packet Flag bits 3:2.
#[derive(Debug, Clone, Copy, PartialEq, Eq, Structural)]
pub enum SecHdrTimeFormat {
    /// IRIG 106 Chapter 4 Binary Weighted Time.
    Ch4,
    /// IEEE-1588 Precision Time Protocol.
    Ieee1588,
    /// Extended Relative Time Counter (64-bit).
    Ertc,
    /// Reserved/unknown format.
    Reserved(u8),
}

/// The format that Packet Flag bits 3:2 select.
pub open spec fn spec_sec_hdr_format(flags: u8) -> SecHdrTimeFormat {
    let sel = (flags / 4) % 4;
    if sel == 0 {
        SecHdrTimeFormat::Ch4
    } else if sel == 1 {
        SecHdrTimeFormat::Ieee1588
    } else if sel == 2 {
        SecHdrTimeFormat::Ertc
    } else {
        SecHdrTimeFormat::Reserved(sel as u8)
    }
}

/// The formats Packet Flag bits 3:2 select: 0 Chapter 4, 1 IEEE-1588, 2 extended RTC,
/// 3 reserved.
pub proof fn lemma_sec_hdr_format_table(flags: u8)
    ensures
        (flags / 4) % 4 == 0 ==> spec_sec_hdr_format(flags) == SecHdrTimeFormat::Ch4,
        (flags / 4) % 4 == 1 ==> spec_sec_hdr_format(flags) == SecHdrTimeFormat::Ieee1588,
        (flags / 4) % 4 == 2 ==> spec_sec_hdr_format(flags) == SecHdrTimeFormat::Ertc,
        (flags / 4) % 4 == 3 ==> spec_sec_hdr_format(flags) == SecHdrTimeFormat::Reserved(3),
{
}

impl SecHdrTimeFormat {
    /// Decode from Packet Flag bits 3:2.
    pub fn from_packet_flags(flags: u8) -> (r: Self)
        ensures
            r == spec_sec_hdr_format(flags),
    {
        match (flags / 4) % 4 {
            0 => SecHdrTimeFormat::Ch4,
            1 => SecHdrTimeFormat::Ieee1588,
            2 => SecHdrTimeFormat::Ertc,
            other => SecHdrTimeFormat::Reserved(other),
        }
    }
}

/// Parsed secondary header time value.
#[derive(Debug, Clone, Copy, PartialEq, Eq, Structural)]
pub enum SecondaryHeaderTime {
    /// Chapter 4 Binary Weighted Time.
    Ch4(Ch4BinaryTime),
    /// IEEE-1588 time.
    Ieee1588(Ieee1588Time),
    /// 64-bit Extended RTC.
    Ertc(Ertc),
}

/// The 16-bit little-endian word at byte offset `2 * k`.
pub open spec fn header_word(buf: Seq<u8>, k: int) -> int {
    le16(buf[2 * k], buf[2 * k + 1])
}

/// The checksum of a secondary header: the 16-bit sum of the first five words.
pub open spec fn spec_checksum(buf: Seq<u8>) -> u16 {
    ((header_word(buf, 0) + header_word(buf, 1) + header_word(buf, 2) + header_word(buf, 3)
        + header_word(buf, 4)) % 0x1_0000) as u16
}

/// What `validate_secondary_checksum` returns: the stored word at bytes 10..12 must equal
/// the checksum.
pub open spec fn spec_checksum_result(buf: Seq<u8>) -> Result<()> {
    if buf.len() < 12 {
        Err(TimeError::BufferTooShort { expected: 12, actual: buf.len() as usize })
    } else if header_word(buf, 5) != spec_checksum(buf) {
        Err(
            TimeError::ChecksumMismatch {
                stored: header_word(buf, 5) as u16,
                computed: spec_checksum(buf),
            },
        )
    } else {
        Ok(())
    }
}

/// A secondary header of at least 12 bytes passes validation exactly when the word stored
/// at bytes 10..12 equals the sum of the five little-endian words at bytes 0..10, modulo
/// 2^16; otherwise the mismatch reports the stored word and that sum.
pub proof fn lemma_checksum_law(buf: Seq<u8>)
    ensures
        buf.len() >= 12 ==> {
            let stored = buf[10] + 0x100 * buf[11];
            let sum = (buf[0] + 0x100 * buf[1] + buf[2] + 0x100 * buf[3] + buf[4] + 0x100 * buf[5]
                + buf[6] + 0x100 * buf[7] + buf[8] + 0x100 * buf[9]) % 0x1_0000;
            &&& spec_checksum_result(buf) is Ok <==> stored == sum
            &&& stored != sum ==> spec_checksum_result(buf) == Err::<(), TimeError>(
                TimeError::ChecksumMismatch { stored: stored as u16, computed: sum as u16 },
            )
        },
{
}

/// Validate the 16-bit secondary header checksum.
pub fn validate_secondary_checksum(buf: &[u8]) -> (r: Result<()>)
    ensures
        r == spec_checksum_result(buf@),
        buf@.len() < 12 ==> r == Err::<(), TimeError>(
            TimeError::BufferTooShort { expected: 12, actual: buf@.len() as usize },
        ),
        buf@.len() >= 12 ==> (r is Ok <==> buf@[10] + 0x100 * buf@[11] == (buf@[0] + 0x100
            * buf@[1] + buf@[2] + 0x100 * buf@[3] + buf@[4] + 0x100 * buf@[5] + buf@[6] + 0x100
            * buf@[7] + buf@[8] + 0x100 * buf@[9]) % 0x1_0000),
{
    proof {
        lemma_checksum_law(buf@);
    }
    if buf.len() < 12 {
        return Err(TimeError::BufferTooShort { expected: 12, actual: buf.len() });
    }
    let mut sum: u32 = 0;
    let mut i: usize = 0;
    while i < 5
        invariant
            buf@.len() >= 12,
            i <= 5,
            sum == (if i > 0 {
                header_word(buf@, 0)
            } else {
                0
            }) + (if i > 1 {
                header_word(buf@, 1)
            } else {
                0
            }) + (if i > 2 {
                header_word(buf@, 2)
            } else {
                0
            }) + (if i > 3 {
                header_word(buf@, 3)
            } else {
                0
            }) + (if i > 4 {
                header_word(buf@, 4)
            } else {
                0
            }),
        decreases 5 - i,
    {
        let word = u16_from_le(buf[i * 2], buf[i * 2 + 1]);
        assert(word == header_word(buf@, i as int));
        sum = sum + word as u32;
        i = i + 1;
    }
    let computed = (sum % 0x1_0000) as u16;
    let stored = u16_from_le(buf[10], buf[11]);
    if computed != stored {
        Err(TimeError::ChecksumMismatch { stored, computed })
    } else {
        Ok(())
    }
}

/// Parse a 12-byte secondary header into a typed time value, checking the checksum first.
pub fn parse_secondary_header(buf: &[u8], fmt: SecHdrTimeFormat) -> (r: Result<
    SecondaryHeaderTime,
>)
    ensures
        spec_checksum_result(buf@) is Err ==> r == Err::<SecondaryHeaderTime, TimeError>(
            spec_checksum_result(buf@)->Err_0,
        ),
        spec_checksum_result(buf@) is Ok ==> match fmt {
            SecHdrTimeFormat::Ch4 => r == Ok::<SecondaryHeaderTime, TimeError>(
                SecondaryHeaderTime::Ch4(spec_ch4_from_bytes(buf@)->Ok_0),
            ),
            SecHdrTimeFormat::Ieee1588 => match spec_ieee1588_from_bytes(buf@) {
                Ok(t) => r == Ok::<SecondaryHeaderTime, TimeError>(
                    SecondaryHeaderTime::Ieee1588(t),
                ),
                Err(e) => r == Err::<SecondaryHeaderTime, TimeError>(e),
            },
            SecHdrTimeFormat::Ertc => r matches Ok(SecondaryHeaderTime::Ertc(e)) && e.raw()
                == le64_at(buf@, 0),
            SecHdrTimeFormat::Reserved(v) => r == Err::<SecondaryHeaderTime, TimeError>(
                TimeError::OutOfRange {
                    field: "secondary_header_time_format",
                    value: v as u32,
                    max: 2,
                },
            ),
        },
{
    if buf.len() < 12 {
        return Err(TimeError::BufferTooShort { expected: 12, actual: buf.len() });
    }
    validate_secondary_checksum(buf)?;
    match fmt {
        SecHdrTimeFormat::Ch4 => {
            let ch4 = Ch4BinaryTime::from_secondary_bytes(buf)?;
            Ok(SecondaryHeaderTime::Ch4(ch4))
        },
        SecHdrTimeFormat::Ieee1588 => {
            let t = Ieee1588Time::from_le_bytes(buf)?;
            Ok(SecondaryHeaderTime::Ieee1588(t))
        },
        SecHdrTimeFormat::Ertc => {
            let e = Ertc::from_le_bytes(buf)?;
            Ok(SecondaryHeaderTime::Ertc(e))
        },
        SecHdrTimeFormat::Reserved(v) => Err(
            TimeError::OutOfRange {
                field: "secondary_header_time_format",
                value: v as u32,
                max: 2,
            },
        ),
    }
}

} // verus!
