//! BCD-encoded time message decoding for IRIG 106 Time Data Format 1.
//!
//! Decodes the Day-of-Year (DOY) and Day-Month-Year (DMY) format time messages found in
//! Time Data Format 1 (0x11) packets after the channel-specific data word.

use vstd::prelude::*;
use crate::absolute::{le16, u16_from_le, AbsoluteTime, CalendarTime};
use crate::error::{Result, TimeError};
use crate::util::{days_in_month, month_day_to_doy, spec_days_in_month, spec_month_day_to_doy};

verus! {

/// The 4-bit field of `word` that starts at bit `shift`.
pub open spec fn nibble(word: u16, shift: u16) -> u8 {
    ((word >> shift) & 0x0F) as u8
}

/// The 16-bit little-endian word at byte offset `2 * k` of a buffer.
pub open spec fn word_at(buf: Seq<u8>, k: int) -> u16 {
    le16(buf[2 * k], buf[2 * k + 1]) as u16
}

/// Extract a 4-bit field from a word and validate it as a BCD digit.
fn extract_bcd_digit(word: u16, bit_offset: u16, position: &'static str) -> (r: Result<u8>)
    requires
        bit_offset < 16,
    ensures
        r == if nibble(word, bit_offset) > 9 {
            Err::<u8, TimeError>(
                TimeError::InvalidBcdDigit { nibble: nibble(word, bit_offset), position },
            )
        } else {
            Ok::<u8, TimeError>(nibble(word, bit_offset))
        },
{
    let nibble = ((word >> bit_offset) & 0x0F) as u8;
    if nibble > 9 {
        return Err(TimeError::InvalidBcdDigit { nibble, position });
    }
    Ok(nibble)
}

/// Verify that the bits of `mask` are zero in `word`.
fn check_reserved(word: u16, mask: u16, position: &'static str) -> (r: Result<()>)
    ensures
        r == if word & mask != 0 {
            Err::<(), TimeError>(TimeError::ReservedBitSet { position })
        } else {
            Ok::<(), TimeError>(())
        },
{
    if word & mask != 0 {
        Err(TimeError::ReservedBitSet { position })
    } else {
        Ok(())
    }
}

// ---------------------------------------------------------------------------
// Time-of-day words shared by both formats
// ---------------------------------------------------------------------------

/// Tens of seconds: the 3-bit field at bits 12-14 of word 0.
pub open spec fn tens_of_seconds(w0: u16) -> u8 {
    ((w0 >> 12) & 0x07) as u8
}

/// Tens of minutes: the 3-bit field at bits 4-6 of word 1.
pub open spec fn tens_of_minutes(w1: u16) -> u8 {
    ((w1 >> 4) & 0x07) as u8
}

/// Tens of hours: the 2-bit field at bits 12-13 of word 1.
pub open spec fn tens_of_hours(w1: u16) -> u8 {
    ((w1 >> 12) & 0x03) as u8
}

/// The first digit error in the time-of-day words (milliseconds, seconds, minutes, units of
/// hours), in wire order.
pub open spec fn clock_digit_error(w0: u16, w1: u16) -> Option<TimeError> {
    if nibble(w0, 0) > 9 {
        Some(TimeError::InvalidBcdDigit { nibble: nibble(w0, 0), position: "tens_of_ms" })
    } else if nibble(w0, 4) > 9 {
        Some(TimeError::InvalidBcdDigit { nibble: nibble(w0, 4), position: "hundreds_of_ms" })
    } else if nibble(w0, 8) > 9 {
        Some(TimeError::InvalidBcdDigit { nibble: nibble(w0, 8), position: "units_of_seconds" })
    } else if tens_of_seconds(w0) > 5 {
        Some(
            TimeError::InvalidBcdDigit { nibble: tens_of_seconds(w0), position: "tens_of_seconds" },
        )
    } else if nibble(w1, 0) > 9 {
        Some(TimeError::InvalidBcdDigit { nibble: nibble(w1, 0), position: "units_of_minutes" })
    } else if tens_of_minutes(w1) > 5 {
        Some(
            TimeError::InvalidBcdDigit { nibble: tens_of_minutes(w1), position: "tens_of_minutes" },
        )
    } else if nibble(w1, 8) > 9 {
        Some(TimeError::InvalidBcdDigit { nibble: nibble(w1, 8), position: "units_of_hours" })
    } else {
        None
    }
}

/// Milliseconds from word 0 (10 ms resolution).
pub open spec fn clock_ms(w0: u16) -> u16 {
    (nibble(w0, 4) * 100 + nibble(w0, 0) * 10) as u16
}

/// Seconds from word 0.
pub open spec fn clock_seconds(w0: u16) -> u8 {
    (tens_of_seconds(w0) * 10 + nibble(w0, 8)) as u8
}

/// Minutes from word 1.
pub open spec fn clock_minutes(w1: u16) -> u8 {
    (tens_of_minutes(w1) * 10 + nibble(w1, 0)) as u8
}

/// Hours from word 1.
pub open spec fn clock_hours(w1: u16) -> u8 {
    (tens_of_hours(w1) * 10 + nibble(w1, 8)) as u8
}

/// Decoded time of day: (milliseconds, seconds, minutes, hours), or the first digit error.
fn decode_clock(w0: u16, w1: u16) -> (r: Result<(u16, u8, u8, u8)>)
    ensures
        match clock_digit_error(w0, w1) {
            Some(e) => r == Err::<(u16, u8, u8, u8), TimeError>(e),
            None => r == Ok::<(u16, u8, u8, u8), TimeError>(
                (clock_ms(w0), clock_seconds(w0), clock_minutes(w1), clock_hours(w1)),
            ),
        },
        r is Ok ==> r->Ok_0.1 <= 59 && r->Ok_0.2 <= 59,
{
    let tmn = extract_bcd_digit(w0, 0, "tens_of_ms")?;
    let hmn = extract_bcd_digit(w0, 4, "hundreds_of_ms")?;
    let milliseconds = (hmn as u16) * 100 + (tmn as u16) * 10;
    let sn = extract_bcd_digit(w0, 8, "units_of_seconds")?;
    let tsn = ((w0 >> 12) & 0x07) as u8;
    if tsn > 5 {
        return Err(TimeError::InvalidBcdDigit { nibble: tsn, position: "tens_of_seconds" });
    }
    let seconds = tsn * 10 + sn;
    let mn = extract_bcd_digit(w1, 0, "units_of_minutes")?;
    let tmn_min = ((w1 >> 4) & 0x07) as u8;
    if tmn_min > 5 {
        return Err(TimeError::InvalidBcdDigit { nibble: tmn_min, position: "tens_of_minutes" });
    }
    let minutes = tmn_min * 10 + mn;
    let hn = extract_bcd_digit(w1, 8, "units_of_hours")?;
    let thn = ((w1 >> 12) & 0x03) as u8;
    proof {
        assert(((w1 >> 12u16) & 0x03u16) <= 3) by (bit_vector);
    }
    let hours = thn * 10 + hn;
    Ok((milliseconds, seconds, minutes, hours))
}

// ---------------------------------------------------------------------------
// Day-of-Year Format
// ---------------------------------------------------------------------------

/// Decoded Day-of-Year format time message (8 bytes).
#[derive(Debug, Clone, Copy, PartialEq, Eq, Structural)]
pub struct DayFormatTime {
    /// Milliseconds (0-990, resolution 10 ms).
    pub milliseconds: u16,
    /// Seconds (0-59).
    pub seconds: u8,
    /// Minutes (0-59).
    pub minutes: u8,
    /// Hours (0-23).
    pub hours: u8,
    /// Day of year (1-366).
    pub day_of_year: u16,
}

/// Day of year from word 2 of the day-of-year format.
pub open spec fn day_format_doy(w2: u16) -> u16 {
    (((w2 >> 8) & 0x03) * 100 + nibble(w2, 4) * 10 + nibble(w2, 0)) as u16
}

/// What `DayFormatTime::from_le_bytes` returns for a buffer.
///
/// Word 0: `[3:0]` tens of ms, `[7:4]` hundreds of ms, `[11:8]` units of seconds,
/// `[14:12]` tens of seconds, `[15]` reserved.
/// Word 1: `[3:0]` units of minutes, `[6:4]` tens of minutes, `[7]` reserved,
/// `[11:8]` units of hours, `[13:12]` tens of hours, `[15:14]` reserved.
/// Word 2: `[3:0]` units of day, `[7:4]` tens of day, `[9:8]` hundreds of day,
/// `[15:10]` reserved. Word 3: reserved, not checked.
pub open spec fn spec_day_from_bytes(buf: Seq<u8>) -> Result<DayFormatTime> {
    if buf.len() < 8 {
        Err(TimeError::BufferTooShort { expected: 8, actual: buf.len() as usize })
    } else {
        let w0 = word_at(buf, 0);
        let w1 = word_at(buf, 1);
        let w2 = word_at(buf, 2);
        let doy = day_format_doy(w2);
        if w0 & 0x8000 != 0 {
            Err(TimeError::ReservedBitSet { position: "day_fmt word0 bit15" })
        } else if w1 & 0xC080 != 0 {
            Err(TimeError::ReservedBitSet { position: "day_fmt word1 bits[15:14,7]" })
        } else if w2 & 0xFC00 != 0 {
            Err(TimeError::ReservedBitSet { position: "day_fmt word2 bits[15:10]" })
        } else if clock_digit_error(w0, w1) is Some {
            Err(clock_digit_error(w0, w1)->0)
        } else if nibble(w2, 0) > 9 {
            Err(TimeError::InvalidBcdDigit { nibble: nibble(w2, 0), position: "units_of_day" })
        } else if nibble(w2, 4) > 9 {
            Err(TimeError::InvalidBcdDigit { nibble: nibble(w2, 4), position: "tens_of_day" })
        } else if clock_hours(w1) > 23 {
            Err(TimeError::OutOfRange { field: "hours", value: clock_hours(w1) as u32, max: 23 })
        } else if doy == 0 || doy > 366 {
            Err(TimeError::OutOfRange { field: "day_of_year", value: doy as u32, max: 366 })
        } else {
            Ok(
                DayFormatTime {
                    milliseconds: clock_ms(w0),
                    seconds: clock_seconds(w0),
                    minutes: clock_minutes(w1),
                    hours: clock_hours(w1),
                    day_of_year: doy,
                },
            )
        }
    }
}

/// Word 0 of both formats: milliseconds and seconds as BCD digits.
pub open spec fn clock_word0(milliseconds: u16, seconds: u8) -> u16 {
    (((milliseconds / 10) % 10) | ((milliseconds / 100) << 4) | (((seconds % 10) as u16) << 8)
        | (((seconds / 10) as u16) << 12)) as u16
}

/// Word 1 of both formats: minutes and hours as BCD digits.
pub open spec fn clock_word1(minutes: u8, hours: u8) -> u16 {
    ((((minutes % 10) as u16) | (((minutes / 10) as u16) << 4) | (((hours % 10) as u16) << 8) | (((
    hours / 10) as u16) << 12))) as u16
}

/// The four words that `DayFormatTime::to_le_bytes` writes.
pub open spec fn day_format_words(t: DayFormatTime) -> (u16, u16, u16, u16) {
    let w2 = ((t.day_of_year % 10) | (((t.day_of_year / 10) % 10) << 4) | (((t.day_of_year / 100)
        % 10) << 8)) as u16;
    (clock_word0(t.milliseconds, t.seconds), clock_word1(t.minutes, t.hours), w2, 0u16)
}

/// The little-endian bytes of a sequence of words.
pub open spec fn words_to_bytes(words: Seq<u16>) -> Seq<u8> {
    Seq::new(2 * words.len(), |i: int| if i % 2 == 0 {
        (words[i / 2] % 0x100) as u8
    } else {
        (words[i / 2] / 0x100) as u8
    })
}

/// A day-of-year time that the wire format can carry exactly.
pub open spec fn day_format_encodable(t: DayFormatTime) -> bool {
    &&& t.milliseconds <= 990
    &&& t.milliseconds % 10 == 0
    &&& t.seconds <= 59
    &&& t.minutes <= 59
    &&& t.hours <= 23
    &&& 1 <= t.day_of_year <= 366
}

/// The absolute time of a decoded day-of-year message.
pub open spec fn spec_day_to_absolute(t: DayFormatTime) -> AbsoluteTime {
    AbsoluteTime {
        day_of_year: t.day_of_year,
        hours: t.hours,
        minutes: t.minutes,
        seconds: t.seconds,
        nanoseconds: (t.milliseconds * 1_000_000) as u32,
        month: None,
        day_of_month: None,
        year: None,
    }
}

fn word_bytes(w: u16) -> (r: (u8, u8))
    ensures
        r.0 == w % 0x100,
        r.1 == w / 0x100,
        le16(r.0, r.1) == w,
{
    ((w % 0x100) as u8, (w / 0x100) as u8)
}

impl DayFormatTime {
    /// Parse from 8 little-endian bytes (4 x u16 words).
    pub fn from_le_bytes(buf: &[u8]) -> (r: Result<Self>)
        ensures
            r == spec_day_from_bytes(buf@),
    {
        if buf.len() < 8 {
            return Err(TimeError::BufferTooShort { expected: 8, actual: buf.len() });
        }
        let w0 = u16_from_le(buf[0], buf[1]);
        let w1 = u16_from_le(buf[2], buf[3]);
        let w2 = u16_from_le(buf[4], buf[5]);
        check_reserved(w0, 0x8000, "day_fmt word0 bit15")?;
        check_reserved(w1, 0xC080, "day_fmt word1 bits[15:14,7]")?;
        check_reserved(w2, 0xFC00, "day_fmt word2 bits[15:10]")?;
        let (milliseconds, seconds, minutes, hours) = decode_clock(w0, w1)?;
        let dn = extract_bcd_digit(w2, 0, "units_of_day")?;
        let tdn = extract_bcd_digit(w2, 4, "tens_of_day")?;
        let hdn = ((w2 >> 8) & 0x03) as u8;
        proof {
            assert(((w2 >> 8u16) & 0x03u16) <= 3) by (bit_vector);
        }
        let day_of_year = (hdn as u16) * 100 + (tdn as u16) * 10 + (dn as u16);
        if seconds > 59 {
            return Err(TimeError::OutOfRange { field: "seconds", value: seconds as u32, max: 59 });
        }
        if minutes > 59 {
            return Err(TimeError::OutOfRange { field: "minutes", value: minutes as u32, max: 59 });
        }
        if hours > 23 {
            return Err(TimeError::OutOfRange { field: "hours", value: hours as u32, max: 23 });
        }
        if day_of_year == 0 || day_of_year > 366 {
            return Err(
                TimeError::OutOfRange {
                    field: "day_of_year",
                    value: day_of_year as u32,
                    max: 366,
                },
            );
        }
        Ok(DayFormatTime { milliseconds, seconds, minutes, hours, day_of_year })
    }

    /// Convert to `AbsoluteTime` (no year, month or day of month).
    pub fn to_absolute(&self) -> (r: AbsoluteTime)
        requires
            self.milliseconds <= 4294,
        ensures
            r == spec_day_to_absolute(*self),
    {
        AbsoluteTime {
            day_of_year: self.day_of_year,
            hours: self.hours,
            minutes: self.minutes,
            seconds: self.seconds,
            nanoseconds: (self.milliseconds as u32) * 1_000_000,
            month: None,
            day_of_month: None,
            year: None,
        }
    }

    /// Encode as 8 little-endian bytes in the BCD day-of-year wire format (word 3 zero).
    pub fn to_le_bytes(&self) -> (b: [u8; 8])
        ensures
            b@ == words_to_bytes(
                seq![
                    day_format_words(*self).0,
                    day_format_words(*self).1,
                    day_format_words(*self).2,
                    day_format_words(*self).3,
                ],
            ),
    {
        let ms_tens = (self.milliseconds / 10) % 10;
        let ms_hundreds = self.milliseconds / 100;
        let sec_units = self.seconds % 10;
        let sec_tens = self.seconds / 10;
        let w0: u16 = ms_tens | (ms_hundreds << 4) | ((sec_units as u16) << 8) | ((
        sec_tens as u16) << 12);
        let min_units = self.minutes % 10;
        let min_tens = self.minutes / 10;
        let hr_units = self.hours % 10;
        let hr_tens = self.hours / 10;
        let w1: u16 = (min_units as u16) | ((min_tens as u16) << 4) | ((hr_units as u16) << 8)
            | ((hr_tens as u16) << 12);
        let day_units = self.day_of_year % 10;
        let day_tens = (self.day_of_year / 10) % 10;
        let day_hundreds = (self.day_of_year / 100) % 10;
        let w2: u16 = day_units | (day_tens << 4) | (day_hundreds << 8);
        let w3: u16 = 0;
        let (a0, a1) = word_bytes(w0);
        let (b0, b1) = word_bytes(w1);
        let (c0, c1) = word_bytes(w2);
        let (d0, d1) = word_bytes(w3);
        let buf = [a0, a1, b0, b1, c0, c1, d0, d1];
        assert(buf@ =~= words_to_bytes(seq![w0, w1, w2, w3]));
        buf
    }
}

/// Packing four digits into a word and reading them back.
proof fn lemma_pack_digits(a: u16, b: u16, c: u16, d: u16)
    requires
        a < 16,
        b < 16,
        c < 16,
        d < 16,
    ensures
        ({
            let w = a | (b << 4) | (c << 8) | (d << 12);
            &&& (w >> 0) & 0x0F == a
            &&& (w >> 4) & 0x0F == b
            &&& (w >> 8) & 0x0F == c
            &&& (w >> 12) & 0x0F == d
            &&& (w >> 4) & 0x07 == b % 8
            &&& (w >> 12) & 0x07 == d % 8
            &&& (w >> 12) & 0x03 == d % 4
            &&& (w >> 12) & 0x01 == d % 2
            &&& (w >> 8) & 0x03 == c % 4
            &&& (d < 8 ==> w & 0x8000 == 0)
            &&& (b < 8 && d < 4 ==> w & 0xC080 == 0)
            &&& (c < 4 && d == 0 ==> w & 0xFC00 == 0)
            &&& (d < 2 ==> w & 0xE000 == 0)
            &&& (d < 4 ==> w & 0xC000 == 0)
        }),
{
    assert(a < 16 && b < 16 && c < 16 && d < 16 ==> {
        let w = a | (b << 4) | (c << 8) | (d << 12);
        &&& (w >> 0) & 0x0F == a
        &&& (w >> 4) & 0x0F == b
        &&& (w >> 8) & 0x0F == c
        &&& (w >> 12) & 0x0F == d
        &&& (w >> 4) & 0x07 == b % 8
        &&& (w >> 12) & 0x07 == d % 8
        &&& (w >> 12) & 0x03 == d % 4
        &&& (w >> 12) & 0x01 == d % 2
        &&& (w >> 8) & 0x03 == c % 4
        &&& (d < 8 ==> w & 0x8000 == 0)
        &&& (b < 8 && d < 4 ==> w & 0xC080 == 0)
        &&& (c < 4 && d == 0 ==> w & 0xFC00 == 0)
        &&& (d < 2 ==> w & 0xE000 == 0)
        &&& (d < 4 ==> w & 0xC000 == 0)
    }) by (bit_vector);
}

/// Reading back the words of `words_to_bytes`.
proof fn lemma_word_at_words_to_bytes(words: Seq<u16>, k: int)
    requires
        0 <= k < words.len(),
    ensures
        word_at(words_to_bytes(words), k) == words[k],
        words_to_bytes(words).len() == 2 * words.len(),
{
    let b = words_to_bytes(words);
    assert((2 * k) / 2 == k);
    assert((2 * k + 1) / 2 == k);
    assert((2 * k) % 2 == 0);
    assert((2 * k + 1) % 2 == 1);
}

/// Encoding a day-of-year time and decoding the bytes gives back the same time, for every
/// time that the wire format can carry.
#[verifier::spinoff_prover]
#[verifier::rlimit(60)]
pub proof fn lemma_day_format_round_trip(t: DayFormatTime)
    requires
        day_format_encodable(t),
    ensures
        ({
            let w = day_format_words(t);
            spec_day_from_bytes(words_to_bytes(seq![w.0, w.1, w.2, w.3])) == Ok::<
                DayFormatTime,
                TimeError,
            >(t)
        }),
{
    let w = day_format_words(t);
    let words = seq![w.0, w.1, w.2, w.3];
    let buf = words_to_bytes(words);
    lemma_word_at_words_to_bytes(words, 0);
    lemma_word_at_words_to_bytes(words, 1);
    lemma_word_at_words_to_bytes(words, 2);
    let ms = t.milliseconds;
    lemma_pack_digits((ms / 10) % 10, ms / 100, (t.seconds % 10) as u16, (t.seconds / 10) as u16);
    lemma_pack_digits(
        (t.minutes % 10) as u16,
        (t.minutes / 10) as u16,
        (t.hours % 10) as u16,
        (t.hours / 10) as u16,
    );
    lemma_pack_digits(t.day_of_year % 10, (t.day_of_year / 10) % 10, (t.day_of_year / 100) % 10, 0);
    let (du, dt, dh) = (t.day_of_year % 10, (t.day_of_year / 10) % 10, (t.day_of_year / 100) % 10);
    assert(du | (dt << 4) | (dh << 8) == du | (dt << 4) | (dh << 8) | (0u16 << 12)) by (bit_vector);
    assert(word_at(buf, 0) == w.0);
    assert(word_at(buf, 1) == w.1);
    assert(word_at(buf, 2) == w.2);
    let k = ms / 10;
    assert(ms == 10 * k);
    assert(ms / 100 == k / 10);
    assert((ms / 10) % 10 == k % 10);
    assert(clock_ms(w.0) == ms);
    assert(clock_seconds(w.0) == t.seconds);
    assert(clock_minutes(w.1) == t.minutes);
    assert(clock_hours(w.1) == t.hours);
    assert(day_format_doy(w.2) == t.day_of_year);
    assert(w.0 & 0x8000 == 0);
    assert(w.1 & 0xC080 == 0);
    assert(w.2 & 0xFC00 == 0);
    assert(clock_digit_error(w.0, w.1) is None);
}

// ---------------------------------------------------------------------------
// Day-Month-Year Format
// ---------------------------------------------------------------------------

/// Decoded Day-Month-Year format time message (10 bytes).
#[derive(Debug, Clone, Copy, PartialEq, Eq, Structural)]
pub struct DmyFormatTime {
    /// Milliseconds (0-990, resolution 10 ms).
    pub milliseconds: u16,
    /// Seconds (0-59).
    pub seconds: u8,
    /// Minutes (0-59).
    pub minutes: u8,
    /// Hours (0-23).
    pub hours: u8,
    /// Day of month (1-31).
    pub day: u8,
    /// Month (1-12).
    pub month: u8,
    /// Year (0-9999).
    pub year: u16,
}

/// Day of month from word 2 of the day-month-year format.
pub open spec fn dmy_day(w2: u16) -> u8 {
    (nibble(w2, 4) * 10 + nibble(w2, 0)) as u8
}

/// Month from word 2 of the day-month-year format.
pub open spec fn dmy_month(w2: u16) -> u8 {
    (((w2 >> 12) & 0x01) * 10 + nibble(w2, 8)) as u8
}

/// Year from word 3 of the day-month-year format.
pub open spec fn dmy_year(w3: u16) -> u16 {
    (((w3 >> 12) & 0x03) * 1000 + nibble(w3, 8) * 100 + nibble(w3, 4) * 10 + nibble(w3, 0)) as u16
}

/// What `DmyFormatTime::from_le_bytes` returns for a buffer.
///
/// Words 0-1: as in the day-of-year format.
/// Word 2: `[3:0]` units of day, `[7:4]` tens of day, `[11:8]` units of month,
/// `[12]` tens of month, `[15:13]` reserved.
/// Word 3: `[3:0]` units of year, `[7:4]` tens of year, `[11:8]` hundreds of year,
/// `[13:12]` thousands of year, `[15:14]` reserved. Word 4: reserved, not checked.
/// The day must exist in its month (leap-aware).
pub open spec fn spec_dmy_from_bytes(buf: Seq<u8>) -> Result<DmyFormatTime> {
    if buf.len() < 10 {
        Err(TimeError::BufferTooShort { expected: 10, actual: buf.len() as usize })
    } else {
        let w0 = word_at(buf, 0);
        let w1 = word_at(buf, 1);
        let w2 = word_at(buf, 2);
        let w3 = word_at(buf, 3);
        let day = dmy_day(w2);
        let month = dmy_month(w2);
        let year = dmy_year(w3);
        let max_day = spec_days_in_month(year as int, month as int);
        if w0 & 0x8000 != 0 {
            Err(TimeError::ReservedBitSet { position: "dmy_fmt word0 bit15" })
        } else if w1 & 0xC080 != 0 {
            Err(TimeError::ReservedBitSet { position: "dmy_fmt word1 bits[15:14,7]" })
        } else if w2 & 0xE000 != 0 {
            Err(TimeError::ReservedBitSet { position: "dmy_fmt word2 bits[15:13]" })
        } else if w3 & 0xC000 != 0 {
            Err(TimeError::ReservedBitSet { position: "dmy_fmt word3 bits[15:14]" })
        } else if clock_digit_error(w0, w1) is Some {
            Err(clock_digit_error(w0, w1)->0)
        } else if nibble(w2, 0) > 9 {
            Err(TimeError::InvalidBcdDigit { nibble: nibble(w2, 0), position: "units_of_day" })
        } else if nibble(w2, 4) > 9 {
            Err(TimeError::InvalidBcdDigit { nibble: nibble(w2, 4), position: "tens_of_day" })
        } else if nibble(w2, 8) > 9 {
            Err(TimeError::InvalidBcdDigit { nibble: nibble(w2, 8), position: "units_of_month" })
        } else if nibble(w3, 0) > 9 {
            Err(TimeError::InvalidBcdDigit { nibble: nibble(w3, 0), position: "units_of_year" })
        } else if nibble(w3, 4) > 9 {
            Err(TimeError::InvalidBcdDigit { nibble: nibble(w3, 4), position: "tens_of_year" })
        } else if nibble(w3, 8) > 9 {
            Err(TimeError::InvalidBcdDigit { nibble: nibble(w3, 8), position: "hundreds_of_year" })
        } else if clock_hours(w1) > 23 {
            Err(TimeError::OutOfRange { field: "hours", value: clock_hours(w1) as u32, max: 23 })
        } else if day == 0 || day > 31 {
            Err(TimeError::OutOfRange { field: "day", value: day as u32, max: 31 })
        } else if month == 0 || month > 12 {
            Err(TimeError::OutOfRange { field: "month", value: month as u32, max: 12 })
        } else if day > max_day {
            Err(TimeError::OutOfRange { field: "day", value: day as u32, max: max_day as u32 })
        } else {
            Ok(
                DmyFormatTime {
                    milliseconds: clock_ms(w0),
                    seconds: clock_seconds(w0),
                    minutes: clock_minutes(w1),
                    hours: clock_hours(w1),
                    day,
                    month,
                    year,
                },
            )
        }
    }
}

/// The five words that `DmyFormatTime::to_le_bytes` writes.
pub open spec fn dmy_format_words(t: DmyFormatTime) -> (u16, u16, u16, u16, u16) {
    let w2 = ((((t.day % 10) as u16) | ((((t.day / 10) % 10) as u16) << 4) | (((t.month % 10)
        as u16) << 8) | ((((t.month / 10) % 10) as u16) << 12))) as u16;
    let w3 = ((t.year % 10) | (((t.year / 10) % 10) << 4) | (((t.year / 100) % 10) << 8) | (((
    t.year / 1000) % 10) << 12)) as u16;
    (clock_word0(t.milliseconds, t.seconds), clock_word1(t.minutes, t.hours), w2, w3, 0u16)
}

/// A day-month-year time that the wire format can carry exactly.
pub open spec fn dmy_format_encodable(t: DmyFormatTime) -> bool {
    &&& t.milliseconds <= 990
    &&& t.milliseconds % 10 == 0
    &&& t.seconds <= 59
    &&& t.minutes <= 59
    &&& t.hours <= 23
    &&& 1 <= t.month <= 12
    &&& 1 <= t.day <= spec_days_in_month(t.year as int, t.month as int)
    &&& t.year <= 3999
}

/// The absolute time of a decoded day-month-year message: the day of year is computed from
/// the date, and the year, month and day of month are carried along.
pub open spec fn spec_dmy_to_absolute(t: DmyFormatTime) -> AbsoluteTime {
    AbsoluteTime {
        day_of_year: spec_month_day_to_doy(t.year as int, t.month as int, t.day as int) as u16,
        hours: t.hours,
        minutes: t.minutes,
        seconds: t.seconds,
        nanoseconds: (t.milliseconds * 1_000_000) as u32,
        month: Some(t.month),
        day_of_month: Some(t.day),
        year: Some(t.year),
    }
}

impl DmyFormatTime {
    /// Parse from 10 little-endian bytes (5 x u16 words).
    pub fn from_le_bytes(buf: &[u8]) -> (r: Result<Self>)
        ensures
            r == spec_dmy_from_bytes(buf@),
    {
        if buf.len() < 10 {
            return Err(TimeError::BufferTooShort { expected: 10, actual: buf.len() });
        }
        let w0 = u16_from_le(buf[0], buf[1]);
        let w1 = u16_from_le(buf[2], buf[3]);
        let w2 = u16_from_le(buf[4], buf[5]);
        let w3 = u16_from_le(buf[6], buf[7]);
        check_reserved(w0, 0x8000, "dmy_fmt word0 bit15")?;
        check_reserved(w1, 0xC080, "dmy_fmt word1 bits[15:14,7]")?;
        check_reserved(w2, 0xE000, "dmy_fmt word2 bits[15:13]")?;
        check_reserved(w3, 0xC000, "dmy_fmt word3 bits[15:14]")?;
        let (milliseconds, seconds, minutes, hours) = decode_clock(w0, w1)?;
        let dn = extract_bcd_digit(w2, 0, "units_of_day")?;
        let tdn = extract_bcd_digit(w2, 4, "tens_of_day")?;
        let day = tdn * 10 + dn;
        let on = extract_bcd_digit(w2, 8, "units_of_month")?;
        let ton = ((w2 >> 12) & 0x01) as u8;
        proof {
            assert(((w2 >> 12u16) & 0x01u16) <= 1) by (bit_vector);
        }
        let month = ton * 10 + on;
        let yn = extract_bcd_digit(w3, 0, "units_of_year")?;
        let tyn = extract_bcd_digit(w3, 4, "tens_of_year")?;
        let hyn = extract_bcd_digit(w3, 8, "hundreds_of_year")?;
        let oyn = ((w3 >> 12) & 0x03) as u8;
        proof {
            assert(((w3 >> 12u16) & 0x03u16) <= 3) by (bit_vector);
        }
        let year = (oyn as u16) * 1000 + (hyn as u16) * 100 + (tyn as u16) * 10 + (yn as u16);
        if seconds > 59 {
            return Err(TimeError::OutOfRange { field: "seconds", value: seconds as u32, max: 59 });
        }
        if minutes > 59 {
            return Err(TimeError::OutOfRange { field: "minutes", value: minutes as u32, max: 59 });
        }
        if hours > 23 {
            return Err(TimeError::OutOfRange { field: "hours", value: hours as u32, max: 23 });
        }
        if day == 0 || day > 31 {
            return Err(TimeError::OutOfRange { field: "day", value: day as u32, max: 31 });
        }
        if month == 0 || month > 12 {
            return Err(TimeError::OutOfRange { field: "month", value: month as u32, max: 12 });
        }
        let max_day = days_in_month(year, month);
        if day > max_day {
            return Err(TimeError::OutOfRange { field: "day", value: day as u32, max: max_day as u32 });
        }
        Ok(DmyFormatTime { milliseconds, seconds, minutes, hours, day, month, year })
    }

    /// Convert to `AbsoluteTime` with the full date.
    pub fn to_absolute(&self) -> (r: AbsoluteTime)
        requires
            self.milliseconds <= 4294,
        ensures
            r == spec_dmy_to_absolute(*self),
    {
        let doy = month_day_to_doy(self.year, self.month, self.day);
        AbsoluteTime {
            day_of_year: doy,
            hours: self.hours,
            minutes: self.minutes,
            seconds: self.seconds,
            nanoseconds: (self.milliseconds as u32) * 1_000_000,
            month: Some(self.month),
            day_of_month: Some(self.day),
            year: Some(self.year),
        }
    }

    /// Convert to `CalendarTime`: the absolute time of `to_absolute` with this message's
    /// month and day. The date is taken as decoded, without further checks.
    pub fn to_calendar_time(&self) -> (r: CalendarTime)
        requires
            self.milliseconds <= 4294,
        ensures
            r.inner() == spec_dmy_to_absolute(*self),
            r.spec_month() == self.month,
            r.spec_day_of_month() == self.day,
    {
        CalendarTime::from_fields(self.to_absolute(), self.month, self.day)
    }

    /// Encode as 10 little-endian bytes in the BCD day-month-year wire format (word 4 zero).
    pub fn to_le_bytes(&self) -> (b: [u8; 10])
        ensures
            b@ == words_to_bytes(
                seq![
                    dmy_format_words(*self).0,
                    dmy_format_words(*self).1,
                    dmy_format_words(*self).2,
                    dmy_format_words(*self).3,
                    dmy_format_words(*self).4,
                ],
            ),
    {
        let ms_tens = (self.milliseconds / 10) % 10;
        let ms_hundreds = self.milliseconds / 100;
        let sec_units = self.seconds % 10;
        let sec_tens = self.seconds / 10;
        let w0: u16 = ms_tens | (ms_hundreds << 4) | ((sec_units as u16) << 8) | ((
        sec_tens as u16) << 12);
        let min_units = self.minutes % 10;
        let min_tens = self.minutes / 10;
        let hr_units = self.hours % 10;
        let hr_tens = self.hours / 10;
        let w1: u16 = (min_units as u16) | ((min_tens as u16) << 4) | ((hr_units as u16) << 8)
            | ((hr_tens as u16) << 12);
        let day_units = (self.day % 10) as u16;
        let day_tens = ((self.day / 10) % 10) as u16;
        let mon_units = (self.month % 10) as u16;
        let mon_tens = ((self.month / 10) % 10) as u16;
        let w2: u16 = day_units | (day_tens << 4) | (mon_units << 8) | (mon_tens << 12);
        let yr_units = self.year % 10;
        let yr_tens = (self.year / 10) % 10;
        let yr_hundreds = (self.year / 100) % 10;
        let yr_thousands = (self.year / 1000) % 10;
        let w3: u16 = yr_units | (yr_tens << 4) | (yr_hundreds << 8) | (yr_thousands << 12);
        let w4: u16 = 0;
        let (a0, a1) = word_bytes(w0);
        let (b0, b1) = word_bytes(w1);
        let (c0, c1) = word_bytes(w2);
        let (d0, d1) = word_bytes(w3);
        let (e0, e1) = word_bytes(w4);
        let buf = [a0, a1, b0, b1, c0, c1, d0, d1, e0, e1];
        assert(buf@ =~= words_to_bytes(seq![w0, w1, w2, w3, w4]));
        buf
    }
}

/// Encoding a day-month-year time and decoding the bytes gives back the same time, for
/// every time that the wire format can carry.
#[verifier::spinoff_prover]
#[verifier::rlimit(60)]
pub proof fn lemma_dmy_format_round_trip(t: DmyFormatTime)
    requires
        dmy_format_encodable(t),
    ensures
        ({
            let w = dmy_format_words(t);
            spec_dmy_from_bytes(words_to_bytes(seq![w.0, w.1, w.2, w.3, w.4])) == Ok::<
                DmyFormatTime,
                TimeError,
            >(t)
        }),
{
    let w = dmy_format_words(t);
    let words = seq![w.0, w.1, w.2, w.3, w.4];
    let buf = words_to_bytes(words);
    lemma_word_at_words_to_bytes(words, 0);
    lemma_word_at_words_to_bytes(words, 1);
    lemma_word_at_words_to_bytes(words, 2);
    lemma_word_at_words_to_bytes(words, 3);
    let ms = t.milliseconds;
    lemma_pack_digits((ms / 10) % 10, ms / 100, (t.seconds % 10) as u16, (t.seconds / 10) as u16);
    lemma_pack_digits(
        (t.minutes % 10) as u16,
        (t.minutes / 10) as u16,
        (t.hours % 10) as u16,
        (t.hours / 10) as u16,
    );
    lemma_pack_digits(
        (t.day % 10) as u16,
        ((t.day / 10) % 10) as u16,
        (t.month % 10) as u16,
        ((t.month / 10) % 10) as u16,
    );
    lemma_pack_digits(t.year % 10, (t.year / 10) % 10, (t.year / 100) % 10, (t.year / 1000) % 10);
    assert(word_at(buf, 0) == w.0);
    assert(word_at(buf, 1) == w.1);
    assert(word_at(buf, 2) == w.2);
    assert(word_at(buf, 3) == w.3);
    let k = ms / 10;
    assert(ms == 10 * k);
    assert(ms / 100 == k / 10);
    assert((ms / 10) % 10 == k % 10);
    assert(clock_ms(w.0) == ms);
    assert(clock_seconds(w.0) == t.seconds);
    assert(clock_minutes(w.1) == t.minutes);
    assert(clock_hours(w.1) == t.hours);
    assert(dmy_day(w.2) == t.day);
    assert(dmy_month(w.2) == t.month);
    assert(dmy_year(w.3) == t.year);
    assert(clock_digit_error(w.0, w.1) is None);
}

/// A word whose reserved bits are clear is its fields put back in place.
proof fn lemma_split_word(w: u16)
    ensures
        w & 0x8000 == 0 ==> w == ((w >> 0) & 0x0F) | (((w >> 4) & 0x0F) << 4) | (((w >> 8) & 0x0F)
            << 8) | (((w >> 12) & 0x07) << 12),
        w & 0xC080 == 0 ==> w == ((w >> 0) & 0x0F) | (((w >> 4) & 0x07) << 4) | (((w >> 8) & 0x0F)
            << 8) | (((w >> 12) & 0x03) << 12),
        w & 0xFC00 == 0 ==> w == ((w >> 0) & 0x0F) | (((w >> 4) & 0x0F) << 4) | (((w >> 8) & 0x03)
            << 8),
        w & 0xE000 == 0 ==> w == ((w >> 0) & 0x0F) | (((w >> 4) & 0x0F) << 4) | (((w >> 8) & 0x0F)
            << 8) | (((w >> 12) & 0x01) << 12),
        w & 0xC000 == 0 ==> w == ((w >> 0) & 0x0F) | (((w >> 4) & 0x0F) << 4) | (((w >> 8) & 0x0F)
            << 8) | (((w >> 12) & 0x03) << 12),
{
    assert(w & 0x8000 == 0 ==> w == ((w >> 0) & 0x0F) | (((w >> 4) & 0x0F) << 4) | (((w >> 8)
        & 0x0F) << 8) | (((w >> 12) & 0x07) << 12)) by (bit_vector);
    assert(w & 0xC080 == 0 ==> w == ((w >> 0) & 0x0F) | (((w >> 4) & 0x07) << 4) | (((w >> 8)
        & 0x0F) << 8) | (((w >> 12) & 0x03) << 12)) by (bit_vector);
    assert(w & 0xFC00 == 0 ==> w == ((w >> 0) & 0x0F) | (((w >> 4) & 0x0F) << 4) | (((w >> 8)
        & 0x03) << 8)) by (bit_vector);
    assert(w & 0xE000 == 0 ==> w == ((w >> 0) & 0x0F) | (((w >> 4) & 0x0F) << 4) | (((w >> 8)
        & 0x0F) << 8) | (((w >> 12) & 0x01) << 12)) by (bit_vector);
    assert(w & 0xC000 == 0 ==> w == ((w >> 0) & 0x0F) | (((w >> 4) & 0x0F) << 4) | (((w >> 8)
        & 0x0F) << 8) | (((w >> 12) & 0x03) << 12)) by (bit_vector);
}

/// The time-of-day words of a message that decodes are the words its decoded clock encodes
/// to.
proof fn lemma_clock_words_reassemble(w0: u16, w1: u16)
    requires
        w0 & 0x8000 == 0,
        w1 & 0xC080 == 0,
        clock_digit_error(w0, w1) is None,
    ensures
        clock_word0(clock_ms(w0), clock_seconds(w0)) == w0,
        clock_word1(clock_minutes(w1), clock_hours(w1)) == w1,
{
    lemma_split_word(w0);
    lemma_split_word(w1);
    let a = (w0 >> 0) & 0x0F;
    let b = (w0 >> 4) & 0x0F;
    let c = (w0 >> 8) & 0x0F;
    let d = (w0 >> 12) & 0x07;
    assert(((w0 >> 12u16) & 0x07u16) <= 7) by (bit_vector);
    assert(((w0 >> 0u16) & 0x0Fu16) <= 15 && ((w0 >> 4u16) & 0x0Fu16) <= 15 && ((w0 >> 8u16)
        & 0x0Fu16) <= 15) by (bit_vector);
    assert(((w1 >> 0u16) & 0x0Fu16) <= 15 && ((w1 >> 8u16) & 0x0Fu16) <= 15) by (bit_vector);
    assert(nibble(w0, 0) == a && nibble(w0, 4) == b && nibble(w0, 8) == c);
    assert(tens_of_seconds(w0) == d);
    let ms = clock_ms(w0);
    assert(ms == b * 100 + a * 10);
    assert(ms / 10 == b * 10 + a);
    assert((ms / 10) % 10 == a);
    assert(ms / 100 == b);
    let sec = clock_seconds(w0);
    assert(sec == d * 10 + c);
    assert(sec % 10 == c);
    assert(sec / 10 == d);
    let e = (w1 >> 0) & 0x0F;
    let f = (w1 >> 4) & 0x07;
    let g = (w1 >> 8) & 0x0F;
    let h = (w1 >> 12) & 0x03;
    assert(((w1 >> 12u16) & 0x03u16) <= 3) by (bit_vector);
    assert(((w1 >> 4u16) & 0x07u16) <= 7) by (bit_vector);
    assert(nibble(w1, 0) == e && nibble(w1, 8) == g);
    assert(tens_of_minutes(w1) == f && tens_of_hours(w1) == h);
    let mi = clock_minutes(w1);
    let ho = clock_hours(w1);
    assert(mi == f * 10 + e);
    assert(mi % 10 == e && mi / 10 == f);
    assert(ho == h * 10 + g);
    assert(ho % 10 == g && ho / 10 == h);
}

/// The bytes of four words are the words' little-endian bytes.
proof fn lemma_word_bytes_of_buffer(buf: Seq<u8>, n: int)
    requires
        0 <= n,
        2 * n <= buf.len(),
    ensures
        words_to_bytes(Seq::new(n as nat, |k: int| word_at(buf, k))) == buf.subrange(0, 2 * n),
{
    let words = Seq::new(n as nat, |k: int| word_at(buf, k));
    let b = words_to_bytes(words);
    assert forall|i: int| 0 <= i < 2 * n implies b[i] == buf[i] by {
        let k = i / 2;
        let lo = buf[2 * k];
        let hi = buf[2 * k + 1];
        assert(words[k] == lo + 0x100 * hi);
        if i % 2 == 0 {
            assert(i == 2 * k);
            assert((lo + 0x100 * hi) % 0x100 == lo) by {
                vstd::arithmetic::div_mod::lemma_fundamental_div_mod_converse(
                    lo + 0x100 * hi,
                    0x100,
                    hi as int,
                    lo as int,
                );
            }
        } else {
            assert(i == 2 * k + 1);
            assert((lo + 0x100 * hi) / 0x100 == hi) by {
                vstd::arithmetic::div_mod::lemma_fundamental_div_mod_converse(
                    lo + 0x100 * hi,
                    0x100,
                    hi as int,
                    lo as int,
                );
            }
        }
    }
    assert(b =~= buf.subrange(0, 2 * n));
}

/// Decoding a day-of-year message and encoding the result gives back its first six bytes,
/// then the reserved word as zero; decoding those bytes again gives the same time.
pub proof fn lemma_day_format_decode_encode(buf: Seq<u8>)
    requires
        spec_day_from_bytes(buf) is Ok,
    ensures
        ({
            let t = spec_day_from_bytes(buf)->Ok_0;
            let w = day_format_words(t);
            let enc = words_to_bytes(seq![w.0, w.1, w.2, w.3]);
            &&& enc == buf.subrange(0, 6) + seq![0u8, 0u8]
            &&& spec_day_from_bytes(enc) == Ok::<DayFormatTime, TimeError>(t)
        }),
{
    let t = spec_day_from_bytes(buf)->Ok_0;
    let w0 = word_at(buf, 0);
    let w1 = word_at(buf, 1);
    let w2 = word_at(buf, 2);
    lemma_clock_words_reassemble(w0, w1);
    lemma_split_word(w2);
    let u = (w2 >> 0) & 0x0F;
    let v = (w2 >> 4) & 0x0F;
    let x = (w2 >> 8) & 0x03;
    assert(((w2 >> 8u16) & 0x03u16) <= 3) by (bit_vector);
    assert(((w2 >> 0u16) & 0x0Fu16) <= 15 && ((w2 >> 4u16) & 0x0Fu16) <= 15) by (bit_vector);
    assert(nibble(w2, 0) == u && nibble(w2, 4) == v);
    let doy = t.day_of_year;
    assert(doy == x * 100 + v * 10 + u);
    assert(doy % 10 == u);
    assert((doy / 10) % 10 == v);
    assert((doy / 100) % 10 == x);
    let w = day_format_words(t);
    assert(w.0 == w0);
    assert(w.1 == w1);
    assert(w.2 == w2);
    let words = seq![w.0, w.1, w.2, w.3];
    lemma_word_bytes_of_buffer(buf, 3);
    let three = Seq::new(3nat, |k: int| word_at(buf, k));
    assert(words =~= three.push(0u16));
    let enc = words_to_bytes(words);
    assert(enc =~= words_to_bytes(three) + seq![0u8, 0u8]);
    lemma_day_format_decoded_in_range(buf);
    lemma_day_format_round_trip(t);
}

/// The date words of a day-month-year message that decodes are the words its decoded date
/// encodes to.
proof fn lemma_date_words_reassemble(t: DmyFormatTime, w2: u16, w3: u16)
    requires
        w2 & 0xE000 == 0,
        w3 & 0xC000 == 0,
        nibble(w2, 0) <= 9,
        nibble(w2, 4) <= 9,
        nibble(w2, 8) <= 9,
        nibble(w3, 0) <= 9,
        nibble(w3, 4) <= 9,
        nibble(w3, 8) <= 9,
        t.day == dmy_day(w2),
        t.month == dmy_month(w2),
        t.year == dmy_year(w3),
    ensures
        dmy_format_words(t).2 == w2,
        dmy_format_words(t).3 == w3,
{
    lemma_split_word(w2);
    lemma_split_word(w3);
    assert(((w2 >> 0u16) & 0x0Fu16) <= 15 && ((w2 >> 4u16) & 0x0Fu16) <= 15 && ((w2 >> 8u16)
        & 0x0Fu16) <= 15 && ((w2 >> 12u16) & 0x01u16) <= 1) by (bit_vector);
    assert(((w3 >> 0u16) & 0x0Fu16) <= 15 && ((w3 >> 4u16) & 0x0Fu16) <= 15 && ((w3 >> 8u16)
        & 0x0Fu16) <= 15 && ((w3 >> 12u16) & 0x03u16) <= 3) by (bit_vector);
    let (du, dt, mu, mt) = ((w2 >> 0) & 0x0F, (w2 >> 4) & 0x0F, (w2 >> 8) & 0x0F, (w2 >> 12) & 0x01);
    let (yu, yt, yh, yk) = ((w3 >> 0) & 0x0F, (w3 >> 4) & 0x0F, (w3 >> 8) & 0x0F, (w3 >> 12) & 0x03);
    assert(nibble(w2, 0) == du && nibble(w2, 4) == dt && nibble(w2, 8) == mu);
    assert(nibble(w3, 0) == yu && nibble(w3, 4) == yt && nibble(w3, 8) == yh);
    assert(t.day == dt * 10 + du);
    assert(t.month == mt * 10 + mu);
    assert(t.year == yk * 1000 + yh * 100 + yt * 10 + yu);
    assert(t.day % 10 == du && (t.day / 10) % 10 == dt);
    assert(t.month % 10 == mu && (t.month / 10) % 10 == mt);
    assert(t.year % 10 == yu && (t.year / 10) % 10 == yt);
    assert((t.year / 100) % 10 == yh && (t.year / 1000) % 10 == yk);
}

/// Decoding a day-month-year message and encoding the result gives back its first eight
/// bytes, then the reserved word as zero; decoding those bytes again gives the same time.
#[verifier::spinoff_prover]
pub proof fn lemma_dmy_format_decode_encode(buf: Seq<u8>)
    requires
        spec_dmy_from_bytes(buf) is Ok,
    ensures
        ({
            let t = spec_dmy_from_bytes(buf)->Ok_0;
            let w = dmy_format_words(t);
            let enc = words_to_bytes(seq![w.0, w.1, w.2, w.3, w.4]);
            &&& enc == buf.subrange(0, 8) + seq![0u8, 0u8]
            &&& spec_dmy_from_bytes(enc) == Ok::<DmyFormatTime, TimeError>(t)
        }),
{
    let t = spec_dmy_from_bytes(buf)->Ok_0;
    let w0 = word_at(buf, 0);
    let w1 = word_at(buf, 1);
    let w2 = word_at(buf, 2);
    let w3 = word_at(buf, 3);
    lemma_clock_words_reassemble(w0, w1);
    lemma_date_words_reassemble(t, w2, w3);
    let w = dmy_format_words(t);
    assert(w.0 == w0);
    assert(w.1 == w1);
    assert(w.2 == w2);
    assert(w.3 == w3);
    let words = seq![w.0, w.1, w.2, w.3, w.4];
    lemma_word_bytes_of_buffer(buf, 4);
    let four = Seq::new(4nat, |k: int| word_at(buf, k));
    assert(words =~= four.push(0u16));
    let enc = words_to_bytes(words);
    assert(enc =~= words_to_bytes(four) + seq![0u8, 0u8]);
    lemma_dmy_format_decoded_in_range(buf);
    lemma_dmy_format_round_trip(t);
}

/// Every successfully decoded day-of-year message has its fields in range (milliseconds a
/// multiple of 10 up to 990), and its absolute time is a valid time on the same day.
pub proof fn lemma_day_format_decoded_in_range(buf: Seq<u8>)
    ensures
        spec_day_from_bytes(buf) matches Ok(t) ==> {
            &&& day_format_encodable(t)
            &&& spec_day_to_absolute(t).valid()
            &&& spec_day_to_absolute(t).day_of_year == t.day_of_year
        },
{
    if buf.len() >= 8 {
        let w0 = word_at(buf, 0);
        let w1 = word_at(buf, 1);
        assert(((w0 >> 4u16) & 0x0Fu16) <= 15 && ((w0 >> 0u16) & 0x0Fu16) <= 15) by (bit_vector);
        lemma_clock_ms_multiple_of_ten(w0);
    }
}

proof fn lemma_clock_ms_multiple_of_ten(w0: u16)
    ensures
        clock_ms(w0) % 10 == 0,
        nibble(w0, 4) <= 9 && nibble(w0, 0) <= 9 ==> clock_ms(w0) <= 990,
{
    assert(((w0 >> 4u16) & 0x0Fu16) <= 15 && ((w0 >> 0u16) & 0x0Fu16) <= 15) by (bit_vector);
}

/// Every successfully decoded day-month-year message has its fields in range (the day exists
/// in its month, the year is at most 3999), and its absolute time is a valid time whose day
/// of year lies within that year.
pub proof fn lemma_dmy_format_decoded_in_range(buf: Seq<u8>)
    ensures
        spec_dmy_from_bytes(buf) matches Ok(t) ==> {
            &&& dmy_format_encodable(t)
            &&& spec_dmy_to_absolute(t).valid()
            &&& spec_dmy_to_absolute(t).year == Some(t.year)
            &&& spec_dmy_to_absolute(t).month == Some(t.month)
        },
{
    if buf.len() >= 10 {
        let w0 = word_at(buf, 0);
        let w3 = word_at(buf, 3);
        lemma_clock_ms_multiple_of_ten(w0);
        assert(((w3 >> 12u16) & 0x03u16) <= 3) by (bit_vector);
        if let Ok(t) = spec_dmy_from_bytes(buf) {
            crate::util::lemma_month_day_to_doy_in_year(
                t.year as int,
                t.month as int,
                t.day as int,
            );
        }
    }
}

} // verus!
