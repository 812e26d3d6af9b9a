//! Scanning a Chapter 10 byte stream for time: packet headers, sync recovery, Format 1 and
//! Format 2 time packets, the per-channel time source inventory, and text for reports.

use vstd::prelude::*;
use std::collections::BTreeMap;
use crate::absolute::{clock_text, le16, le32, push_clock, u16_from_le, u32_from_le, AbsoluteTime};
use crate::bcd::{
    lemma_day_format_decoded_in_range, lemma_dmy_format_decoded_in_range, spec_day_from_bytes,
    spec_day_to_absolute, spec_dmy_from_bytes, spec_dmy_to_absolute, DayFormatTime, DmyFormatTime,
};
use crate::correlation::{spec_correlate, spec_f2_time, on_channel, TimeCorrelator};
use crate::csdw::{
    spec_time_format, spec_time_source, DateFormat, TimeF1Csdw, TimeFormat, TimeSource,
};
use crate::error::TimeError;
use crate::network_time::{
    saturating_diff, spec_parse_f2, spec_time_protocol, LeapSecondTable,
    NetworkTime, NetworkTimeProtocol, DEFAULT_TAI_UTC_OFFSET, parse_time_f2_payload,
};
use crate::rtc::{le48, Rtc};
use crate::search::count_below;
use crate::text::{digits, fmt_dec, fmt_hex, push_char, push_dec, push_hex, push_str};

verus! {

broadcast use vstd::std_specs::btree::group_btree_axioms, vstd::laws_cmp::group_laws_cmp;

/// Packet sync pattern.
pub const SYNC_PATTERN: u16 = 0xEB25;

/// Size of the primary packet header in bytes.
pub const HEADER_SIZE: usize = 24;

/// Size of the secondary packet header in bytes.
pub const SECONDARY_HEADER_SIZE: usize = 12;

/// Data type of Time Data Format 1 packets.
pub const DATA_TYPE_TIME_F1: u8 = 0x11;

/// Data type of Time Data Format 2 packets.
pub const DATA_TYPE_TIME_F2: u8 = 0x12;

// ── Packet headers ───────────────────────────────────────────────────

/// The fields of a Chapter 10 primary packet header needed for time extraction.
#[derive(Debug, Clone, Copy, PartialEq, Eq, Structural)]
pub struct PktHeader {
    /// Channel ID.
    pub channel_id: u16,
    /// Total packet length in bytes.
    pub packet_length: u32,
    /// Data length in bytes.
    pub data_length: u32,
    /// Packet flags.
    pub packet_flags: u8,
    /// Data type.
    pub data_type: u8,
    /// Relative time counter.
    pub rtc: Rtc,
}

/// A packet header starts here: enough bytes and the sync pattern.
pub open spec fn header_present(buf: Seq<u8>) -> bool {
    buf.len() >= 24 && le16(buf[0], buf[1]) == 0xEB25
}

/// The six RTC bytes of a header.
pub open spec fn header_rtc_bytes(buf: Seq<u8>) -> [u8; 6] {
    [buf[16], buf[17], buf[18], buf[19], buf[20], buf[21]]
}

/// The header's fields read from the bytes (the RTC is given separately).
pub open spec fn header_fields_match(h: PktHeader, buf: Seq<u8>) -> bool {
    &&& h.channel_id == le16(buf[2], buf[3])
    &&& h.packet_length == le32(buf[4], buf[5], buf[6], buf[7])
    &&& h.data_length == le32(buf[8], buf[9], buf[10], buf[11])
    &&& h.packet_flags == buf[14]
    &&& h.data_type == buf[15]
    &&& h.rtc.raw() == le48(header_rtc_bytes(buf))
}

/// Whether the packet flags announce a secondary header (bit 2).
pub open spec fn flags_secondary(flags: u8) -> bool {
    (flags / 4) % 2 == 1
}

/// Offset of the packet data: after the primary header, and the secondary header when
/// present.
pub open spec fn spec_data_offset(h: PktHeader) -> int {
    24 + if flags_secondary(h.packet_flags) {
        12int
    } else {
        0
    }
}

impl PktHeader {
    /// Parse a primary header; `None` when the buffer is too short or the sync pattern is
    /// absent.
    pub fn parse(buf: &[u8]) -> (r: Option<Self>)
        ensures
            r is Some <==> header_present(buf@),
            r matches Some(h) ==> header_fields_match(h, buf@),
    {
        if buf.len() < HEADER_SIZE {
            return None;
        }
        let sync = u16_from_le(buf[0], buf[1]);
        if sync != SYNC_PATTERN {
            return None;
        }
        Some(
            PktHeader {
                channel_id: u16_from_le(buf[2], buf[3]),
                packet_length: u32_from_le(buf[4], buf[5], buf[6], buf[7]),
                data_length: u32_from_le(buf[8], buf[9], buf[10], buf[11]),
                packet_flags: buf[14],
                data_type: buf[15],
                rtc: Rtc::from_le_bytes([buf[16], buf[17], buf[18], buf[19], buf[20], buf[21]]),
            },
        )
    }

    /// Whether a secondary header is present (flag bit 2).
    pub fn has_secondary_header(&self) -> (r: bool)
        ensures
            r == flags_secondary(self.packet_flags),
    {
        let f = self.packet_flags;
        assert(f & 0x04 != 0 <==> (f / 4) % 2 == 1) by (bit_vector);
        (f & 0x04) != 0
    }

    /// Offset of the packet data within the packet.
    pub fn data_offset(&self) -> (r: usize)
        ensures
            r == spec_data_offset(*self),
    {
        HEADER_SIZE + if self.has_secondary_header() {
            SECONDARY_HEADER_SIZE
        } else {
            0
        }
    }
}

/// Sum of the first eleven 16-bit little-endian words of a header at `i`, kept to 16 bits.
pub open spec fn header_checksum(buf: Seq<u8>, i: int) -> int {
    header_word_sum(buf, i, 11) % 0x1_0000
}

/// Sum of the first `n` 16-bit little-endian words starting at `i`.
pub open spec fn header_word_sum(buf: Seq<u8>, i: int, n: int) -> int
    decreases n,
{
    if n <= 0 {
        0
    } else {
        header_word_sum(buf, i, n - 1) + le16(buf[i + 2 * (n - 1)], buf[i + 2 * (n - 1) + 1])
    }
}

/// A plausible header at `i`: the sync pattern and a matching header checksum.
pub open spec fn sync_candidate(buf: Seq<u8>, i: int) -> bool {
    &&& le16(buf[i], buf[i + 1]) == 0xEB25
    &&& header_checksum(buf, i) == le16(buf[i + 22], buf[i + 23])
}

/// The end of the positions searched for a sync pattern.
pub open spec fn sync_search_end(len: int) -> int {
    if len >= 24 {
        len - 24
    } else {
        0
    }
}

/// The first position in `i..end` holding a plausible header.
pub open spec fn first_sync(buf: Seq<u8>, i: int, end: int) -> Option<int>
    decreases end - i,
{
    if i >= end {
        None
    } else if sync_candidate(buf, i) {
        Some(i)
    } else {
        first_sync(buf, i + 1, end)
    }
}

/// Find the next position at or after `start` (and before the length less one header)
/// that holds a sync pattern with a valid header checksum.
pub fn find_next_sync(buf: &[u8], start: usize) -> (r: Option<usize>)
    ensures
        match first_sync(buf@, start as int, sync_search_end(buf@.len() as int)) {
            Some(i) => r == Some(i as usize),
            None => r is None,
        },
        r matches Some(i) ==> start <= i && i + 24 <= buf@.len(),
{
    let blen = buf.len();
    let end = blen.saturating_sub(HEADER_SIZE);
    let mut i = start;
    while i < end
        invariant
            blen == buf@.len(),
            end == sync_search_end(buf@.len() as int),
            start <= i,
            first_sync(buf@, start as int, end as int) == first_sync(buf@, i as int, end as int),
        decreases end - i,
    {
        if u16_from_le(buf[i], buf[i + 1]) == SYNC_PATTERN {
            let mut sum: u32 = 0;
            let mut j: usize = 0;
            while j < 11
                invariant
                    blen == buf@.len(),
                    i + 24 <= buf@.len(),
                    0 <= j <= 11,
                    sum == header_word_sum(buf@, i as int, j as int),
                    sum <= j * 0xFFFF,
                decreases 11 - j,
            {
                let jj: usize = j * 2;
                let k: usize = i + jj;
                let word = u16_from_le(buf[k], buf[k + 1]);
                sum = sum + word as u32;
                j = j + 1;
            }
            let computed = (sum % 0x1_0000) as u16;
            let stored = u16_from_le(buf[i + 22], buf[i + 23]);
            if computed == stored {
                return Some(i);
            }
        }
        i = i + 1;
    }
    None
}

// ── Walking the packets of a stream ──────────────────────────────────

/// What the walk does at an offset of the stream.
#[derive(Debug, Clone, Copy, PartialEq, Eq, Structural)]
pub enum WalkStep {
    /// Stop scanning.
    Stop,
    /// No header here: continue at the next plausible header.
    Resync(usize),
    /// A packet of the given length starts here.
    Packet(usize),
}

/// Total length of the packet whose header is at `offset`.
pub open spec fn packet_length_at(buf: Seq<u8>, offset: int) -> int {
    le32(buf[offset + 4], buf[offset + 5], buf[offset + 6], buf[offset + 7])
}

/// The walk's step at `offset`: stop when less than a header is left; without a header,
/// resynchronize at the next plausible header after `offset` (or stop when there is none);
/// with a header, stop when the packet length is below a header or runs past the end,
/// else take the packet.
pub open spec fn spec_walk_step(buf: Seq<u8>, offset: int) -> WalkStep {
    if offset + 24 > buf.len() {
        WalkStep::Stop
    } else if !header_present(buf.subrange(offset, buf.len() as int)) {
        match first_sync(buf, offset + 1, sync_search_end(buf.len() as int)) {
            Some(n) => WalkStep::Resync(n as usize),
            None => WalkStep::Stop,
        }
    } else {
        let len = packet_length_at(buf, offset);
        if len < 24 || offset + len > buf.len() {
            WalkStep::Stop
        } else {
            WalkStep::Packet(len as usize)
        }
    }
}

/// The walk from `offset`, having counted `count` packets, never meets a Format 2 time
/// packet too short for its data offset.
pub open spec fn f2_packets_fit_from(
    buf: Seq<u8>,
    offset: int,
    count: int,
    limit: Option<usize>,
) -> bool
    decreases buf.len() - offset,
{
    if offset < 0 || offset + 24 > buf.len() {
        true
    } else if limit matches Some(l) && count >= l {
        true
    } else {
        match spec_walk_step(buf, offset) {
            WalkStep::Stop => true,
            WalkStep::Resync(n) => if offset < n <= buf.len() {
                f2_packets_fit_from(buf, n as int, count, limit)
            } else {
                true
            },
            WalkStep::Packet(len) => {
                let fits = buf[offset + 15] != 0x12 || 24 + if flags_secondary(buf[offset + 14]) {
                    12int
                } else {
                    0
                } <= len;
                fits && (0 < len && offset + len <= buf.len() ==> f2_packets_fit_from(
                    buf,
                    offset + len,
                    count + 1,
                    limit,
                ))
            },
        }
    }
}

/// Take the walk's step at `offset`, with the header when a packet starts there.
pub fn walk_step(buf: &[u8], offset: usize) -> (r: (WalkStep, Option<PktHeader>))
    requires
        offset <= buf@.len(),
    ensures
        r.0 == spec_walk_step(buf@, offset as int),
        r.0 matches WalkStep::Packet(len) ==> r.1 matches Some(h) && header_fields_match(
            h,
            buf@.subrange(offset as int, buf@.len() as int),
        ) && h.packet_length == len && len >= 24 && offset + len <= buf@.len(),
        r.0 matches WalkStep::Resync(n) ==> offset < n && n + 24 <= buf@.len(),
{
    let file_len = buf.len();
    if file_len - offset < HEADER_SIZE {
        return (WalkStep::Stop, None);
    }
    let rest = vstd::slice::slice_subrange(buf, offset, file_len);
    match PktHeader::parse(rest) {
        None => match find_next_sync(buf, offset + 1) {
            Some(next) => (WalkStep::Resync(next), None),
            None => (WalkStep::Stop, None),
        },
        Some(hdr) => {
            let pkt_len = hdr.packet_length as usize;
            if pkt_len < HEADER_SIZE || pkt_len > file_len - offset {
                (WalkStep::Stop, None)
            } else {
                proof {
                    assert(rest@ =~= buf@.subrange(offset as int, buf@.len() as int));
                    assert(packet_length_at(buf@, offset as int) == hdr.packet_length);
                }
                (WalkStep::Packet(pkt_len), Some(hdr))
            }
        },
    }
}

/// Whether scanning the stream (up to `limit` packets) meets only Format 2 time packets
/// long enough for their data offset.
pub fn f2_packets_fit(buf: &[u8], limit: Option<usize>) -> (r: bool)
    ensures
        r == f2_packets_fit_from(buf@, 0, 0, limit),
{
    let mut offset: usize = 0;
    let mut count: usize = 0;
    let file_len = buf.len();
    while offset <= file_len
        invariant
            file_len == buf@.len(),
            count <= offset,
            f2_packets_fit_from(buf@, offset as int, count as int, limit) == f2_packets_fit_from(
                buf@,
                0,
                0,
                limit,
            ),
        decreases file_len - offset + 1,
    {
        if file_len - offset < HEADER_SIZE {
            return true;
        }
        match limit {
            Some(l) => {
                if count >= l {
                    return true;
                }
            },
            None => {},
        }
        let (step, hdr) = walk_step(buf, offset);
        match step {
            WalkStep::Stop => {
                return true;
            },
            WalkStep::Resync(next) => {
                offset = next;
            },
            WalkStep::Packet(len) => {
                let h = hdr.unwrap();
                if h.data_type == DATA_TYPE_TIME_F2 && h.data_offset() > len {
                    proof {
                        assert(buf@.subrange(offset as int, buf@.len() as int)[15] == buf@[offset + 15]);
                        assert(buf@.subrange(offset as int, buf@.len() as int)[14] == buf@[offset + 14]);
                    }
                    return false;
                }
                proof {
                    assert(buf@.subrange(offset as int, buf@.len() as int)[15] == buf@[offset + 15]);
                    assert(buf@.subrange(offset as int, buf@.len() as int)[14] == buf@[offset + 14]);
                }
                offset = offset + len;
                count = count + 1;
            },
        }
    }
    true
}

// ── Text for reports ─────────────────────────────────────────────────

/// `"0x"` and the upper-case hexadecimal digits of `n`.
pub open spec fn hex_text(n: nat) -> Seq<char> {
    "0x"@ + fmt_hex(n, 0)
}

/// A time as `YYYY-MM-DD HH:MM:SS.mmm.uuu` when year, month and day are all known, else as
/// `Day DDD HH:MM:SS.mmm.uuu`.
pub open spec fn abs_time_text(t: AbsoluteTime) -> Seq<char> {
    let clock = clock_text(t.hours, t.minutes, t.seconds, t.nanoseconds);
    match (t.year, t.month, t.day_of_month) {
        (Some(y), Some(m), Some(d)) => fmt_dec(y as nat, 4) + "-"@ + fmt_dec(m as nat, 2) + "-"@
            + fmt_dec(d as nat, 2) + " "@ + clock,
        _ => "Day "@ + fmt_dec(t.day_of_year as nat, 3) + " "@ + clock,
    }
}

/// Render a time for reports (see [`abs_time_text`]).
pub fn fmt_abs_time(t: &AbsoluteTime) -> (s: String)
    ensures
        s@ == abs_time_text(*t),
{
    let mut s = String::new();
    match (t.year, t.month, t.day_of_month) {
        (Some(y), Some(m), Some(d)) => {
            push_dec(&mut s, y as u64, 4);
            push_str(&mut s, "-");
            push_dec(&mut s, m as u64, 2);
            push_str(&mut s, "-");
            push_dec(&mut s, d as u64, 2);
            push_str(&mut s, " ");
        },
        _ => {
            push_str(&mut s, "Day ");
            push_dec(&mut s, t.day_of_year as u64, 3);
            push_str(&mut s, " ");
        },
    }
    push_clock(&mut s, t.hours, t.minutes, t.seconds, t.nanoseconds);
    assert(s@ =~= abs_time_text(*t));
    s
}

/// The report name of a time source.
pub open spec fn time_source_name(src: TimeSource) -> Seq<char> {
    match src {
        TimeSource::Internal => "Internal"@,
        TimeSource::External => "External"@,
        TimeSource::InternalRtc => "Internal RTC"@,
        TimeSource::Gps => "GPS"@,
        TimeSource::NoSource => "None"@,
        TimeSource::Reserved(_) => "Reserved"@,
    }
}

/// The report name of a time source.
pub fn fmt_time_source(src: &TimeSource) -> (r: &'static str)
    ensures
        r@ == time_source_name(*src),
{
    match src {
        TimeSource::Internal => "Internal",
        TimeSource::External => "External",
        TimeSource::InternalRtc => "Internal RTC",
        TimeSource::Gps => "GPS",
        TimeSource::NoSource => "None",
        TimeSource::Reserved(_) => "Reserved",
    }
}

/// The report name of a time format.
pub open spec fn time_format_name(fmt: TimeFormat) -> Seq<char> {
    match fmt {
        TimeFormat::IrigB => "IRIG-B"@,
        TimeFormat::IrigA => "IRIG-A"@,
        TimeFormat::IrigG => "IRIG-G"@,
        TimeFormat::Rtc => "RTC"@,
        TimeFormat::Utc => "UTC"@,
        TimeFormat::Gps => "GPS"@,
        TimeFormat::Reserved(_) => "Reserved"@,
    }
}

/// The report name of a time format.
pub fn fmt_time_format(fmt: &TimeFormat) -> (r: &'static str)
    ensures
        r@ == time_format_name(*fmt),
{
    match fmt {
        TimeFormat::IrigB => "IRIG-B",
        TimeFormat::IrigA => "IRIG-A",
        TimeFormat::IrigG => "IRIG-G",
        TimeFormat::Rtc => "RTC",
        TimeFormat::Utc => "UTC",
        TimeFormat::Gps => "GPS",
        TimeFormat::Reserved(_) => "Reserved",
    }
}

/// The short report name of a packet data type.
pub open spec fn data_type_name(dt: u8) -> Seq<char> {
    if dt == 0x00 {
        "CompGen-0"@
    } else if dt == 0x01 {
        "TMATS"@
    } else if dt == 0x02 {
        "RecEvent"@
    } else if dt == 0x03 {
        "RecIndex"@
    } else if dt == 0x11 {
        "Time-F1"@
    } else if dt == 0x12 {
        "Time-F2"@
    } else if dt == 0x09 {
        "PCM-1"@
    } else if dt == 0x19 {
        "1553-1"@
    } else if dt == 0x1A {
        "1553-2"@
    } else if dt == 0x21 {
        "Analog-1"@
    } else if dt == 0x29 {
        "Discrete-1"@
    } else if dt == 0x30 {
        "Message-0"@
    } else if dt == 0x38 {
        "ARINC429"@
    } else if dt == 0x40 {
        "Video-0"@
    } else if dt == 0x50 {
        "UART-0"@
    } else if dt == 0x68 {
        "Ethernet-0"@
    } else if dt == 0x69 {
        "Ethernet-1"@
    } else {
        "Other"@
    }
}

/// The short report name of a packet data type.
pub fn fmt_data_type_short(dt: u8) -> (r: &'static str)
    ensures
        r@ == data_type_name(dt),
{
    match dt {
        0x00 => "CompGen-0",
        0x01 => "TMATS",
        0x02 => "RecEvent",
        0x03 => "RecIndex",
        0x11 => "Time-F1",
        0x12 => "Time-F2",
        0x09 => "PCM-1",
        0x19 => "1553-1",
        0x1A => "1553-2",
        0x21 => "Analog-1",
        0x29 => "Discrete-1",
        0x30 => "Message-0",
        0x38 => "ARINC429",
        0x40 => "Video-0",
        0x50 => "UART-0",
        0x68 => "Ethernet-0",
        0x69 => "Ethernet-1",
        _ => "Other",
    }
}

/// The first `i` characters of `s` with a comma before each character (but the first) that
/// has a multiple of three characters of `s` after it, itself included.
pub open spec fn comma_grouped(s: Seq<char>, i: int) -> Seq<char>
    decreases i,
{
    if i <= 0 {
        Seq::empty()
    } else {
        let sep = if i - 1 > 0 && (s.len() - (i - 1)) % 3 == 0 {
            ","@
        } else {
            Seq::empty()
        };
        comma_grouped(s, i - 1) + sep + seq![s[i - 1]]
    }
}

/// The decimal digits of `n` in groups of three separated by commas.
pub open spec fn comma_text(n: nat) -> Seq<char> {
    comma_grouped(digits(n, 10), digits(n, 10).len() as int)
}

/// Append the decimal digits of `n`.
fn push_decimal_chars(v: &mut Vec<char>, n: u64)
    ensures
        final(v)@ == old(v)@ + digits(n as nat, 10),
    decreases n,
{
    if n >= 10 {
        push_decimal_chars(v, n / 10);
    }
    v.push(crate::text::digit_to_char(n % 10));
    proof {
        if n < 10 {
            assert(n % 10 == n);
        }
    }
}

/// Render a count with thousands separators.
pub fn fmt_comma(n: usize) -> (s: String)
    ensures
        s@ == comma_text(n as nat),
{
    let mut d: Vec<char> = Vec::new();
    push_decimal_chars(&mut d, n as u64);
    assert(d@ =~= digits(n as nat, 10));
    let mut result = String::new();
    let mut i: usize = 0;
    while i < d.len()
        invariant
            0 <= i <= d@.len(),
            result@ == comma_grouped(d@, i as int),
        decreases d@.len() - i,
    {
        if i > 0 && (d.len() - i) % 3 == 0 {
            push_char(&mut result, ',');
        }
        push_char(&mut result, d[i]);
        proof {
            let sep = if i > 0 && (d@.len() - i) % 3 == 0 {
                ","@
            } else {
                Seq::<char>::empty()
            };
            reveal_strlit(",");
            assert(result@ =~= comma_grouped(d@, i as int) + sep + seq![d@[i as int]]);
        }
        i = i + 1;
    }
    result
}

// ── Time channel inventory ───────────────────────────────────────────

/// What is known of one time channel.
#[derive(Debug, Clone, Copy, PartialEq, Eq, Structural)]
pub struct TimeChannelInfo {
    /// Channel ID.
    pub channel_id: u16,
    /// Number of time packets seen on the channel.
    pub packet_count: usize,
    /// Time source of the latest packet.
    pub source: Option<TimeSource>,
    /// Time format of the latest packet.
    pub format: Option<TimeFormat>,
    /// Date format of the latest packet.
    pub date_format: Option<DateFormat>,
    /// Leap-year flag of the latest packet.
    pub is_leap_year: Option<bool>,
    /// Absolute time of the first packet.
    pub first_time: Option<AbsoluteTime>,
    /// Absolute time of the latest packet.
    pub last_time: Option<AbsoluteTime>,
    /// RTC of the first packet.
    pub first_rtc: Option<Rtc>,
    /// RTC of the latest packet.
    pub last_rtc: Option<Rtc>,
}

/// An inventory entry for a channel with nothing seen yet.
pub open spec fn empty_info(channel_id: u16) -> TimeChannelInfo {
    TimeChannelInfo {
        channel_id,
        packet_count: 0,
        source: None,
        format: None,
        date_format: None,
        is_leap_year: None,
        first_time: None,
        last_time: None,
        first_rtc: None,
        last_rtc: None,
    }
}

impl TimeChannelInfo {
    /// An inventory entry for a channel with nothing seen yet.
    pub fn new(channel_id: u16) -> (r: Self)
        ensures
            r == empty_info(channel_id),
    {
        TimeChannelInfo {
            channel_id,
            packet_count: 0,
            source: None,
            format: None,
            date_format: None,
            is_leap_year: None,
            first_time: None,
            last_time: None,
            first_rtc: None,
            last_rtc: None,
        }
    }
}

/// A channel's inventory entry (an empty one when the channel has none).
pub open spec fn info_of(m: Map<u16, TimeChannelInfo>, ch: u16) -> TimeChannelInfo {
    if m.contains_key(ch) {
        m[ch]
    } else {
        empty_info(ch)
    }
}

/// An inventory entry after one more time packet: one more packet, the packet's source,
/// format, date format and leap flag, the time and RTC as the latest ones (and as the first
/// ones when there were none).
pub open spec fn record_time(
    info: TimeChannelInfo,
    source: TimeSource,
    format: TimeFormat,
    date_format: DateFormat,
    is_leap_year: bool,
    time: AbsoluteTime,
    rtc: Rtc,
) -> TimeChannelInfo {
    TimeChannelInfo {
        packet_count: (info.packet_count + 1) as usize,
        source: Some(source),
        format: Some(format),
        date_format: Some(date_format),
        is_leap_year: Some(is_leap_year),
        first_time: if info.first_time is None {
            Some(time)
        } else {
            info.first_time
        },
        first_rtc: if info.first_time is None {
            Some(rtc)
        } else {
            info.first_rtc
        },
        last_time: Some(time),
        last_rtc: Some(rtc),
        ..info
    }
}

/// A packet resolved to absolute time.
#[derive(Debug, Clone, Copy, PartialEq, Eq, Structural)]
pub struct ResolvedPacket {
    /// Packet number in the stream.
    pub packet_num: usize,
    /// Byte offset of the packet.
    pub offset: usize,
    /// Channel ID.
    pub channel_id: u16,
    /// Data type.
    pub data_type: u8,
    /// RTC of the packet.
    pub rtc: Rtc,
    /// Absolute time, when a reference point was available.
    pub abs_time: Option<AbsoluteTime>,
}

// ── Messages ─────────────────────────────────────────────────────────

/// Message for lost and recovered sync.
pub open spec fn sync_lost_text(offset: nat, next: nat) -> Seq<char> {
    "Sync lost at "@ + hex_text(offset) + ", recovered at "@ + hex_text(next) + " ("@ + fmt_dec(
        (next - offset) as nat,
        0,
    ) + " bytes skipped)"@
}

/// Message for a Format 1 time packet too short for its CSDW.
pub open spec fn short_csdw_text(ch: u16) -> Seq<char> {
    "Time packet at ch="@ + fmt_dec(ch as nat, 0) + " too short for CSDW"@
}

/// Message about a Format 1 time packet.
pub open spec fn f1_text(ch: u16, what: Seq<char>) -> Seq<char> {
    "Time packet ch="@ + fmt_dec(ch as nat, 0) + ": "@ + what
}

/// Message about a Format 2 time packet.
pub open spec fn f2_text(ch: u16, what: Seq<char>) -> Seq<char> {
    "Time F2 packet ch="@ + fmt_dec(ch as nat, 0) + ": "@ + what
}

// ── Time packets ─────────────────────────────────────────────────────

/// Date format flag (bit 9) of a Format 1 CSDW.
pub open spec fn csdw_date_format(raw: u32) -> DateFormat {
    if (raw / 0x200) % 2 == 0 {
        DateFormat::DayOfYear
    } else {
        DateFormat::DayMonthYear
    }
}

/// What a Format 1 time packet yields: its raw CSDW and absolute time, or the message
/// reported for it.
pub open spec fn f1_outcome(pkt: Seq<u8>, hdr: PktHeader) -> Result<(u32, AbsoluteTime), Seq<char>> {
    let ds = spec_data_offset(hdr);
    let ch = hdr.channel_id;
    if ds + 4 > pkt.len() {
        Err(short_csdw_text(ch))
    } else {
        let raw = le32(pkt[ds], pkt[ds + 1], pkt[ds + 2], pkt[ds + 3]) as u32;
        let bs = ds + 4;
        let rest = pkt.subrange(bs, pkt.len() as int);
        if csdw_date_format(raw) == DateFormat::DayOfYear {
            if bs + 8 > pkt.len() {
                Err(f1_text(ch, "buffer too short for DOY BCD"@))
            } else {
                match spec_day_from_bytes(rest) {
                    Ok(t) => Ok((raw, spec_day_to_absolute(t))),
                    Err(e) => Err(f1_text(ch, "DOY BCD error: "@ + e.message())),
                }
            }
        } else {
            if bs + 10 > pkt.len() {
                Err(f1_text(ch, "buffer too short for DMY BCD"@))
            } else {
                match spec_dmy_from_bytes(rest) {
                    Ok(t) => Ok((raw, spec_dmy_to_absolute(t))),
                    Err(e) => Err(f1_text(ch, "DMY BCD error: "@ + e.message())),
                }
            }
        }
    }
}

/// The inventory entry after a Format 1 time packet with this CSDW and time.
pub open spec fn record_f1(info: TimeChannelInfo, raw: u32, t: AbsoluteTime, rtc: Rtc) -> TimeChannelInfo {
    record_time(
        info,
        spec_time_source((raw % 16) as u8),
        spec_time_format(((raw / 16) % 16) as u8),
        csdw_date_format(raw),
        (raw / 0x100) % 2 == 1,
        t,
        rtc,
    )
}

/// What a Format 2 time packet yields: its raw CSDW and absolute time, or the message
/// reported for it.
pub open spec fn f2_outcome(pkt: Seq<u8>, hdr: PktHeader, table: Seq<crate::network_time::LeapSecondEntry>) -> Result<
    (u32, AbsoluteTime),
    Seq<char>,
> {
    let ch = hdr.channel_id;
    match spec_parse_f2(pkt.subrange(spec_data_offset(hdr), pkt.len() as int)) {
        Err(e) => Err(f2_text(ch, "parse error: "@ + e.message())),
        Ok((raw, nt)) => match spec_f2_time(nt, table) {
            Err(e) => Err(f2_text(ch, "correlation error: "@ + e.message())),
            Ok(t) => Ok((raw, t)),
        },
    }
}

/// The inventory entry after a Format 2 time packet: network sources count as external,
/// NTP as UTC and PTP as GPS time, always day-of-year and never a leap year.
pub open spec fn record_f2(info: TimeChannelInfo, raw: u32, t: AbsoluteTime, rtc: Rtc) -> TimeChannelInfo {
    let p = spec_time_protocol(raw);
    record_time(
        info,
        match p {
            NetworkTimeProtocol::Reserved(_) => TimeSource::NoSource,
            _ => TimeSource::External,
        },
        match p {
            NetworkTimeProtocol::Ntp => TimeFormat::Utc,
            NetworkTimeProtocol::Ptp => TimeFormat::Gps,
            NetworkTimeProtocol::Reserved(_) => TimeFormat::Reserved(0xFF),
        },
        DateFormat::DayOfYear,
        false,
        t,
        rtc,
    )
}

// ── The scan as a whole ──────────────────────────────────────────────

/// What a scanner has gathered: reference points, channel inventory, packet counts by data
/// type, packet and time packet counts, first and latest RTC, resolved packets and messages.
pub struct ScanState {
    /// Reference points, ordered by RTC.
    pub points: Seq<crate::correlation::ReferencePoint>,
    /// Inventory entry of each time channel.
    pub channels: Map<u16, TimeChannelInfo>,
    /// Packet counts by data type.
    pub counts: Map<u8, usize>,
    /// Packets scanned.
    pub total: int,
    /// Time packets scanned.
    pub time_packets: int,
    /// RTC of the first packet.
    pub first_rtc: Option<Rtc>,
    /// RTC of the latest packet.
    pub last_rtc: Option<Rtc>,
    /// Packets resolved to absolute time.
    pub resolved: Seq<ResolvedPacket>,
    /// Messages reported, in order.
    pub messages: Seq<Seq<char>>,
}

/// The header of the packet at `offset`.
pub open spec fn header_at(buf: Seq<u8>, offset: int) -> PktHeader {
    choose|h: PktHeader| header_fields_match(h, buf.subrange(offset, buf.len() as int))
}

/// A header read from the bytes at `offset` is the header there.
pub proof fn lemma_header_at(h: PktHeader, buf: Seq<u8>, offset: int)
    requires
        header_fields_match(h, buf.subrange(offset, buf.len() as int)),
    ensures
        header_at(buf, offset) == h,
{
    let g = header_at(buf, offset);
    assert(header_fields_match(g, buf.subrange(offset, buf.len() as int)));
    crate::rtc::lemma_raw_injective(g.rtc, h.rtc);
}

/// The state after a Format 1 time packet: its reference point and inventory update, or
/// its message.
pub open spec fn f1_state(s: ScanState, pkt: Seq<u8>, hdr: PktHeader) -> ScanState {
    match f1_outcome(pkt, hdr) {
        Ok((raw, t)) => ScanState {
            points: s.points.insert(
                count_below(s.points, hdr.rtc.raw()) as int,
                crate::correlation::ReferencePoint { channel_id: hdr.channel_id, rtc: hdr.rtc, time: t },
            ),
            channels: s.channels.insert(
                hdr.channel_id,
                record_f1(info_of(s.channels, hdr.channel_id), raw, t, hdr.rtc),
            ),
            ..s
        },
        Err(msg) => ScanState { messages: s.messages.push(msg), ..s },
    }
}

/// The state after a Format 2 time packet: its reference point and, when the channel then
/// correlates at the packet's RTC, the inventory update with that time; or its message.
pub open spec fn f2_state(s: ScanState, pkt: Seq<u8>, hdr: PktHeader) -> ScanState {
    match f2_outcome(pkt, hdr, crate::network_time::builtin_entries()) {
        Ok((raw, t)) => {
            let points = s.points.insert(
                count_below(s.points, hdr.rtc.raw()) as int,
                crate::correlation::ReferencePoint { channel_id: hdr.channel_id, rtc: hdr.rtc, time: t },
            );
            ScanState {
                points,
                channels: match spec_correlate(on_channel(points, hdr.channel_id), hdr.rtc.raw()) {
                    Ok(t2) => s.channels.insert(
                        hdr.channel_id,
                        record_f2(info_of(s.channels, hdr.channel_id), raw, t2, hdr.rtc),
                    ),
                    Err(_) => s.channels,
                },
                ..s
            }
        },
        Err(msg) => ScanState { messages: s.messages.push(msg), ..s },
    }
}

/// The state after a packet with header `hdr`: a time packet (Format 1 or 2) is counted and
/// processed, any other packet leaves the state alone.
pub open spec fn time_state(s: ScanState, pkt: Seq<u8>, hdr: PktHeader) -> ScanState {
    if hdr.data_type == DATA_TYPE_TIME_F1 {
        f1_state(ScanState { time_packets: s.time_packets + 1, ..s }, pkt, hdr)
    } else if hdr.data_type == DATA_TYPE_TIME_F2 {
        f2_state(ScanState { time_packets: s.time_packets + 1, ..s }, pkt, hdr)
    } else {
        s
    }
}

/// The state after the packet of length `len` at `offset`, with header `hdr`: one more
/// packet of its data type, its RTC as the latest (and the first when there was none), a
/// time packet processed, and the packet resolved from all reference points when
/// `resolve_all` is set.
pub open spec fn packet_state(
    s: ScanState,
    buf: Seq<u8>,
    offset: int,
    len: int,
    hdr: PktHeader,
    resolve_all: bool,
) -> ScanState {
    let counted = ScanState {
        total: s.total + 1,
        first_rtc: if s.first_rtc is None {
            Some(hdr.rtc)
        } else {
            s.first_rtc
        },
        last_rtc: Some(hdr.rtc),
        counts: s.counts.insert(hdr.data_type, (count_of(s.counts, hdr.data_type) + 1) as usize),
        ..s
    };
    let pkt = buf.subrange(offset, offset + len);
    let timed = time_state(counted, pkt, hdr);
    if resolve_all {
        ScanState {
            resolved: timed.resolved.push(
                ResolvedPacket {
                    packet_num: s.total as usize,
                    offset: offset as usize,
                    channel_id: hdr.channel_id,
                    data_type: hdr.data_type,
                    rtc: hdr.rtc,
                    abs_time: match spec_correlate(timed.points, hdr.rtc.raw()) {
                        Ok(t) => Some(t),
                        Err(_) => None,
                    },
                },
            ),
            ..timed
        }
    } else {
        timed
    }
}

/// The state once the walk from `offset` ends: stop when less than a header is left or
/// `limit` packets have been scanned; report a lost sync and continue where it is found
/// again; take each packet (see [`packet_state`]) and continue after it.
#[verifier::opaque]
pub open spec fn walk_state(
    buf: Seq<u8>,
    offset: int,
    s: ScanState,
    limit: Option<usize>,
    resolve_all: bool,
) -> ScanState
    decreases buf.len() - offset,
{
    if offset < 0 || offset + 24 > buf.len() {
        s
    } else if limit matches Some(l) && s.total >= l {
        s
    } else {
        match spec_walk_step(buf, offset) {
            WalkStep::Stop => s,
            WalkStep::Resync(n) => if offset < n <= buf.len() {
                walk_state(
                    buf,
                    n as int,
                    ScanState {
                        messages: s.messages.push(sync_lost_text(offset as nat, n as nat)),
                        ..s
                    },
                    limit,
                    resolve_all,
                )
            } else {
                s
            },
            WalkStep::Packet(len) => if 0 < len && offset + len <= buf.len() {
                walk_state(
                    buf,
                    offset + len,
                    packet_state(s, buf, offset, len as int, header_at(buf, offset), resolve_all),
                    limit,
                    resolve_all,
                )
            } else {
                s
            },
        }
    }
}

/// The walk ends at `offset`: less than a header is left, `limit` packets have been
/// scanned, or the step there is to stop.
proof fn lemma_walk_stop(buf: Seq<u8>, offset: int, s: ScanState, limit: Option<usize>, resolve_all: bool)
    requires
        0 <= offset,
        offset + 24 > buf.len() || (limit matches Some(l) && s.total >= l) || spec_walk_step(
            buf,
            offset,
        ) is Stop,
    ensures
        walk_state(buf, offset, s, limit, resolve_all) == s,
{
    reveal(walk_state);
}

/// The walk resumes where sync is found again, with the lost sync reported.
proof fn lemma_walk_resync(
    buf: Seq<u8>,
    offset: int,
    s: ScanState,
    limit: Option<usize>,
    resolve_all: bool,
    n: usize,
)
    requires
        0 <= offset,
        offset + 24 <= buf.len(),
        !(limit matches Some(l) && s.total >= l),
        spec_walk_step(buf, offset) == WalkStep::Resync(n),
        offset < n <= buf.len(),
    ensures
        walk_state(buf, offset, s, limit, resolve_all) == walk_state(
            buf,
            n as int,
            ScanState { messages: s.messages.push(sync_lost_text(offset as nat, n as nat)), ..s },
            limit,
            resolve_all,
        ),
{
    reveal(walk_state);
}

/// The walk takes the packet at `offset` and continues after it.
proof fn lemma_walk_packet(
    buf: Seq<u8>,
    offset: int,
    s: ScanState,
    limit: Option<usize>,
    resolve_all: bool,
    len: usize,
)
    requires
        0 <= offset,
        offset + 24 <= buf.len(),
        !(limit matches Some(l) && s.total >= l),
        spec_walk_step(buf, offset) == WalkStep::Packet(len),
        0 < len,
        offset + len <= buf.len(),
    ensures
        walk_state(buf, offset, s, limit, resolve_all) == walk_state(
            buf,
            offset + len,
            packet_state(s, buf, offset, len as int, header_at(buf, offset), resolve_all),
            limit,
            resolve_all,
        ),
{
    reveal(walk_state);
}

// ── The scanner ──────────────────────────────────────────────────────

/// Scans a Chapter 10 stream for time packets, builds the correlation table and the time
/// channel inventory, and optionally resolves every packet to absolute time.
pub struct Ch10TimeScanner {
    correlator: TimeCorrelator,
    leap_table: LeapSecondTable,
    time_channels: BTreeMap<u16, TimeChannelInfo>,
    total_packets: usize,
    time_packets: usize,
    data_type_counts: BTreeMap<u8, usize>,
    first_rtc: Option<Rtc>,
    last_rtc: Option<Rtc>,
    resolved: Vec<ResolvedPacket>,
    errors: Vec<String>,
}

impl Ch10TimeScanner {
    /// The reference points gathered.
    pub closed spec fn points(self) -> Seq<crate::correlation::ReferencePoint> {
        self.correlator@
    }

    /// The time channel inventory.
    pub closed spec fn channels(self) -> Map<u16, TimeChannelInfo> {
        self.time_channels@
    }

    /// Packet counts by data type.
    pub closed spec fn type_counts(self) -> Map<u8, usize> {
        self.data_type_counts@
    }

    /// Number of packets scanned.
    pub closed spec fn spec_total(self) -> usize {
        self.total_packets
    }

    /// Number of time packets scanned.
    pub closed spec fn spec_time_packets(self) -> usize {
        self.time_packets
    }

    /// RTC of the first packet scanned.
    pub closed spec fn spec_first_rtc(self) -> Option<Rtc> {
        self.first_rtc
    }

    /// RTC of the latest packet scanned.
    pub closed spec fn spec_last_rtc(self) -> Option<Rtc> {
        self.last_rtc
    }

    /// The packets resolved to absolute time.
    pub closed spec fn spec_resolved(self) -> Seq<ResolvedPacket> {
        self.resolved@
    }

    /// The messages reported, in order.
    pub closed spec fn messages(self) -> Seq<Seq<char>> {
        self.errors@.map_values(|e: String| e@)
    }

    /// Everything the scanner has gathered.
    pub closed spec fn state(self) -> ScanState {
        ScanState {
            points: self.correlator@,
            channels: self.time_channels@,
            counts: self.data_type_counts@,
            total: self.total_packets as int,
            time_packets: self.time_packets as int,
            first_rtc: self.first_rtc,
            last_rtc: self.last_rtc,
            resolved: self.resolved@,
            messages: self.messages(),
        }
    }

    /// The parts of the state, as its accessors give them.
    pub proof fn lemma_state_parts(self)
        ensures
            self.state().points == self.points(),
            self.state().channels == self.channels(),
            self.state().counts == self.type_counts(),
            self.state().total == self.spec_total(),
            self.state().time_packets == self.spec_time_packets(),
            self.state().first_rtc == self.spec_first_rtc(),
            self.state().last_rtc == self.spec_last_rtc(),
            self.state().resolved == self.spec_resolved(),
            self.state().messages == self.messages(),
    {
    }

    /// The correlator and the built-in leap-second table are well formed, and no count
    /// exceeds the packets scanned.
    pub closed spec fn wf(self) -> bool {
        &&& self.correlator.wf()
        &&& self.leap_table.wf()
        &&& self.leap_table@ == crate::network_time::builtin_entries()
        &&& self.time_packets <= self.total_packets
        &&& forall|ch: u16|
            #[trigger] self.time_channels@.contains_key(ch) ==> self.time_channels@[ch].packet_count
                <= self.time_packets
        &&& forall|dt: u8|
            #[trigger] self.data_type_counts@.contains_key(dt) ==> self.data_type_counts@[dt]
                <= self.total_packets
    }

    /// A scanner with nothing scanned, using the built-in leap-second table.
    pub fn new() -> (r: Self)
        ensures
            r.wf(),
            r.points() == Seq::<crate::correlation::ReferencePoint>::empty(),
            r.channels() == Map::<u16, TimeChannelInfo>::empty(),
            r.type_counts() == Map::<u8, usize>::empty(),
            r.spec_total() == 0,
            r.spec_time_packets() == 0,
            r.spec_first_rtc() == None::<Rtc>,
            r.spec_last_rtc() == None::<Rtc>,
            r.spec_resolved() == Seq::<ResolvedPacket>::empty(),
            r.messages() == Seq::<Seq<char>>::empty(),
    {
        let r = Ch10TimeScanner {
            correlator: TimeCorrelator::new(),
            leap_table: LeapSecondTable::builtin(),
            time_channels: BTreeMap::new(),
            total_packets: 0,
            time_packets: 0,
            data_type_counts: BTreeMap::new(),
            first_rtc: None,
            last_rtc: None,
            resolved: Vec::new(),
            errors: Vec::new(),
        };
        assert(r.messages() =~= Seq::<Seq<char>>::empty());
        r
    }

    /// The correlation table built.
    pub fn correlator(&self) -> (r: &TimeCorrelator)
        requires
            self.wf(),
        ensures
            r@ == self.points(),
            r.wf(),
    {
        &self.correlator
    }

    /// The time channel inventory.
    pub fn time_channels(&self) -> (r: &BTreeMap<u16, TimeChannelInfo>)
        ensures
            r@ == self.channels(),
    {
        &self.time_channels
    }

    /// Packet counts by data type.
    pub fn data_type_counts(&self) -> (r: &BTreeMap<u8, usize>)
        ensures
            r@ == self.type_counts(),
    {
        &self.data_type_counts
    }

    /// Number of packets scanned.
    pub fn total_packets(&self) -> (r: usize)
        ensures
            r == self.spec_total(),
    {
        self.total_packets
    }

    /// Number of time packets scanned.
    pub fn time_packets(&self) -> (r: usize)
        ensures
            r == self.spec_time_packets(),
    {
        self.time_packets
    }

    /// RTC of the first packet scanned.
    pub fn first_rtc(&self) -> (r: Option<Rtc>)
        ensures
            r == self.spec_first_rtc(),
    {
        self.first_rtc
    }

    /// RTC of the latest packet scanned.
    pub fn last_rtc(&self) -> (r: Option<Rtc>)
        ensures
            r == self.spec_last_rtc(),
    {
        self.last_rtc
    }

    /// The packets resolved to absolute time.
    pub fn resolved(&self) -> (r: &[ResolvedPacket])
        ensures
            r@ == self.spec_resolved(),
    {
        self.resolved.as_slice()
    }

    /// The messages reported, in order.
    pub fn errors(&self) -> (r: &[String])
        ensures
            r@.map_values(|e: String| e@) == self.messages(),
    {
        self.errors.as_slice()
    }

    /// Record a message.
    fn report(&mut self, msg: String)
        ensures
            final(self).messages() == old(self).messages().push(msg@),
            final(self).correlator == old(self).correlator,
            final(self).leap_table == old(self).leap_table,
            final(self).time_channels == old(self).time_channels,
            final(self).total_packets == old(self).total_packets,
            final(self).time_packets == old(self).time_packets,
            final(self).data_type_counts == old(self).data_type_counts,
            final(self).first_rtc == old(self).first_rtc,
            final(self).last_rtc == old(self).last_rtc,
            final(self).resolved == old(self).resolved,
    {
        let ghost m = msg@;
        self.errors.push(msg);
        assert(self.messages() =~= old(self).messages().push(m));
    }

    /// Process a Format 1 time packet: decode its CSDW and BCD time, add a reference point
    /// and update the channel's inventory entry, or report why it could not be used.
    #[verifier::spinoff_prover]
    fn process_time_packet(&mut self, pkt_buf: &[u8], hdr: &PktHeader)
        requires
            old(self).wf(),
            old(self).time_packets >= 1,
            forall|ch: u16|
                #[trigger] old(self).time_channels@.contains_key(ch) ==> old(
                    self,
                ).time_channels@[ch].packet_count < old(self).time_packets,
        ensures
            final(self).wf(),
            final(self).leap_table == old(self).leap_table,
            final(self).total_packets == old(self).total_packets,
            final(self).time_packets == old(self).time_packets,
            final(self).data_type_counts == old(self).data_type_counts,
            final(self).first_rtc == old(self).first_rtc,
            final(self).last_rtc == old(self).last_rtc,
            final(self).resolved == old(self).resolved,
            match f1_outcome(pkt_buf@, *hdr) {
                Ok((raw, t)) => {
                    &&& final(self).points() == old(self).points().insert(
                        count_below(old(self).points(), hdr.rtc.raw()) as int,
                        crate::correlation::ReferencePoint {
                            channel_id: hdr.channel_id,
                            rtc: hdr.rtc,
                            time: t,
                        },
                    )
                    &&& final(self).channels() == old(self).channels().insert(
                        hdr.channel_id,
                        record_f1(info_of(old(self).channels(), hdr.channel_id), raw, t, hdr.rtc),
                    )
                    &&& final(self).messages() == old(self).messages()
                },
                Err(msg) => {
                    &&& final(self).points() == old(self).points()
                    &&& final(self).channels() == old(self).channels()
                    &&& final(self).messages() == old(self).messages().push(msg)
                },
            },
    {
        let ch = hdr.channel_id;
        match decode_f1(pkt_buf, hdr) {
            Err(msg) => {
                self.report(msg);
            },
            Ok((csdw, abs_time)) => {
                self.correlator.add_reference(ch, hdr.rtc, abs_time);
                record_channel(
                    &mut self.time_channels,
                    ch,
                    csdw.time_source(),
                    csdw.time_format(),
                    csdw.date_format(),
                    csdw.is_leap_year(),
                    abs_time,
                    hdr.rtc,
                    self.time_packets,
                );
            },
        }
    }
    /// Process a Format 2 time packet: parse its payload, add the reference point it gives,
    /// and update the channel's inventory entry with the time then correlated at its RTC on
    /// its channel, or report why it could not be used.
    #[verifier::spinoff_prover]
    fn process_time_f2_packet(&mut self, pkt_buf: &[u8], hdr: &PktHeader)
        requires
            old(self).wf(),
            old(self).time_packets >= 1,
            forall|ch: u16|
                #[trigger] old(self).time_channels@.contains_key(ch) ==> old(
                    self,
                ).time_channels@[ch].packet_count < old(self).time_packets,
            spec_data_offset(*hdr) <= pkt_buf@.len(),
        ensures
            final(self).wf(),
            final(self).leap_table == old(self).leap_table,
            final(self).total_packets == old(self).total_packets,
            final(self).time_packets == old(self).time_packets,
            final(self).data_type_counts == old(self).data_type_counts,
            final(self).first_rtc == old(self).first_rtc,
            final(self).last_rtc == old(self).last_rtc,
            final(self).resolved == old(self).resolved,
            match f2_outcome(pkt_buf@, *hdr, crate::network_time::builtin_entries()) {
                Ok((raw, t)) => {
                    &&& final(self).points() == old(self).points().insert(
                        count_below(old(self).points(), hdr.rtc.raw()) as int,
                        crate::correlation::ReferencePoint {
                            channel_id: hdr.channel_id,
                            rtc: hdr.rtc,
                            time: t,
                        },
                    )
                    &&& final(self).channels() == match spec_correlate(
                        on_channel(final(self).points(), hdr.channel_id),
                        hdr.rtc.raw(),
                    ) {
                        Ok(t2) => old(self).channels().insert(
                            hdr.channel_id,
                            record_f2(info_of(old(self).channels(), hdr.channel_id), raw, t2, hdr.rtc),
                        ),
                        Err(_) => old(self).channels(),
                    }
                    &&& final(self).messages() == old(self).messages()
                },
                Err(msg) => {
                    &&& final(self).points() == old(self).points()
                    &&& final(self).channels() == old(self).channels()
                    &&& final(self).messages() == old(self).messages().push(msg)
                },
            },
    {
        let ch = hdr.channel_id;
        let data_start = hdr.data_offset();
        let payload = vstd::slice::slice_subrange(pkt_buf, data_start, pkt_buf.len());
        let (csdw, network_time) = match parse_time_f2_payload(payload) {
            Ok(r) => r,
            Err(e) => {
                self.report(f2_message(ch, "parse error: ", &e));
                return;
            },
        };
        proof {
            if let NetworkTime::Ptp(p) = network_time {
                crate::network_time::lemma_builtin_offset_range(
                    saturating_diff(p.seconds, DEFAULT_TAI_UTC_OFFSET as u64),
                );
            }
        }
        match self.correlator.add_reference_f2(ch, hdr.rtc, &network_time, &self.leap_table) {
            Ok(()) => {},
            Err(e) => {
                self.report(f2_message(ch, "correlation error: ", &e));
                return;
            },
        }
        let abs_time = match self.correlator.correlate(hdr.rtc, Some(ch)) {
            Ok(t) => t,
            Err(_) => {
                return;
            },
        };
        let protocol = csdw.time_protocol();
        let source = match protocol {
            NetworkTimeProtocol::Ntp => TimeSource::External,
            NetworkTimeProtocol::Ptp => TimeSource::External,
            NetworkTimeProtocol::Reserved(_) => TimeSource::NoSource,
        };
        let format = match protocol {
            NetworkTimeProtocol::Ntp => TimeFormat::Utc,
            NetworkTimeProtocol::Ptp => TimeFormat::Gps,
            NetworkTimeProtocol::Reserved(_) => TimeFormat::Reserved(0xFF),
        };
        record_channel(
            &mut self.time_channels,
            ch,
            source,
            format,
            DateFormat::DayOfYear,
            false,
            abs_time,
            hdr.rtc,
            self.time_packets,
        );
    }

    /// Count one packet of the given data type.
    fn count_type(&mut self, dt: u8)
        requires
            old(self).total_packets >= 1,
            forall|d: u8|
                #[trigger] old(self).data_type_counts@.contains_key(d)
                    ==> old(self).data_type_counts@[d] < old(self).total_packets,
        ensures
            final(self).data_type_counts@ == old(self).data_type_counts@.insert(
                dt,
                (count_of(old(self).data_type_counts@, dt) + 1) as usize,
            ),
            forall|d: u8|
                #[trigger] final(self).data_type_counts@.contains_key(d)
                    ==> final(self).data_type_counts@[d] <= old(self).total_packets,
            final(self).correlator == old(self).correlator,
            final(self).leap_table == old(self).leap_table,
            final(self).time_channels == old(self).time_channels,
            final(self).total_packets == old(self).total_packets,
            final(self).time_packets == old(self).time_packets,
            final(self).first_rtc == old(self).first_rtc,
            final(self).last_rtc == old(self).last_rtc,
            final(self).resolved == old(self).resolved,
            final(self).errors == old(self).errors,
    {
        let n = match self.data_type_counts.remove(&dt) {
            Some(n) => n,
            None => 0,
        };
        self.data_type_counts.insert(dt, n + 1);
    }

    /// Count and process a time packet (Format 1 or 2); other packets are left alone.
    fn handle_time_packet(&mut self, pkt: &[u8], hdr: &PktHeader)
        requires
            old(self).wf(),
            old(self).time_packets < old(self).total_packets,
            hdr.data_type == DATA_TYPE_TIME_F2 ==> spec_data_offset(*hdr) <= pkt@.len(),
        ensures
            final(self).wf(),
            final(self).total_packets == old(self).total_packets,
            final(self).data_type_counts == old(self).data_type_counts,
            final(self).first_rtc == old(self).first_rtc,
            final(self).last_rtc == old(self).last_rtc,
            final(self).resolved == old(self).resolved,
            final(self).time_packets == old(self).time_packets + if hdr.data_type
                == DATA_TYPE_TIME_F1 || hdr.data_type == DATA_TYPE_TIME_F2 {
                1int
            } else {
                0
            },
            final(self).state() == time_state(old(self).state(), pkt@, *hdr),
    {
        let ghost s0 = self.state();
        if hdr.data_type == DATA_TYPE_TIME_F1 {
            self.time_packets = self.time_packets + 1;
            let ghost s1 = self.state();
            assert(s1 =~= ScanState { time_packets: s0.time_packets + 1, ..s0 });
            self.process_time_packet(pkt, hdr);
            assert(self.state() =~= f1_state(s1, pkt@, *hdr));
        } else if hdr.data_type == DATA_TYPE_TIME_F2 {
            self.time_packets = self.time_packets + 1;
            let ghost s1 = self.state();
            assert(s1 =~= ScanState { time_packets: s0.time_packets + 1, ..s0 });
            self.process_time_f2_packet(pkt, hdr);
            assert(self.state() =~= f2_state(s1, pkt@, *hdr));
        }
    }

    /// Handle one packet of the stream: track the RTC range and the data type, process a
    /// time packet, optionally resolve the packet to absolute time, and count it.
    #[verifier::spinoff_prover]
    #[verifier::rlimit(100)]
    fn scan_packet(
        &mut self,
        mmap: &[u8],
        offset: usize,
        pkt_len: usize,
        hdr: &PktHeader,
        resolve_all: bool,
    )
        requires
            old(self).wf(),
            offset + pkt_len <= mmap@.len(),
            old(self).total_packets < usize::MAX,
            hdr.data_type == DATA_TYPE_TIME_F2 ==> spec_data_offset(*hdr) <= pkt_len,
        ensures
            final(self).wf(),
            final(self).state() == packet_state(
                old(self).state(),
                mmap@,
                offset as int,
                pkt_len as int,
                *hdr,
                resolve_all,
            ),
    {
        let num = self.total_packets;
        self.total_packets = self.total_packets + 1;
        if self.first_rtc.is_none() {
            self.first_rtc = Some(hdr.rtc);
        }
        self.last_rtc = Some(hdr.rtc);
        self.count_type(hdr.data_type);
        let mlen = mmap.len();
        assert(offset + pkt_len <= mlen);
        let pkt = vstd::slice::slice_subrange(mmap, offset, offset + pkt_len);
        let ghost counted = self.state();
        self.handle_time_packet(pkt, hdr);
        assert(pkt@ =~= mmap@.subrange(offset as int, offset + pkt_len));
        if resolve_all {
            let ghost timed = self.state();
            self.resolve_packet(num, offset, hdr);
            assert(self.state() =~= ScanState {
                resolved: timed.resolved.push(
                    ResolvedPacket {
                        packet_num: num,
                        offset,
                        channel_id: hdr.channel_id,
                        data_type: hdr.data_type,
                        rtc: hdr.rtc,
                        abs_time: match spec_correlate(timed.points, hdr.rtc.raw()) {
                            Ok(t) => Some(t),
                            Err(_) => None,
                        },
                    },
                ),
                ..timed
            });
        }
    }

    /// Record a packet resolved to absolute time from all channels' reference points.
    fn resolve_packet(&mut self, num: usize, offset: usize, hdr: &PktHeader)
        requires
            old(self).wf(),
        ensures
            final(self).resolved@ == old(self).resolved@.push(
                ResolvedPacket {
                    packet_num: num,
                    offset,
                    channel_id: hdr.channel_id,
                    data_type: hdr.data_type,
                    rtc: hdr.rtc,
                    abs_time: match spec_correlate(old(self).points(), hdr.rtc.raw()) {
                        Ok(t) => Some(t),
                        Err(_) => None,
                    },
                },
            ),
            final(self).correlator == old(self).correlator,
            final(self).leap_table == old(self).leap_table,
            final(self).time_channels == old(self).time_channels,
            final(self).total_packets == old(self).total_packets,
            final(self).time_packets == old(self).time_packets,
            final(self).data_type_counts == old(self).data_type_counts,
            final(self).first_rtc == old(self).first_rtc,
            final(self).last_rtc == old(self).last_rtc,
            final(self).errors == old(self).errors,
    {
        let abs = match self.correlator.correlate(hdr.rtc, None) {
            Ok(t) => Some(t),
            Err(_) => None,
        };
        self.resolved.push(
            ResolvedPacket {
                packet_num: num,
                offset,
                channel_id: hdr.channel_id,
                data_type: hdr.data_type,
                rtc: hdr.rtc,
                abs_time: abs,
            },
        );
    }

    /// Scan a Chapter 10 stream: walk its packets from the start (resynchronizing after
    /// lost sync, and stopping at a truncated or malformed packet or after `limit` packets
    /// in all), handling each packet as [`Ch10TimeScanner::scan_packet`] does, and report
    /// each lost sync.
    pub fn scan(&mut self, mmap: &[u8], resolve_all: bool, limit: Option<usize>)
        requires
            old(self).wf(),
            old(self).spec_total() + mmap@.len() <= usize::MAX,
            f2_packets_fit_from(mmap@, 0, old(self).spec_total() as int, limit),
        ensures
            final(self).wf(),
            final(self).state() == walk_state(mmap@, 0, old(self).state(), limit, resolve_all),
    {
        let ghost s0 = self.state();
        let ghost t0 = self.total_packets;
        let file_len = mmap.len();
        let mut offset: usize = 0;
        loop
            invariant
                file_len == mmap@.len(),
                offset <= file_len,
                self.wf(),
                t0 <= self.total_packets,
                (self.total_packets - t0) * 24 <= offset,
                t0 + file_len <= usize::MAX,
                f2_packets_fit_from(mmap@, offset as int, self.total_packets as int, limit),
                walk_state(mmap@, offset as int, self.state(), limit, resolve_all) == walk_state(
                    mmap@,
                    0,
                    s0,
                    limit,
                    resolve_all,
                ),
            ensures
                self.wf(),
                self.state() == walk_state(mmap@, 0, s0, limit, resolve_all),
            decreases file_len - offset,
        {
            if file_len - offset < HEADER_SIZE {
                proof {
                    lemma_walk_stop(mmap@, offset as int, self.state(), limit, resolve_all);
                }
                break ;
            }
            match limit {
                Some(l) => {
                    if self.total_packets >= l {
                        proof {
                            lemma_walk_stop(mmap@, offset as int, self.state(), limit, resolve_all);
                        }
                        break ;
                    }
                },
                None => {},
            }
            let (step, hdr) = walk_step(mmap, offset);
            match step {
                WalkStep::Stop => {
                    proof {
                        lemma_walk_stop(mmap@, offset as int, self.state(), limit, resolve_all);
                    }
                    break ;
                },
                WalkStep::Resync(next) => {
                    let ghost before = self.state();
                    proof {
                        lemma_walk_resync(mmap@, offset as int, before, limit, resolve_all, next);
                    }
                    let msg = sync_lost_message(offset, next);
                    self.report(msg);
                    assert(self.state() =~= ScanState {
                        messages: before.messages.push(sync_lost_text(offset as nat, next as nat)),
                        ..before
                    });
                    offset = next;
                },
                WalkStep::Packet(pkt_len) => {
                    let h = hdr.unwrap();
                    proof {
                        let rest = mmap@.subrange(offset as int, mmap@.len() as int);
                        assert(rest[15] == mmap@[offset + 15]);
                        assert(rest[14] == mmap@[offset + 14]);
                        assert(h.data_type == mmap@[offset + 15]);
                        assert(h.packet_flags == mmap@[offset + 14]);
                        assert((self.total_packets - t0 + 1) * 24 <= offset + pkt_len);
                        lemma_header_at(h, mmap@, offset as int);
                        lemma_walk_packet(mmap@, offset as int, self.state(), limit, resolve_all, pkt_len);
                    }
                    self.scan_packet(mmap, offset, pkt_len, &h, resolve_all);
                    offset = offset + pkt_len;
                },
            }
        }
    }
}

/// `"Sync lost at 0x<offset>, recovered at 0x<next> (<skipped> bytes skipped)"`.
fn sync_lost_message(offset: usize, next: usize) -> (r: String)
    requires
        offset < next,
    ensures
        r@ == sync_lost_text(offset as nat, next as nat),
{
    let mut msg = String::new();
    push_str(&mut msg, "Sync lost at ");
    push_str(&mut msg, "0x");
    push_hex(&mut msg, offset as u64, 0);
    push_str(&mut msg, ", recovered at ");
    push_str(&mut msg, "0x");
    push_hex(&mut msg, next as u64, 0);
    push_str(&mut msg, " (");
    push_dec(&mut msg, (next - offset) as u64, 0);
    push_str(&mut msg, " bytes skipped)");
    assert(msg@ =~= sync_lost_text(offset as nat, next as nat));
    msg
}

/// A data type's count (0 when absent).
pub open spec fn count_of(m: Map<u8, usize>, dt: u8) -> int {
    if m.contains_key(dt) {
        m[dt] as int
    } else {
        0
    }
}



/// Update a channel's inventory entry for one more time packet.
fn record_channel(
    m: &mut BTreeMap<u16, TimeChannelInfo>,
    ch: u16,
    source: TimeSource,
    format: TimeFormat,
    date_format: DateFormat,
    is_leap_year: bool,
    time: AbsoluteTime,
    rtc: Rtc,
    bound: usize,
)
    requires
        bound >= 1,
        forall|c: u16| #[trigger] old(m)@.contains_key(c) ==> old(m)@[c].packet_count < bound,
    ensures
        final(m)@ == old(m)@.insert(
            ch,
            record_time(info_of(old(m)@, ch), source, format, date_format, is_leap_year, time, rtc),
        ),
        forall|c: u16| #[trigger] final(m)@.contains_key(c) ==> final(m)@[c].packet_count <= bound,
{
    let info = match m.remove(&ch) {
        Some(i) => i,
        None => TimeChannelInfo::new(ch),
    };
    let updated = record_time_exec(info, source, format, date_format, is_leap_year, time, rtc);
    m.insert(ch, updated);
}

/// An inventory entry after one more time packet (see [`record_time`]).
fn record_time_exec(
    info: TimeChannelInfo,
    source: TimeSource,
    format: TimeFormat,
    date_format: DateFormat,
    is_leap_year: bool,
    time: AbsoluteTime,
    rtc: Rtc,
) -> (r: TimeChannelInfo)
    requires
        info.packet_count < usize::MAX,
    ensures
        r == record_time(info, source, format, date_format, is_leap_year, time, rtc),
{
    let mut info = info;
    info.packet_count = info.packet_count + 1;
    info.source = Some(source);
    info.format = Some(format);
    info.date_format = Some(date_format);
    info.is_leap_year = Some(is_leap_year);
    if info.first_time.is_none() {
        info.first_time = Some(time);
        info.first_rtc = Some(rtc);
    }
    info.last_time = Some(time);
    info.last_rtc = Some(rtc);
    info
}

/// `"Time packet ch=<ch>: <what>"`.
fn f1_message(ch: u16, what: &str) -> (r: String)
    ensures
        r@ == f1_text(ch, what@),
{
    let mut msg = String::new();
    push_str(&mut msg, "Time packet ch=");
    push_dec(&mut msg, ch as u64, 0);
    push_str(&mut msg, ": ");
    push_str(&mut msg, what);
    assert(msg@ =~= f1_text(ch, what@));
    msg
}

/// `"Time F2 packet ch=<ch>: <what><error>"`.
fn f2_message(ch: u16, what: &str, e: &TimeError) -> (r: String)
    ensures
        r@ == f2_text(ch, what@ + e.message()),
{
    let mut msg = String::new();
    push_str(&mut msg, "Time F2 packet ch=");
    push_dec(&mut msg, ch as u64, 0);
    push_str(&mut msg, ": ");
    push_str(&mut msg, what);
    let text = e.to_string();
    push_str(&mut msg, text.as_str());
    assert(msg@ =~= f2_text(ch, what@ + e.message()));
    msg
}

/// Decode a Format 1 time packet: its CSDW and absolute time, or the message to report.
fn decode_f1(pkt_buf: &[u8], hdr: &PktHeader) -> (r: core::result::Result<(TimeF1Csdw, AbsoluteTime), String>)
    ensures
        match f1_outcome(pkt_buf@, *hdr) {
            Ok((raw, t)) => r matches Ok((c, a)) && c.raw() == raw && a == t && t.valid(),
            Err(msg) => r matches Err(m) && m@ == msg,
        },
{
    let ch = hdr.channel_id;
    let data_start = hdr.data_offset();
    if data_start + 4 > pkt_buf.len() {
        let mut msg = String::new();
        push_str(&mut msg, "Time packet at ch=");
        push_dec(&mut msg, ch as u64, 0);
        push_str(&mut msg, " too short for CSDW");
        assert(msg@ =~= short_csdw_text(ch));
        return Err(msg);
    }
    let csdw = TimeF1Csdw::from_le_bytes(
        [
            pkt_buf[data_start],
            pkt_buf[data_start + 1],
            pkt_buf[data_start + 2],
            pkt_buf[data_start + 3],
        ],
    );
    let bcd_start = data_start + 4;
    let rest = vstd::slice::slice_subrange(pkt_buf, bcd_start, pkt_buf.len());
    match csdw.date_format() {
        DateFormat::DayOfYear => {
            if bcd_start + 8 > pkt_buf.len() {
                return Err(f1_message(ch, "buffer too short for DOY BCD"));
            }
            match DayFormatTime::from_le_bytes(rest) {
                Ok(t) => {
                    proof {
                        lemma_day_format_decoded_in_range(rest@);
                    }
                    Ok((csdw, t.to_absolute()))
                },
                Err(e) => {
                    let text = e.to_string();
                    let mut what = String::new();
                    push_str(&mut what, "DOY BCD error: ");
                    push_str(&mut what, text.as_str());
                    Err(f1_message(ch, what.as_str()))
                },
            }
        },
        DateFormat::DayMonthYear => {
            if bcd_start + 10 > pkt_buf.len() {
                return Err(f1_message(ch, "buffer too short for DMY BCD"));
            }
            match DmyFormatTime::from_le_bytes(rest) {
                Ok(t) => {
                    proof {
                        lemma_dmy_format_decoded_in_range(rest@);
                    }
                    Ok((csdw, t.to_absolute()))
                },
                Err(e) => {
                    let text = e.to_string();
                    let mut what = String::new();
                    push_str(&mut what, "DMY BCD error: ");
                    push_str(&mut what, text.as_str());
                    Err(f1_message(ch, what.as_str()))
                },
            }
        },
    }
}

} // verus!
