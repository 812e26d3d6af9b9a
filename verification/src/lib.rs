//! Nanosecond-precision time handling for IRIG 106 Chapter 10 telemetry data.
//!
//! - RTC: 48-bit Relative Time Counter with wrap-safe arithmetic.
//! - Absolute time: day-of-year and time-of-day with optional calendar date.
//! - Wire formats: Chapter 4 binary time, IEEE-1588 and extended RTC decoding.
//! - Time Data Format 1 (0x11): CSDW parsing and BCD day-of-year / day-month-year messages.
//! - Time Data Format 2 (0x12): NTP and PTP decoding with a leap-second table.
//! - Secondary headers and intra-packet time stamps.
//! - Correlation: RTC-to-absolute-time interpolation, time-jump and RTC-reset detection,
//!   and a streaming correlator with a sliding window.
//! - IRIG 106 version detection and version-aware CSDW parsing.
//! - Scanning a Chapter 10 stream for its time packets, and conversions to and from
//!   `chrono::NaiveDateTime`.

pub mod rtc;
pub mod util;
pub mod text;
pub mod error;
pub mod absolute;
pub mod bcd;
pub mod version;
pub mod packet_standard;
pub mod csdw;
pub mod recording_event;
pub mod intra_packet;
pub mod secondary;
pub mod search;
pub mod network_time;
pub mod correlation;
pub mod streaming;
pub mod quality;
pub mod scanner;
pub mod chrono_interop;

pub use absolute::{AbsoluteTime, CalendarTime, Ch4BinaryTime, Ertc, Ieee1588Time};
pub use bcd::{DayFormatTime, DmyFormatTime};
pub use correlation::{ReferencePoint, RtcReset, TimeCorrelator, TimeJump};
pub use csdw::{DateFormat, TimeF1Csdw, TimeFormat, TimeSource};
pub use error::{Result, TimeError};
pub use intra_packet::{IntraPacketTime, IntraPacketTimeFormat};
pub use network_time::{
    LeapSecondEntry, LeapSecondTable, NetworkTime, NetworkTimeProtocol, NtpTime, PtpTime,
    TimeF2Csdw, DEFAULT_TAI_UTC_OFFSET, NTP_UNIX_EPOCH_OFFSET,
};
pub use rtc::Rtc;
pub use secondary::{SecHdrTimeFormat, SecondaryHeaderTime};
pub use version::{detect_version, Irig106Version};
