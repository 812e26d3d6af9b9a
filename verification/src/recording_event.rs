//! Recording Event (Data Type 0x02) time context.
//!
//! Recording events carry the packet's RTC and, when a secondary header is present, an
//! absolute time; such events can serve as supplementary correlation reference points.

use vstd::prelude::*;
use crate::absolute::AbsoluteTime;
use crate::rtc::Rtc;
use crate::text::{fmt_dec, fmt_hex, push_dec, push_hex, push_str};

verus! {

/// Recording event types from Data Type 0x02 packets.
#[derive(Debug, Clone, Copy, PartialEq, Eq, Hash, Structural)]
pub enum RecordingEventType {
    /// Recording started (index 0x01).
    Started,
    /// Recording stopped (index 0x02).
    Stopped,
    /// Recording overrun: data may have been lost (index 0x03).
    Overrun,
    /// User-defined index point (index 0x04-0x0F).
    IndexPoint(u8),
    /// Reserved or unknown event type.
    Reserved(u8),
}

/// The event type that a Recording Event Index names.
pub open spec fn spec_event_type(index: u8) -> RecordingEventType {
    if index == 1 {
        RecordingEventType::Started
    } else if index == 2 {
        RecordingEventType::Stopped
    } else if index == 3 {
        RecordingEventType::Overrun
    } else if 4 <= index <= 0x0F {
        RecordingEventType::IndexPoint(index)
    } else {
        RecordingEventType::Reserved(index)
    }
}

impl RecordingEventType {
    /// Decode the event type from the Recording Event Index field.
    pub fn from_index(index: u8) -> (r: Self)
        ensures
            r == spec_event_type(index),
    {
        match index {
            0x01 => RecordingEventType::Started,
            0x02 => RecordingEventType::Stopped,
            0x03 => RecordingEventType::Overrun,
            0x04..=0x0F => RecordingEventType::IndexPoint(index),
            other => RecordingEventType::Reserved(other),
        }
    }

    /// `true` for events after which the time reference may not be continuous (stopped,
    /// overrun).
    pub fn may_cause_time_gap(self) -> (r: bool)
        ensures
            r == (self is Stopped || self is Overrun),
    {
        matches!(self, RecordingEventType::Stopped | RecordingEventType::Overrun)
    }

    /// Text form of the event type.
    pub open spec fn text(self) -> Seq<char> {
        match self {
            RecordingEventType::Started => "Recording Started"@,
            RecordingEventType::Stopped => "Recording Stopped"@,
            RecordingEventType::Overrun => "Recording Overrun"@,
            RecordingEventType::IndexPoint(idx) => "Index Point "@ + fmt_dec(idx as nat, 0),
            RecordingEventType::Reserved(v) => "Reserved(0x"@ + fmt_hex(v as nat, 2) + ")"@,
        }
    }

    /// Render the event type as text (see [`RecordingEventType::text`]).
    pub fn to_string(&self) -> (s: String)
        ensures
            s@ == self.text(),
    {
        let mut s = String::new();
        match self {
            RecordingEventType::Started => push_str(&mut s, "Recording Started"),
            RecordingEventType::Stopped => push_str(&mut s, "Recording Stopped"),
            RecordingEventType::Overrun => push_str(&mut s, "Recording Overrun"),
            RecordingEventType::IndexPoint(idx) => {
                push_str(&mut s, "Index Point ");
                push_dec(&mut s, *idx as u64, 0);
            },
            RecordingEventType::Reserved(v) => {
                push_str(&mut s, "Reserved(0x");
                push_hex(&mut s, *v as u64, 2);
                push_str(&mut s, ")");
            },
        }
        assert(s@ =~= self.text());
        s
    }
}

/// A recording event with its time context.
#[derive(Debug, Clone, Copy, PartialEq, Eq, Structural)]
pub struct RecordingEvent {
    /// The type of recording event.
    pub event_type: RecordingEventType,
    /// Channel ID from the packet header.
    pub channel_id: u16,
    /// RTC from the packet header.
    pub rtc: Rtc,
    /// Absolute time from the secondary header, if present.
    pub absolute_time: Option<AbsoluteTime>,
}

impl RecordingEvent {
    /// Create a recording event from packet header fields.
    pub fn new(event_index: u8, channel_id: u16, rtc: Rtc, abs_time: Option<AbsoluteTime>) -> (r:
        Self)
        ensures
            r == (RecordingEvent {
                event_type: spec_event_type(event_index),
                channel_id,
                rtc,
                absolute_time: abs_time,
            }),
    {
        RecordingEvent {
            event_type: RecordingEventType::from_index(event_index),
            channel_id,
            rtc,
            absolute_time: abs_time,
        }
    }

    /// Whether this event carries an absolute time and can serve as a reference point.
    pub fn has_reference_time(&self) -> (r: bool)
        ensures
            r == self.absolute_time is Some,
    {
        self.absolute_time.is_some()
    }
}

} // verus!
