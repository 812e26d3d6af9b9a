//! IRIG 106 packet standard provenance.
//!
//! IRIG 106-17 split Chapter 10 into two chapters: packet formats moved to Chapter 11. The
//! wire format of time fields is identical in both; this records which chapter applies.

use vstd::prelude::*;
use crate::version::Irig106Version;

verus! {

/// Identifies whether a packet follows the Chapter 10 or Chapter 11 format.
#[derive(Debug, Clone, Copy, PartialEq, Eq, Hash, Structural)]
pub enum PacketStandard {
    /// Packet format defined by IRIG 106 Chapter 10 (pre-17 standards).
    Ch10,
    /// Packet format defined by IRIG 106 Chapter 11 (106-17 and later).
    Ch11,
}

/// The chapter that defines the packet format of a version: Chapter 10 before 106-17,
/// Chapter 11 from 106-17 on and for unknown (assumed modern) versions.
pub open spec fn spec_standard_of(version: Irig106Version) -> PacketStandard {
    match version {
        Irig106Version::Pre07 | Irig106Version::V07 | Irig106Version::V09 | Irig106Version::V11
        | Irig106Version::V13 | Irig106Version::V15 => PacketStandard::Ch10,
        _ => PacketStandard::Ch11,
    }
}

impl PacketStandard {
    /// Derive the packet standard from an IRIG 106 version.
    pub fn from_version(version: &Irig106Version) -> (r: Self)
        ensures
            r == spec_standard_of(*version),
    {
        match version {
            Irig106Version::Pre07
            | Irig106Version::V07
            | Irig106Version::V09
            | Irig106Version::V11
            | Irig106Version::V13
            | Irig106Version::V15 => PacketStandard::Ch10,
            Irig106Version::V17
            | Irig106Version::V19
            | Irig106Version::V22
            | Irig106Version::V23 => PacketStandard::Ch11,
            Irig106Version::Unknown(_) => PacketStandard::Ch11,
        }
    }

    /// Returns `true` if this is a Chapter 11 packet format.
    pub fn is_ch11(self) -> (r: bool)
        ensures
            r == (self is Ch11),
    {
        matches!(self, PacketStandard::Ch11)
    }

    /// Returns `true` if this is a Chapter 10 packet format.
    pub fn is_ch10(self) -> (r: bool)
        ensures
            r == (self is Ch10),
    {
        matches!(self, PacketStandard::Ch10)
    }

    /// Text form: "Chapter 10" or "Chapter 11".
    pub fn to_string(&self) -> (s: String)
        ensures
            s@ == match *self {
                PacketStandard::Ch10 => "Chapter 10"@,
                PacketStandard::Ch11 => "Chapter 11"@,
            },
    {
        match self {
            PacketStandard::Ch10 => String::from_str("Chapter 10"),
            PacketStandard::Ch11 => String::from_str("Chapter 11"),
        }
    }
}

} // verus!
