//! IRIG 106 standard version detection.
//!
//! The version is encoded in the TMATS CSDW's version field (bits 7:0), defined from 106-07
//! onward. Files recorded before 106-07 have this field set to zero.

use vstd::prelude::*;

verus! {

/// Known IRIG 106 standard versions with time-relevant changes, in chronological order.
#[derive(Debug, Clone, Copy, PartialEq, Eq, PartialOrd, Ord, Hash, Structural)]
pub enum Irig106Version {
    /// Pre-07 file (version field = 0). Assume 106-04/05 behavior.
    Pre07,
    /// IRIG 106-07 (version field = 7).
    V07,
    /// IRIG 106-09 (version field = 8).
    V09,
    /// IRIG 106-11 (version field = 9).
    V11,
    /// IRIG 106-13 (version field = 0x0A).
    V13,
    /// IRIG 106-15 (version field = 0x0B).
    V15,
    /// IRIG 106-17 (version field = 0x0C). Ch10/Ch11 split.
    V17,
    /// IRIG 106-19 (version field = 0x0D).
    V19,
    /// IRIG 106-22 (version field = 0x0E). Network Time (0x12) added.
    V22,
    /// IRIG 106-23 (version field = 0x0F).
    V23,
    /// Unrecognized version field value.
    Unknown(u8),
}

/// The version named by a TMATS CSDW version field value.
pub open spec fn spec_version_from_field(val: u8) -> Irig106Version {
    if val == 0 {
        Irig106Version::Pre07
    } else if val == 7 {
        Irig106Version::V07
    } else if val == 8 {
        Irig106Version::V09
    } else if val == 9 {
        Irig106Version::V11
    } else if val == 0x0A {
        Irig106Version::V13
    } else if val == 0x0B {
        Irig106Version::V15
    } else if val == 0x0C {
        Irig106Version::V17
    } else if val == 0x0D {
        Irig106Version::V19
    } else if val == 0x0E {
        Irig106Version::V22
    } else if val == 0x0F {
        Irig106Version::V23
    } else {
        Irig106Version::Unknown(val)
    }
}

impl Irig106Version {
    /// Decode the IRIG 106 version from the TMATS CSDW version field (bits 7:0).
    /// A value of 0 indicates a pre-07 file (106-04 or 106-05).
    pub fn from_version_field(val: u8) -> (r: Self)
        ensures
            r == spec_version_from_field(val),
    {
        match val {
            0 => Irig106Version::Pre07,
            7 => Irig106Version::V07,
            8 => Irig106Version::V09,
            9 => Irig106Version::V11,
            0x0A => Irig106Version::V13,
            0x0B => Irig106Version::V15,
            0x0C => Irig106Version::V17,
            0x0D => Irig106Version::V19,
            0x0E => Irig106Version::V22,
            0x0F => Irig106Version::V23,
            other => Irig106Version::Unknown(other),
        }
    }

    /// `true` for files without the 106-05 packet ordering guarantee (pre-07 files).
    pub fn is_pre_ordering_guarantee(&self) -> (r: bool)
        ensures
            r == (*self is Pre07),
    {
        matches!(self, Irig106Version::Pre07)
    }

    /// `true` if this version supports Time Data Format 2 (0x12), introduced in 106-22
    /// (unknown, presumably newer, versions included).
    pub fn supports_format_2(&self) -> (r: bool)
        ensures
            r == (*self is V22 || *self is V23 || *self is Unknown),
    {
        matches!(self, Irig106Version::V22 | Irig106Version::V23 | Irig106Version::Unknown(_))
    }

    /// `true` if the CSDW time source value 3 certainly means GPS (every version but pre-07,
    /// where 106-04 and 106-05 disagree).
    pub fn has_gps_time_source(&self) -> (r: bool)
        ensures
            r == !(*self is Pre07),
    {
        !matches!(self, Irig106Version::Pre07)
    }
}

/// Detect the IRIG 106 version from a TMATS CSDW (Data Type 0x01): bits 7:0.
pub fn detect_version(tmats_csdw: u32) -> (r: Irig106Version)
    ensures
        r == spec_version_from_field((tmats_csdw % 256) as u8),
{
    Irig106Version::from_version_field((tmats_csdw % 256) as u8)
}

} // verus!
