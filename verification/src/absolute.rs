//! Absolute time representations for IRIG 106 Chapter 10.
//!
//! - [`AbsoluteTime`]: day-of-year based time with optional calendar fields.
//! - [`CalendarTime`]: time with a validated year, month and day of month.
//! - [`Ch4BinaryTime`], [`Ieee1588Time`], [`Ertc`]: wire formats of secondary headers and
//!   intra-packet time stamps.

use vstd::prelude::*;
use crate::error::{Result, TimeError};
use crate::text::{fmt_dec, push_dec, push_str};
use crate::util::{
    is_leap_year, spec_days_in_month, spec_days_in_year, spec_month_day_to_doy,
};

verus! {

/// Nanoseconds per second.
pub const NANOS_PER_SECOND: u64 = 1_000_000_000;

/// Nanoseconds per minute.
pub const NANOS_PER_MINUTE: u64 = 60_000_000_000;

/// Nanoseconds per hour.
pub const NANOS_PER_HOUR: u64 = 3_600_000_000_000;

/// Nanoseconds per day.
pub const NANOS_PER_DAY: u64 = 86_400_000_000_000;

/// Nanoseconds in the longest year (366 days): the range of the day-of-year clock.
pub const NANOS_PER_LEAP_YEAR: u64 = 31_622_400_000_000_000;

/// Nanosecond-precision absolute time based on day-of-year.
///
/// The `year`, `month` and `day_of_month` fields are optional because some IRIG 106 time
/// sources (BCD day-of-year, IRIG-B) do not carry them.
#[derive(Debug, Clone, Copy, PartialEq, Eq, Hash, Structural)]
pub struct AbsoluteTime {
    /// Day of year (1-366).
    pub day_of_year: u16,
    /// Hours (0-23).
    pub hours: u8,
    /// Minutes (0-59).
    pub minutes: u8,
    /// Seconds (0-59).
    pub seconds: u8,
    /// Nanoseconds within the second (0-999_999_999).
    pub nanoseconds: u32,
    /// Month (1-12), when the time source provides it.
    pub month: Option<u8>,
    /// Day of month (1-31), when the time source provides it.
    pub day_of_month: Option<u8>,
    /// Year (0-9999), when the time source provides it.
    pub year: Option<u16>,
}

/// What `AbsoluteTime::new` returns for the given fields: the first field out of range is
/// reported, checked in the order day of year, hours, minutes, seconds, nanoseconds.
pub open spec fn spec_absolute_new(
    day_of_year: u16,
    hours: u8,
    minutes: u8,
    seconds: u8,
    nanoseconds: u32,
) -> Result<AbsoluteTime> {
    if day_of_year == 0 || day_of_year > 366 {
        Err(TimeError::OutOfRange { field: "day_of_year", value: day_of_year as u32, max: 366 })
    } else if hours > 23 {
        Err(TimeError::OutOfRange { field: "hours", value: hours as u32, max: 23 })
    } else if minutes > 59 {
        Err(TimeError::OutOfRange { field: "minutes", value: minutes as u32, max: 59 })
    } else if seconds > 59 {
        Err(TimeError::OutOfRange { field: "seconds", value: seconds as u32, max: 59 })
    } else if nanoseconds > 999_999_999 {
        Err(TimeError::OutOfRange { field: "nanoseconds", value: nanoseconds, max: 999_999_999 })
    } else {
        Ok(
            AbsoluteTime {
                day_of_year,
                hours,
                minutes,
                seconds,
                nanoseconds,
                month: None,
                day_of_month: None,
                year: None,
            },
        )
    }
}

/// The time that lies `total` nanoseconds after the start of day 1, in the given year.
pub open spec fn spec_from_total(total: int, year: Option<u16>) -> AbsoluteTime {
    AbsoluteTime {
        day_of_year: (total / NANOS_PER_DAY as int + 1) as u16,
        hours: ((total % NANOS_PER_DAY as int) / NANOS_PER_HOUR as int) as u8,
        minutes: ((total % NANOS_PER_HOUR as int) / NANOS_PER_MINUTE as int) as u8,
        seconds: ((total % NANOS_PER_MINUTE as int) / NANOS_PER_SECOND as int) as u8,
        nanoseconds: (total % NANOS_PER_SECOND as int) as u32,
        month: None,
        day_of_month: None,
        year,
    }
}

/// Stepping back a deficit of nanoseconds across year boundaries: the time within the
/// earlier year and that year. Each step goes back one year (365 days when the year is
/// unknown, never below year 0).
pub open spec fn spec_year_rollover(remaining: int, year: Option<u16>) -> (int, Option<u16>)
    decreases remaining,
{
    let prev = match year {
        Some(y) => Some(if y == 0 {
            0u16
        } else {
            (y - 1) as u16
        }),
        None => None,
    };
    let days = match prev {
        Some(y) => spec_days_in_year(y as int),
        None => 365,
    };
    let prev_ns = days * NANOS_PER_DAY as int;
    if remaining <= prev_ns {
        (prev_ns - remaining, prev)
    } else {
        spec_year_rollover(remaining - prev_ns, prev)
    }
}

/// What `add_nanos` returns: the 366-day clock advanced by `nanos`, wrapping, in the same
/// year.
pub open spec fn spec_add_nanos(t: AbsoluteTime, nanos: int) -> AbsoluteTime {
    spec_from_total((t.total_ns() + nanos) % NANOS_PER_LEAP_YEAR as int, t.year)
}

/// What `sub_nanos` returns: the clock moved back by `nanos`, stepping into earlier years
/// when it passes the start of day 1.
pub open spec fn spec_sub_nanos(t: AbsoluteTime, nanos: int) -> AbsoluteTime {
    if nanos <= t.total_ns() {
        spec_from_total(t.total_ns() - nanos, t.year)
    } else {
        spec_from_total(
            spec_year_rollover(nanos - t.total_ns(), t.year).0,
            spec_year_rollover(nanos - t.total_ns(), t.year).1,
        )
    }
}

impl AbsoluteTime {
    /// All time-of-day and day-of-year fields are within their ranges.
    pub open spec fn valid(self) -> bool {
        &&& 1 <= self.day_of_year <= 366
        &&& self.hours <= 23
        &&& self.minutes <= 59
        &&& self.seconds <= 59
        &&& self.nanoseconds <= 999_999_999
    }

    /// Nanoseconds since midnight of the current day.
    pub open spec fn nanos_of_day(self) -> int {
        self.hours * NANOS_PER_HOUR as int + self.minutes * NANOS_PER_MINUTE as int + self.seconds
            * NANOS_PER_SECOND as int + self.nanoseconds
    }

    /// Nanoseconds since the start of day 1.
    pub open spec fn total_ns(self) -> int {
        (self.day_of_year - 1) * NANOS_PER_DAY as int + self.nanos_of_day()
    }

    /// Create a new `AbsoluteTime` with day-of-year format, validating ranges.
    pub fn new(day_of_year: u16, hours: u8, minutes: u8, seconds: u8, nanoseconds: u32) -> (r:
        Result<Self>)
        ensures
            r == spec_absolute_new(day_of_year, hours, minutes, seconds, nanoseconds),
            r is Ok ==> r->Ok_0.valid(),
    {
        if day_of_year == 0 || day_of_year > 366 {
            return Err(
                TimeError::OutOfRange {
                    field: "day_of_year",
                    value: day_of_year as u32,
                    max: 366,
                },
            );
        }
        if hours > 23 {
            return Err(TimeError::OutOfRange { field: "hours", value: hours as u32, max: 23 });
        }
        if minutes > 59 {
            return Err(TimeError::OutOfRange { field: "minutes", value: minutes as u32, max: 59 });
        }
        if seconds > 59 {
            return Err(TimeError::OutOfRange { field: "seconds", value: seconds as u32, max: 59 });
        }
        if nanoseconds > 999_999_999 {
            return Err(
                TimeError::OutOfRange {
                    field: "nanoseconds",
                    value: nanoseconds,
                    max: 999_999_999,
                },
            );
        }
        Ok(
            AbsoluteTime {
                day_of_year,
                hours,
                minutes,
                seconds,
                nanoseconds,
                month: None,
                day_of_month: None,
                year: None,
            },
        )
    }

    /// Build the time `total` nanoseconds after the start of day 1.
    fn from_total(total: u64, year: Option<u16>) -> (r: Self)
        requires
            total < NANOS_PER_LEAP_YEAR,
        ensures
            r == spec_from_total(total as int, year),
            r.valid(),
            r.total_ns() == total,
    {
        proof {
            lemma_from_total(total as int, year);
        }
        AbsoluteTime {
            day_of_year: (total / NANOS_PER_DAY + 1) as u16,
            hours: ((total % NANOS_PER_DAY) / NANOS_PER_HOUR) as u8,
            minutes: ((total % NANOS_PER_HOUR) / NANOS_PER_MINUTE) as u8,
            seconds: ((total % NANOS_PER_MINUTE) / NANOS_PER_SECOND) as u8,
            nanoseconds: (total % NANOS_PER_SECOND) as u32,
            month: None,
            day_of_month: None,
            year,
        }
    }

    /// Day of year (1-366).
    pub fn day_of_year(&self) -> (r: u16)
        ensures
            r == self.day_of_year,
    {
        self.day_of_year
    }

    /// Hours (0-23).
    pub fn hours(&self) -> (r: u8)
        ensures
            r == self.hours,
    {
        self.hours
    }

    /// Minutes (0-59).
    pub fn minutes(&self) -> (r: u8)
        ensures
            r == self.minutes,
    {
        self.minutes
    }

    /// Seconds (0-59).
    pub fn seconds(&self) -> (r: u8)
        ensures
            r == self.seconds,
    {
        self.seconds
    }

    /// Nanoseconds within the current second (0-999_999_999).
    pub fn nanoseconds(&self) -> (r: u32)
        ensures
            r == self.nanoseconds,
    {
        self.nanoseconds
    }

    /// Month (1-12), when present.
    pub fn month(&self) -> (r: Option<u8>)
        ensures
            r == self.month,
    {
        self.month
    }

    /// Day of month (1-31), when present.
    pub fn day_of_month(&self) -> (r: Option<u8>)
        ensures
            r == self.day_of_month,
    {
        self.day_of_month
    }

    /// Year (0-9999), when present.
    pub fn year(&self) -> (r: Option<u16>)
        ensures
            r == self.year,
    {
        self.year
    }

    /// Set the year field, validating the range (0-9999). `None` clears the year.
    pub fn set_year(&mut self, year: Option<u16>) -> (r: Result<()>)
        ensures
            match year {
                Some(y) if y > 9999 => {
                    &&& r == Err::<(), TimeError>(
                        TimeError::OutOfRange { field: "year", value: y as u32, max: 9999 },
                    )
                    &&& *final(self) == *old(self)
                },
                _ => {
                    &&& r == Ok::<(), TimeError>(())
                    &&& *final(self) == AbsoluteTime { year, ..*old(self) }
                },
            },
    {
        if let Some(y) = year {
            if y > 9999 {
                return Err(TimeError::OutOfRange { field: "year", value: y as u32, max: 9999 });
            }
        }
        self.year = year;
        Ok(())
    }

    /// This time with the year replaced, validating the range (0-9999).
    pub fn with_year(self, year: Option<u16>) -> (r: Result<Self>)
        ensures
            match year {
                Some(y) if y > 9999 => r == Err::<AbsoluteTime, TimeError>(
                    TimeError::OutOfRange { field: "year", value: y as u32, max: 9999 },
                ),
                _ => r == Ok::<AbsoluteTime, TimeError>(AbsoluteTime { year, ..self }),
            },
    {
        let mut t = self;
        match t.set_year(year) {
            Ok(()) => Ok(t),
            Err(e) => Err(e),
        }
    }

    /// Nanoseconds elapsed since midnight of the current day.
    pub fn total_nanos_of_day(&self) -> (r: u64)
        ensures
            r == self.nanos_of_day(),
    {
        self.hours as u64 * NANOS_PER_HOUR + self.minutes as u64 * NANOS_PER_MINUTE
            + self.seconds as u64 * NANOS_PER_SECOND + self.nanoseconds as u64
    }

    /// Total nanoseconds since the start of day 1.
    pub fn as_total_ns(&self) -> (r: u64)
        requires
            self.day_of_year >= 1,
        ensures
            r == self.total_ns(),
    {
        (self.day_of_year as u64 - 1) * NANOS_PER_DAY + self.total_nanos_of_day()
    }

    /// Add `nanos` nanoseconds. The day-of-year clock wraps after 366 days; the year is kept
    /// and the month and day of month are dropped.
    pub fn add_nanos(&self, nanos: u64) -> (r: Self)
        requires
            self.valid(),
            self.total_ns() + nanos <= u64::MAX,
        ensures
            r == spec_from_total((self.total_ns() + nanos) % NANOS_PER_LEAP_YEAR as int, self.year),
            r == spec_add_nanos(*self, nanos as int),
            r.valid(),
    {
        proof {
            lemma_total_bounds(*self);
        }
        let new_total = self.as_total_ns() + nanos;
        let wrapped = if new_total >= NANOS_PER_LEAP_YEAR {
            new_total % NANOS_PER_LEAP_YEAR
        } else {
            new_total
        };
        Self::from_total(wrapped, self.year)
    }

    /// Subtract `nanos` nanoseconds. Crossing the start of day 1 steps back into the
    /// previous year(s): leap-aware when the year is known, 365 days per year otherwise.
    /// The month and day of month are dropped.
    pub fn sub_nanos(&self, nanos: u64) -> (r: Self)
        requires
            self.valid(),
        ensures
            nanos <= self.total_ns() ==> r == spec_from_total(self.total_ns() - nanos, self.year),
            nanos > self.total_ns() ==> r == spec_from_total(
                spec_year_rollover(nanos - self.total_ns(), self.year).0,
                spec_year_rollover(nanos - self.total_ns(), self.year).1,
            ),
            r == spec_sub_nanos(*self, nanos as int),
            r.valid(),
    {
        proof {
            lemma_total_bounds(*self);
        }
        let total = self.as_total_ns();
        if nanos <= total {
            Self::from_total(total - nanos, self.year)
        } else {
            self.sub_nanos_year_rollover(nanos)
        }
    }

    /// Slow path for `sub_nanos` when crossing the year boundary.
    fn sub_nanos_year_rollover(&self, nanos: u64) -> (r: Self)
        requires
            self.valid(),
            nanos > self.total_ns(),
        ensures
            r == spec_from_total(
                spec_year_rollover(nanos - self.total_ns(), self.year).0,
                spec_year_rollover(nanos - self.total_ns(), self.year).1,
            ),
            r.valid(),
    {
        let deficit = nanos - self.as_total_ns();
        let mut new_year = self.year;
        let mut remaining = deficit;
        loop
            invariant
                remaining > 0,
                deficit == nanos - self.total_ns(),
                spec_year_rollover(remaining as int, new_year) == spec_year_rollover(
                    deficit as int,
                    self.year,
                ),
            decreases remaining,
        {
            let prev_year: Option<u16> = match new_year {
                Some(y) => Some(y.saturating_sub(1)),
                None => None,
            };
            let days_in_prev_year: u64 = match prev_year {
                Some(y) => {
                    if is_leap_year(y) {
                        366
                    } else {
                        365
                    }
                },
                None => 365,
            };
            let prev_year_ns = days_in_prev_year * NANOS_PER_DAY;
            let ghost old_year = new_year;
            proof {
                let prev = match old_year {
                    Some(y) => Some(
                        if y == 0 {
                            0u16
                        } else {
                            (y - 1) as u16
                        },
                    ),
                    None => None,
                };
                assert(prev == prev_year);
                assert(prev_year_ns == match prev {
                    Some(y) => spec_days_in_year(y as int),
                    None => 365,
                } * NANOS_PER_DAY as int);
            }
            new_year = prev_year;
            if remaining <= prev_year_ns {
                assert(spec_year_rollover(remaining as int, old_year) == (
                    (prev_year_ns - remaining) as int,
                    prev_year,
                ));
                return Self::from_total(prev_year_ns - remaining, new_year);
            }
            assert(spec_year_rollover(remaining as int, old_year) == spec_year_rollover(
                (remaining - prev_year_ns) as int,
                prev_year,
            ));
            remaining = remaining - prev_year_ns;
        }
    }
}

/// Field decomposition of a nanosecond count within the 366-day clock.
proof fn lemma_from_total(total: int, year: Option<u16>)
    requires
        0 <= total < NANOS_PER_LEAP_YEAR,
    ensures
        spec_from_total(total, year).valid(),
        spec_from_total(total, year).total_ns() == total,
{
    let t = spec_from_total(total, year);
    let d = total / NANOS_PER_DAY as int;
    let rd = total % NANOS_PER_DAY as int;
    assert(total == d * 86_400_000_000_000 + rd && 0 <= rd < 86_400_000_000_000);
    assert(0 <= d <= 365);
    let h = rd / 3_600_000_000_000;
    let rh = rd % 3_600_000_000_000;
    assert(rd == h * 3_600_000_000_000 + rh && 0 <= rh < 3_600_000_000_000);
    assert(total % 3_600_000_000_000 == rh) by {
        assert(total == (d * 24 + h) * 3_600_000_000_000 + rh);
        vstd::arithmetic::div_mod::lemma_fundamental_div_mod_converse(
            total,
            3_600_000_000_000,
            d * 24 + h,
            rh,
        );
    }
    let mi = rh / 60_000_000_000;
    let rm = rh % 60_000_000_000;
    assert(rh == mi * 60_000_000_000 + rm && 0 <= rm < 60_000_000_000);
    assert(total % 60_000_000_000 == rm) by {
        assert(total == ((d * 24 + h) * 60 + mi) * 60_000_000_000 + rm);
        vstd::arithmetic::div_mod::lemma_fundamental_div_mod_converse(
            total,
            60_000_000_000,
            (d * 24 + h) * 60 + mi,
            rm,
        );
    }
    let s = rm / 1_000_000_000;
    let rs = rm % 1_000_000_000;
    assert(rm == s * 1_000_000_000 + rs && 0 <= rs < 1_000_000_000);
    assert(total % 1_000_000_000 == rs) by {
        assert(total == (((d * 24 + h) * 60 + mi) * 60 + s) * 1_000_000_000 + rs);
        vstd::arithmetic::div_mod::lemma_fundamental_div_mod_converse(
            total,
            1_000_000_000,
            ((d * 24 + h) * 60 + mi) * 60 + s,
            rs,
        );
    }
    assert(t.day_of_year == d + 1);
    assert(t.hours == h);
    assert(t.minutes == mi);
    assert(t.seconds == s);
    assert(t.nanoseconds == rs);
}

/// A valid time lies within the 366-day clock.
pub proof fn lemma_total_bounds(t: AbsoluteTime)
    requires
        t.valid(),
    ensures
        0 <= t.nanos_of_day() < NANOS_PER_DAY,
        0 <= t.total_ns() < NANOS_PER_LEAP_YEAR,
{
}

/// Rebuilding a valid time from its nanosecond count gives back the same time, apart from
/// the month and day of month.
pub proof fn lemma_total_round_trip(t: AbsoluteTime)
    requires
        t.valid(),
    ensures
        spec_from_total(t.total_ns(), t.year) == (AbsoluteTime {
            month: None,
            day_of_month: None,
            ..t
        }),
{
    lemma_total_bounds(t);
    lemma_from_total(t.total_ns(), t.year);
    let u = spec_from_total(t.total_ns(), t.year);
    lemma_fields_determined_by_total(u, t);
}

/// Two valid times with the same nanosecond count have the same time fields.
proof fn lemma_fields_determined_by_total(a: AbsoluteTime, b: AbsoluteTime)
    requires
        a.valid(),
        b.valid(),
        a.total_ns() == b.total_ns(),
    ensures
        a.day_of_year == b.day_of_year,
        a.hours == b.hours,
        a.minutes == b.minutes,
        a.seconds == b.seconds,
        a.nanoseconds == b.nanoseconds,
{
    let ta = a.total_ns();
    assert(a.nanos_of_day() == ((a.hours * 60 + a.minutes) * 60 + a.seconds) * 1_000_000_000
        + a.nanoseconds);
    assert(b.nanos_of_day() == ((b.hours * 60 + b.minutes) * 60 + b.seconds) * 1_000_000_000
        + b.nanoseconds);
    vstd::arithmetic::div_mod::lemma_fundamental_div_mod_converse(
        ta,
        1_000_000_000,
        ((a.day_of_year - 1) * 24 + a.hours) * 3600 + a.minutes * 60 + a.seconds,
        a.nanoseconds as int,
    );
    vstd::arithmetic::div_mod::lemma_fundamental_div_mod_converse(
        ta,
        1_000_000_000,
        ((b.day_of_year - 1) * 24 + b.hours) * 3600 + b.minutes * 60 + b.seconds,
        b.nanoseconds as int,
    );
    let sa = ((a.day_of_year - 1) * 24 + a.hours) * 60 + a.minutes;
    let sb = ((b.day_of_year - 1) * 24 + b.hours) * 60 + b.minutes;
    let q = ta / 1_000_000_000;
    vstd::arithmetic::div_mod::lemma_fundamental_div_mod_converse(q, 60, sa, a.seconds as int);
    vstd::arithmetic::div_mod::lemma_fundamental_div_mod_converse(q, 60, sb, b.seconds as int);
    let ha = (a.day_of_year - 1) * 24 + a.hours;
    let hb = (b.day_of_year - 1) * 24 + b.hours;
    vstd::arithmetic::div_mod::lemma_fundamental_div_mod_converse(q / 60, 60, ha, a.minutes as int);
    vstd::arithmetic::div_mod::lemma_fundamental_div_mod_converse(q / 60, 60, hb, b.minutes as int);
    vstd::arithmetic::div_mod::lemma_fundamental_div_mod_converse(
        q / 60 / 60,
        24,
        a.day_of_year - 1,
        a.hours as int,
    );
    vstd::arithmetic::div_mod::lemma_fundamental_div_mod_converse(
        q / 60 / 60,
        24,
        b.day_of_year - 1,
        b.hours as int,
    );
}


/// Adding a sub-wrap duration and then subtracting it gives back the time fields it started from
/// (what `add_nanos` and then `sub_nanos` return).
pub proof fn lemma_add_then_sub_nanos(t: AbsoluteTime, d: nat)
    requires
        t.valid(),
        t.total_ns() + d < NANOS_PER_LEAP_YEAR,
    ensures
        ({
            let added = spec_from_total((t.total_ns() + d) % NANOS_PER_LEAP_YEAR as int, t.year);
            &&& added.valid()
            &&& d <= added.total_ns()
            &&& spec_from_total(added.total_ns() - d, added.year) == (AbsoluteTime {
                month: None,
                day_of_month: None,
                ..t
            })
        }),
{
    lemma_total_bounds(t);
    let x = t.total_ns() + d;
    assert(x % NANOS_PER_LEAP_YEAR as int == x) by {
        vstd::arithmetic::div_mod::lemma_small_mod(x as nat, NANOS_PER_LEAP_YEAR as nat);
    }
    lemma_from_total(x, t.year);
    lemma_total_round_trip(t);
}

/// Adding a positive duration that does not wrap the 366-day clock moves time forward.
pub proof fn lemma_add_nanos_advances(t: AbsoluteTime, d: nat)
    requires
        t.valid(),
        d > 0,
        t.total_ns() + d < NANOS_PER_LEAP_YEAR,
    ensures
        spec_from_total((t.total_ns() + d) % NANOS_PER_LEAP_YEAR as int, t.year).total_ns()
            > t.total_ns(),
{
    lemma_add_then_sub_nanos(t, d);
    let x = t.total_ns() + d;
    assert(x % NANOS_PER_LEAP_YEAR as int == x) by {
        vstd::arithmetic::div_mod::lemma_small_mod(x as nat, NANOS_PER_LEAP_YEAR as nat);
    }
    lemma_from_total(x, t.year);
}

/// `"HH:MM:SS.mmm.uuu"` for a time of day and its nanoseconds.
pub open spec fn clock_text(hours: u8, minutes: u8, seconds: u8, nanoseconds: u32) -> Seq<char> {
    fmt_dec(hours as nat, 2) + ":"@ + fmt_dec(minutes as nat, 2) + ":"@ + fmt_dec(
        seconds as nat,
        2,
    ) + "."@ + fmt_dec((nanoseconds / 1_000_000) as nat, 3) + "."@ + fmt_dec(
        ((nanoseconds / 1_000) % 1_000) as nat,
        3,
    )
}

pub(crate) fn push_clock(s: &mut String, hours: u8, minutes: u8, seconds: u8, nanoseconds: u32)
    ensures
        final(s)@ == old(s)@ + clock_text(hours, minutes, seconds, nanoseconds),
{
    let ghost start = s@;
    push_dec(s, hours as u64, 2);
    push_str(s, ":");
    push_dec(s, minutes as u64, 2);
    push_str(s, ":");
    push_dec(s, seconds as u64, 2);
    push_str(s, ".");
    push_dec(s, (nanoseconds / 1_000_000) as u64, 3);
    push_str(s, ".");
    push_dec(s, ((nanoseconds / 1_000) % 1_000) as u64, 3);
    assert(s@ =~= start + clock_text(hours, minutes, seconds, nanoseconds));
}

impl AbsoluteTime {
    /// Text form: `YYYY Day DDD HH:MM:SS.mmm.uuu` when the year is present,
    /// `Day DDD HH:MM:SS.mmm.uuu` otherwise.
    pub open spec fn text(self) -> Seq<char> {
        let prefix = match self.year {
            Some(y) => fmt_dec(y as nat, 4) + " Day "@,
            None => "Day "@,
        };
        prefix + fmt_dec(self.day_of_year as nat, 3) + " "@ + clock_text(
            self.hours,
            self.minutes,
            self.seconds,
            self.nanoseconds,
        )
    }

    /// Render the time as text (see [`AbsoluteTime::text`]).
    pub fn to_string(&self) -> (s: String)
        ensures
            s@ == self.text(),
    {
        let mut s = String::new();
        match self.year {
            Some(y) => {
                push_dec(&mut s, y as u64, 4);
                push_str(&mut s, " Day ");
            },
            None => {
                push_str(&mut s, "Day ");
            },
        }
        push_dec(&mut s, self.day_of_year as u64, 3);
        push_str(&mut s, " ");
        push_clock(&mut s, self.hours, self.minutes, self.seconds, self.nanoseconds);
        assert(s@ =~= self.text());
        s
    }
}

// ═══════════════════════════════════════════════════════════════════════
// CalendarTime — AbsoluteTime with a validated calendar date
// ═══════════════════════════════════════════════════════════════════════

/// Calendar-aware absolute time with year, month and day of month.
#[derive(Debug, Clone, Copy, PartialEq, Eq, Hash, Structural)]
pub struct CalendarTime {
    time: AbsoluteTime,
    month: u8,
    day_of_month: u8,
}

/// The error that `CalendarTime::new` reports, if any: the year must be set, the month must
/// be 1-12, the day must exist in that month, and the day of year must match the date.
pub open spec fn spec_calendar_error(time: AbsoluteTime, month: u8, day_of_month: u8) -> Option<
    TimeError,
> {
    match time.year {
        None => Some(TimeError::OutOfRange { field: "year", value: 0, max: 9999 }),
        Some(year) => {
            let max_day = spec_days_in_month(year as int, month as int);
            let expected = spec_month_day_to_doy(year as int, month as int, day_of_month as int);
            if month == 0 || month > 12 {
                Some(TimeError::OutOfRange { field: "month", value: month as u32, max: 12 })
            } else if day_of_month == 0 || day_of_month > max_day {
                Some(
                    TimeError::OutOfRange {
                        field: "day_of_month",
                        value: day_of_month as u32,
                        max: max_day as u32,
                    },
                )
            } else if time.day_of_year != expected {
                Some(
                    TimeError::OutOfRange {
                        field: "day_of_year",
                        value: time.day_of_year as u32,
                        max: expected as u32,
                    },
                )
            } else {
                None
            }
        },
    }
}

/// The time (with its year set) that `CalendarTime::from_parts` wraps, or the error it
/// reports.
pub open spec fn spec_calendar_from_parts(
    year: u16,
    month: u8,
    day_of_month: u8,
    day_of_year: u16,
    hours: u8,
    minutes: u8,
    seconds: u8,
    nanoseconds: u32,
) -> Result<AbsoluteTime> {
    match spec_absolute_new(day_of_year, hours, minutes, seconds, nanoseconds) {
        Err(e) => Err(e),
        Ok(t) => if year > 9999 {
            Err(TimeError::OutOfRange { field: "year", value: year as u32, max: 9999 })
        } else {
            let ty = AbsoluteTime { year: Some(year), ..t };
            match spec_calendar_error(ty, month, day_of_month) {
                Some(e) => Err(e),
                None => Ok(ty),
            }
        },
    }
}

impl CalendarTime {
    /// The underlying day-of-year time.
    pub closed spec fn inner(self) -> AbsoluteTime {
        self.time
    }

    /// The month (1-12).
    pub closed spec fn spec_month(self) -> u8 {
        self.month
    }

    /// The day of month (1-31).
    pub closed spec fn spec_day_of_month(self) -> u8 {
        self.day_of_month
    }

    /// Assemble a calendar time from its parts, without checking them.
    pub(crate) fn from_fields(time: AbsoluteTime, month: u8, day_of_month: u8) -> (r: Self)
        ensures
            r.inner() == time,
            r.spec_month() == month,
            r.spec_day_of_month() == day_of_month,
    {
        CalendarTime { time, month, day_of_month }
    }

    /// Create a `CalendarTime` from an `AbsoluteTime` and validated date fields.
    pub fn new(time: AbsoluteTime, month: u8, day_of_month: u8) -> (r: Result<Self>)
        ensures
            match r {
                Ok(c) => spec_calendar_error(time, month, day_of_month) is None && c.inner()
                    == time && c.spec_month() == month && c.spec_day_of_month() == day_of_month,
                Err(e) => spec_calendar_error(time, month, day_of_month) == Some(e),
            },
    {
        let year = match time.year() {
            Some(y) => y,
            None => {
                return Err(TimeError::OutOfRange { field: "year", value: 0, max: 9999 });
            },
        };
        if month == 0 || month > 12 {
            return Err(TimeError::OutOfRange { field: "month", value: month as u32, max: 12 });
        }
        let max_day = crate::util::days_in_month(year, month);
        if day_of_month == 0 || day_of_month > max_day {
            return Err(
                TimeError::OutOfRange {
                    field: "day_of_month",
                    value: day_of_month as u32,
                    max: max_day as u32,
                },
            );
        }
        let expected_doy = crate::util::month_day_to_doy(year, month, day_of_month);
        if time.day_of_year() != expected_doy {
            return Err(
                TimeError::OutOfRange {
                    field: "day_of_year",
                    value: time.day_of_year() as u32,
                    max: expected_doy as u32,
                },
            );
        }
        Ok(CalendarTime { time, month, day_of_month })
    }

    /// Create a `CalendarTime` from all component parts (`AbsoluteTime::new`, then the year,
    /// then `CalendarTime::new`).
    #[allow(clippy::too_many_arguments)]
    pub fn from_parts(
        year: u16,
        month: u8,
        day_of_month: u8,
        day_of_year: u16,
        hours: u8,
        minutes: u8,
        seconds: u8,
        nanoseconds: u32,
    ) -> (r: Result<Self>)
        ensures
            match spec_calendar_from_parts(
                year,
                month,
                day_of_month,
                day_of_year,
                hours,
                minutes,
                seconds,
                nanoseconds,
            ) {
                Ok(t) => r is Ok && r->Ok_0.inner() == t && r->Ok_0.spec_month() == month
                    && r->Ok_0.spec_day_of_month() == day_of_month,
                Err(e) => r == Err::<CalendarTime, TimeError>(e),
            },
    {
        let mut t = match AbsoluteTime::new(day_of_year, hours, minutes, seconds, nanoseconds) {
            Ok(t) => t,
            Err(e) => {
                return Err(e);
            },
        };
        match t.set_year(Some(year)) {
            Ok(()) => {},
            Err(e) => {
                return Err(e);
            },
        }
        Self::new(t, month, day_of_month)
    }

    /// Month (1-12).
    pub fn month(&self) -> (r: u8)
        ensures
            r == self.spec_month(),
    {
        self.month
    }

    /// Day of month (1-31).
    pub fn day_of_month(&self) -> (r: u8)
        ensures
            r == self.spec_day_of_month(),
    {
        self.day_of_month
    }

    /// The inner `AbsoluteTime`.
    pub fn as_absolute_time(&self) -> (r: &AbsoluteTime)
        ensures
            *r == self.inner(),
    {
        &self.time
    }

    /// Consume self and return the inner `AbsoluteTime`.
    pub fn into_absolute_time(self) -> (r: AbsoluteTime)
        ensures
            r == self.inner(),
    {
        self.time
    }

    /// Text form: `YYYY-MM-DD HH:MM:SS.mmm.uuu` (year 0 when absent).
    pub open spec fn text(self) -> Seq<char> {
        let y = match self.inner().year {
            Some(y) => y,
            None => 0,
        };
        fmt_dec(y as nat, 4) + "-"@ + fmt_dec(self.spec_month() as nat, 2) + "-"@ + fmt_dec(
            self.spec_day_of_month() as nat,
            2,
        ) + " "@ + clock_text(
            self.inner().hours,
            self.inner().minutes,
            self.inner().seconds,
            self.inner().nanoseconds,
        )
    }

    /// Render the time as text (see [`CalendarTime::text`]).
    pub fn to_string(&self) -> (s: String)
        ensures
            s@ == self.text(),
    {
        let mut s = String::new();
        let y: u16 = match self.time.year {
            Some(y) => y,
            None => 0,
        };
        push_dec(&mut s, y as u64, 4);
        push_str(&mut s, "-");
        push_dec(&mut s, self.month as u64, 2);
        push_str(&mut s, "-");
        push_dec(&mut s, self.day_of_month as u64, 2);
        push_str(&mut s, " ");
        push_clock(&mut s, self.time.hours, self.time.minutes, self.time.seconds, self.time.nanoseconds);
        assert(s@ =~= self.text());
        s
    }
}

impl core::ops::Deref for CalendarTime {
    type Target = AbsoluteTime;

    fn deref(&self) -> (r: &AbsoluteTime)
        ensures
            *r == self.inner(),
    {
        &self.time
    }
}

impl From<CalendarTime> for AbsoluteTime {
    /// The inner time: the year is kept, the calendar month and day are not added.
    fn from(ct: CalendarTime) -> (r: AbsoluteTime) {
        ct.time
    }
}

impl vstd::std_specs::convert::FromSpecImpl<CalendarTime> for AbsoluteTime {
    open spec fn obeys_from_spec() -> bool {
        true
    }

    open spec fn from_spec(ct: CalendarTime) -> AbsoluteTime {
        ct.inner()
    }
}

// ═══════════════════════════════════════════════════════════════════════
// Wire formats
// ═══════════════════════════════════════════════════════════════════════

/// Two little-endian bytes as an unsigned integer.
pub open spec fn le16(b0: u8, b1: u8) -> int {
    b0 + 0x100 * b1
}

/// Four little-endian bytes as an unsigned integer.
pub open spec fn le32(b0: u8, b1: u8, b2: u8, b3: u8) -> int {
    b0 + 0x100 * b1 + 0x1_0000 * b2 + 0x100_0000 * b3
}

/// Eight little-endian bytes of a sequence, starting at `i`, as an unsigned integer.
pub open spec fn le64_at(b: Seq<u8>, i: int) -> int {
    le32(b[i], b[i + 1], b[i + 2], b[i + 3]) + 0x1_0000_0000 * le32(
        b[i + 4],
        b[i + 5],
        b[i + 6],
        b[i + 7],
    )
}

/// Decode two little-endian bytes.
pub(crate) fn u16_from_le(b0: u8, b1: u8) -> (r: u16)
    ensures
        r == le16(b0, b1),
{
    b0 as u16 + 0x100 * (b1 as u16)
}

/// Decode four little-endian bytes.
pub(crate) fn u32_from_le(b0: u8, b1: u8, b2: u8, b3: u8) -> (r: u32)
    ensures
        r == le32(b0, b1, b2, b3),
{
    b0 as u32 + 0x100 * (b1 as u32) + 0x1_0000 * (b2 as u32) + 0x100_0000 * (b3 as u32)
}

/// IRIG 106 Chapter 4 Binary Weighted Time, used in secondary headers and intra-packet
/// time stamps.
#[derive(Debug, Clone, Copy, PartialEq, Eq, Hash, Structural)]
pub struct Ch4BinaryTime {
    /// High-order 16 bits of the binary time word.
    pub high_order: u16,
    /// Low-order 16 bits of the binary time word.
    pub low_order: u16,
    /// Microsecond component.
    pub microseconds: u16,
}

/// What `Ch4BinaryTime::from_secondary_bytes` returns for a buffer: the three words at
/// byte offsets 2, 4 and 6.
pub open spec fn spec_ch4_from_bytes(buf: Seq<u8>) -> Result<Ch4BinaryTime> {
    if buf.len() < 8 {
        Err(TimeError::BufferTooShort { expected: 8, actual: buf.len() as usize })
    } else {
        Ok(
            Ch4BinaryTime {
                high_order: le16(buf[2], buf[3]) as u16,
                low_order: le16(buf[4], buf[5]) as u16,
                microseconds: le16(buf[6], buf[7]) as u16,
            },
        )
    }
}

impl Ch4BinaryTime {
    /// The 32-bit binary time word.
    pub open spec fn word(self) -> int {
        self.high_order * 0x1_0000 + self.low_order
    }

    /// Tens of milliseconds since midnight (bits 0-16 of the time word).
    pub open spec fn tens_of_ms(self) -> int {
        self.word() % 0x2_0000
    }

    /// Day of year (bits 17-25 of the time word).
    pub open spec fn raw_day_of_year(self) -> int {
        (self.word() / 0x2_0000) % 0x200
    }

    /// What `to_absolute` returns: day 0 is read as day 1, the time of day comes from the
    /// tens of milliseconds, and the microseconds are added to the nanoseconds.
    pub open spec fn spec_to_absolute(self) -> Result<AbsoluteTime> {
        let total_ms = self.tens_of_ms() * 10;
        let total_secs = total_ms / 1000;
        let doy = self.raw_day_of_year();
        spec_absolute_new(
            if doy == 0 {
                1
            } else {
                doy as u16
            },
            (total_secs / 3600) as u8,
            ((total_secs % 3600) / 60) as u8,
            (total_secs % 60) as u8,
            ((total_ms % 1000) * 1_000_000 + self.microseconds * 1_000) as u32,
        )
    }

    /// A Chapter 4 time that decodes is at the time of day given by the low 17 bits of the
    /// time word in units of 10 ms, plus the microseconds; its day of year is the 9 bits
    /// above them (day 0 read as day 1).
    pub proof fn lemma_to_absolute_law(self)
        ensures
            self.spec_to_absolute() matches Ok(t) ==> {
                &&& t.nanos_of_day() == ((self.high_order * 0x1_0000 + self.low_order) % 0x2_0000)
                    * 10_000_000 + self.microseconds * 1_000
                &&& t.day_of_year == if (self.high_order * 0x1_0000 + self.low_order) / 0x2_0000
                    % 0x200 == 0 {
                    1
                } else {
                    (self.high_order * 0x1_0000 + self.low_order) / 0x2_0000 % 0x200
                }
                &&& t.valid()
            },
    {
        let w = self.high_order * 0x1_0000 + self.low_order;
        let tens = w % 0x2_0000;
        let ms = tens * 10;
        let secs = ms / 1000;
        assert(0 <= tens < 0x2_0000);
        assert(secs < 3600);
        assert(secs / 3600 == 0);
        assert(ms == secs * 1000 + ms % 1000);
        assert(secs == (secs % 3600) / 60 * 60 + secs % 60);
    }

    /// Parse from a buffer laid out as `[unused(2), high(2), low(2), usec(2)]`.
    pub fn from_secondary_bytes(buf: &[u8]) -> (r: Result<Self>)
        ensures
            r == spec_ch4_from_bytes(buf@),
    {
        if buf.len() < 8 {
            return Err(TimeError::BufferTooShort { expected: 8, actual: buf.len() });
        }
        let high_order = u16_from_le(buf[2], buf[3]);
        let low_order = u16_from_le(buf[4], buf[5]);
        let microseconds = u16_from_le(buf[6], buf[7]);
        Ok(Ch4BinaryTime { high_order, low_order, microseconds })
    }

    /// Parse from an 8-byte intra-packet time stamp buffer (same layout).
    pub fn from_intra_packet_bytes(buf: &[u8]) -> (r: Result<Self>)
        ensures
            r == spec_ch4_from_bytes(buf@),
    {
        Self::from_secondary_bytes(buf)
    }

    /// Decode to absolute time.
    pub fn to_absolute(&self) -> (r: Result<AbsoluteTime>)
        ensures
            r == self.spec_to_absolute(),
            r matches Ok(t) ==> t.nanos_of_day() == ((self.high_order * 0x1_0000 + self.low_order)
                % 0x2_0000) * 10_000_000 + self.microseconds * 1_000,
            r matches Ok(t) ==> t.day_of_year == if (self.high_order * 0x1_0000 + self.low_order)
                / 0x2_0000 % 0x200 == 0 {
                1
            } else {
                (self.high_order * 0x1_0000 + self.low_order) / 0x2_0000 % 0x200
            },
    {
        proof {
            self.lemma_to_absolute_law();
        }
        let combined: u32 = (self.high_order as u32) * 0x1_0000 + self.low_order as u32;
        let time_10ms = combined % 0x2_0000;
        let day_of_year = ((combined / 0x2_0000) % 0x200) as u16;
        let total_ms = time_10ms * 10;
        let total_secs = total_ms / 1000;
        let remaining_ms = total_ms % 1000;
        let hours = (total_secs / 3600) as u8;
        let minutes = ((total_secs % 3600) / 60) as u8;
        let seconds = (total_secs % 60) as u8;
        let nanoseconds = remaining_ms * 1_000_000 + (self.microseconds as u32) * 1_000;
        AbsoluteTime::new(
            if day_of_year == 0 {
                1
            } else {
                day_of_year
            },
            hours,
            minutes,
            seconds,
            nanoseconds,
        )
    }
}

/// IEEE-1588 Precision Time Protocol time value.
#[derive(Debug, Clone, Copy, PartialEq, Eq, Hash, Structural)]
pub struct Ieee1588Time {
    /// Nanoseconds within the current second (0-999_999_999).
    pub nanoseconds: u32,
    /// Seconds since the IEEE-1588 epoch.
    pub seconds: u32,
}

/// What `Ieee1588Time::from_le_bytes` returns: `[nanoseconds(4), seconds(4)]`, with the
/// nanoseconds below one second.
pub open spec fn spec_ieee1588_from_bytes(buf: Seq<u8>) -> Result<Ieee1588Time> {
    if buf.len() < 8 {
        Err(TimeError::BufferTooShort { expected: 8, actual: buf.len() as usize })
    } else {
        let ns = le32(buf[0], buf[1], buf[2], buf[3]);
        if ns >= 1_000_000_000 {
            Err(
                TimeError::OutOfRange {
                    field: "ieee1588_nanoseconds",
                    value: ns as u32,
                    max: 999_999_999,
                },
            )
        } else {
            Ok(
                Ieee1588Time {
                    nanoseconds: ns as u32,
                    seconds: le32(buf[4], buf[5], buf[6], buf[7]) as u32,
                },
            )
        }
    }
}

impl Ieee1588Time {
    /// Parse from an 8-byte little-endian buffer: `[nanoseconds(4), seconds(4)]`.
    pub fn from_le_bytes(buf: &[u8]) -> (r: Result<Self>)
        ensures
            r == spec_ieee1588_from_bytes(buf@),
    {
        if buf.len() < 8 {
            return Err(TimeError::BufferTooShort { expected: 8, actual: buf.len() });
        }
        let nanoseconds = u32_from_le(buf[0], buf[1], buf[2], buf[3]);
        let seconds = u32_from_le(buf[4], buf[5], buf[6], buf[7]);
        if nanoseconds >= 1_000_000_000 {
            return Err(
                TimeError::OutOfRange {
                    field: "ieee1588_nanoseconds",
                    value: nanoseconds,
                    max: 999_999_999,
                },
            );
        }
        Ok(Ieee1588Time { nanoseconds, seconds })
    }

    /// Total nanoseconds since the IEEE-1588 epoch.
    pub fn to_nanos_since_epoch(&self) -> (r: u64)
        ensures
            r == self.seconds * 1_000_000_000 + self.nanoseconds,
    {
        (self.seconds as u64) * 1_000_000_000 + (self.nanoseconds as u64)
    }
}

/// 64-bit Extended Relative Time Counter.
#[derive(Debug, Clone, Copy, PartialEq, Eq, PartialOrd, Ord, Hash, Structural)]
pub struct Ertc(u64);

/// What `Ertc::from_le_bytes` returns: the raw count of the first eight bytes.
pub open spec fn spec_ertc_from_bytes(buf: Seq<u8>) -> Result<u64> {
    if buf.len() < 8 {
        Err(TimeError::BufferTooShort { expected: 8, actual: buf.len() as usize })
    } else {
        Ok(le64_at(buf, 0) as u64)
    }
}

impl Ertc {
    /// The raw 64-bit tick count.
    pub closed spec fn raw(self) -> u64 {
        self.0
    }

    /// Parse from an 8-byte little-endian buffer.
    pub fn from_le_bytes(buf: &[u8]) -> (r: Result<Self>)
        ensures
            match spec_ertc_from_bytes(buf@) {
                Ok(v) => r is Ok && r->Ok_0.raw() == v,
                Err(e) => r == Err::<Ertc, TimeError>(e),
            },
    {
        if buf.len() < 8 {
            return Err(TimeError::BufferTooShort { expected: 8, actual: buf.len() });
        }
        let lo = u32_from_le(buf[0], buf[1], buf[2], buf[3]);
        let hi = u32_from_le(buf[4], buf[5], buf[6], buf[7]);
        Ok(Ertc(lo as u64 + 0x1_0000_0000 * (hi as u64)))
    }

    /// Raw 64-bit tick count.
    pub fn as_raw(self) -> (r: u64)
        ensures
            r == self.raw(),
    {
        self.0
    }

    /// Convert to nanoseconds (100 ns per tick), as `u128` to avoid overflow.
    pub fn to_nanos(self) -> (r: u128)
        ensures
            r == 100 * self.raw(),
    {
        (self.0 as u128) * 100
    }
}

} // verus!
