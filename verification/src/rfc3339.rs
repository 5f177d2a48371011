//! Timestamps in RFC 3339, such as `2026-04-23T00:00:00Z`.

use vstd::prelude::*;

use crate::time::NANOS_PER_SEC;

verus! {

/// A date and a time of day, as a timestamp writes them.
pub ghost struct CivilTime {
    pub year: int,
    pub month: int,
    pub day: int,
    pub hour: int,
    pub minute: int,
    pub second: int,
    /// The digits after the decimal point of the second; none where there is no
    /// point.
    pub fraction: Seq<int>,
    /// The offset from UTC in hours and minutes, and whether it is to the west;
    /// `None` for `Z`.
    pub offset: Option<(bool, int, int)>,
}

pub open spec fn is_leap_year(year: int) -> bool {
    year % 4 == 0 && (year % 100 != 0 || year % 400 == 0)
}

pub open spec fn days_in_month(year: int, month: int) -> int {
    if month == 2 {
        if is_leap_year(year) {
            29
        } else {
            28
        }
    } else if month == 4 || month == 6 || month == 9 || month == 11 {
        30
    } else {
        31
    }
}

/// The days of a year before the first of a month.
pub open spec fn days_before_month(year: int, month: int) -> int
    decreases month,
{
    if month <= 1 {
        0
    } else {
        days_before_month(year, month - 1) + days_in_month(year, month - 1)
    }
}

/// The days from the first of January of the year 1 to that of `year`.
pub open spec fn days_before_year(year: int) -> int {
    let past = year - 1;
    365 * past + past / 4 - past / 100 + past / 400
}

/// The days from the year 1 to the Unix epoch.
pub const EPOCH_DAY: u32 = 719_162;

/// The nanoseconds that decimals of a second stand for, rounded down, where the
/// first of them is worth `unit`.
pub open spec fn fraction_nanos(digits: Seq<int>, unit: int) -> int
    decreases digits.len(),
{
    if digits.len() == 0 {
        0
    } else {
        digits[0] * unit + fraction_nanos(digits.drop_first(), unit / 10)
    }
}

/// `n` in base 10, in `width` digits.
pub open spec fn digits(n: int, width: nat) -> Seq<char>
    decreases width,
{
    if width == 0 {
        seq![]
    } else {
        digits(n / 10, (width - 1) as nat).push(digit(n % 10))
    }
}

/// The character of a decimal digit.
pub open spec fn digit(d: int) -> char {
    (48 + d) as char
}

impl CivilTime {
    /// Whether there is such a date and time.
    pub open spec fn is_valid(self) -> bool {
        &&& 0 <= self.year <= 9999
        &&& 1 <= self.month <= 12
        &&& 1 <= self.day <= days_in_month(self.year, self.month)
        &&& 0 <= self.hour < 24
        &&& 0 <= self.minute < 60
        &&& 0 <= self.second <= 60
        &&& forall|i: int|
            0 <= i < self.fraction.len() ==> 0 <= #[trigger] self.fraction[i] < 10
        &&& self.offset matches Some((_, hours, minutes)) ==> 0 <= hours < 24 && 0 <= minutes < 60
    }

    /// The instant, in nanoseconds since the Unix epoch.
    pub open spec fn unix_nanos(self) -> int {
        let days = days_before_year(self.year) + days_before_month(self.year, self.month) + self.day
            - 1 - EPOCH_DAY;
        let east = match self.offset {
            None => 0,
            Some((west, hours, minutes)) => if west {
                -(hours * 60 + minutes)
            } else {
                hours * 60 + minutes
            },
        };
        let seconds = ((days * 24 + self.hour) * 60 + self.minute - east) * 60 + self.second;
        seconds * NANOS_PER_SEC + fraction_nanos(self.fraction, 100_000_000)
    }

    /// The text of the timestamp.
    pub open spec fn text(self) -> Seq<char> {
        let date = digits(self.year, 4) + "-"@ + digits(self.month, 2) + "-"@ + digits(
            self.day,
            2,
        );
        let time = digits(self.hour, 2) + ":"@ + digits(self.minute, 2) + ":"@ + digits(
            self.second,
            2,
        );
        let fraction = if self.fraction.len() == 0 {
            seq![]
        } else {
            "."@ + self.fraction.map_values(|d: int| digit(d))
        };
        let zone = match self.offset {
            None => "Z"@,
            Some((west, hours, minutes)) => (if west {
                "-"@
            } else {
                "+"@
            }) + digits(hours, 2) + ":"@ + digits(minutes, 2),
        };
        date + "T"@ + time + fraction + zone
    }
}

/// Whether `text` is a timestamp of the instant `unix_nanos`.
pub open spec fn writes_instant(text: Seq<char>, unix_nanos: int) -> bool {
    exists|t: CivilTime|
        t.is_valid() && text == #[trigger] t.text() && t.unix_nanos() == unix_nanos
}

/// Whether `text` is a timestamp.
pub open spec fn is_timestamp(text: Seq<char>) -> bool {
    exists|unix_nanos: int| writes_instant(text, unix_nanos)
}

/// Whether `text` is a timestamp of the instant `unix_nanos`, to the second.
pub open spec fn tells(text: Seq<char>, unix_nanos: int) -> bool {
    exists|told: int| #[trigger]
        writes_instant(text, told) && told - NANOS_PER_SEC < unix_nanos < told + NANOS_PER_SEC
}

} // verus!
