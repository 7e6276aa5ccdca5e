//! Calendar dates as plain values.
//!
//! A `Date` is a local calendar day (year, month, day) with no
//! time-of-day component. Dates are compared lexicographically and can
//! be formatted as `DD-MM-YYYY` for destination directory names.

use vstd::prelude::*;

verus! {

/// A calendar date. Well-formed dates (see [`Date::wf`]) have a month in
/// `1..=12`, a day in `1..=31`, and a year of at most four digits.
#[derive(Clone, Copy, Debug, PartialEq, Eq, Structural)]
pub struct Date {
    pub year: u16,
    pub month: u8,
    pub day: u8,
}

impl Date {
    /// A date this library works with: four-digit year, valid month and day range.
    pub open spec fn wf(self) -> bool {
        &&& self.year <= 9999
        &&& 1 <= self.month <= 12
        &&& 1 <= self.day <= 31
    }

    /// Strict lexicographic order on (year, month, day).
    pub open spec fn lt(self, other: Date) -> bool {
        ||| self.year < other.year
        ||| (self.year == other.year && self.month < other.month)
        ||| (self.year == other.year && self.month == other.month && self.day < other.day)
    }

    /// Whether `self` is strictly before `other` in calendar order.
    pub fn before(&self, other: &Date) -> (r: bool)
        ensures
            r == self.lt(*other),
    {
        if self.year != other.year {
            self.year < other.year
        } else if self.month != other.month {
            self.month < other.month
        } else {
            self.day < other.day
        }
    }
}

/// The decimal digit character for `d`, for `0 <= d <= 9`.
pub open spec fn digit_char(d: int) -> char {
    if d == 0 {
        '0'
    } else if d == 1 {
        '1'
    } else if d == 2 {
        '2'
    } else if d == 3 {
        '3'
    } else if d == 4 {
        '4'
    } else if d == 5 {
        '5'
    } else if d == 6 {
        '6'
    } else if d == 7 {
        '7'
    } else if d == 8 {
        '8'
    } else {
        '9'
    }
}

/// One decimal digit as a string slice.
fn digit_str(d: u8) -> (r: &'static str)
    requires
        d < 10,
    ensures
        r@ =~= seq![digit_char(d as int)],
{
    proof {
        reveal_strlit("0");
        reveal_strlit("1");
        reveal_strlit("2");
        reveal_strlit("3");
        reveal_strlit("4");
        reveal_strlit("5");
        reveal_strlit("6");
        reveal_strlit("7");
        reveal_strlit("8");
        reveal_strlit("9");
    }
    if d == 0 {
        "0"
    } else if d == 1 {
        "1"
    } else if d == 2 {
        "2"
    } else if d == 3 {
        "3"
    } else if d == 4 {
        "4"
    } else if d == 5 {
        "5"
    } else if d == 6 {
        "6"
    } else if d == 7 {
        "7"
    } else if d == 8 {
        "8"
    } else {
        "9"
    }
}

impl Date {
    /// The `DD-MM-YYYY` rendering of a date: two-digit day and month,
    /// four-digit year, separated by `-`, all zero-padded.
    pub open spec fn dd_mm_yyyy(self) -> Seq<char> {
        seq![
            digit_char(self.day as int / 10),
            digit_char(self.day as int % 10),
            '-',
            digit_char(self.month as int / 10),
            digit_char(self.month as int % 10),
            '-',
            digit_char(self.year as int / 1000),
            digit_char(self.year as int / 100 % 10),
            digit_char(self.year as int / 10 % 10),
            digit_char(self.year as int % 10),
        ]
    }

    /// Formats the date as `DD-MM-YYYY`.
    pub fn format_dd_mm_yyyy(&self) -> (r: String)
        requires
            self.wf(),
        ensures
            r@ =~= self.dd_mm_yyyy(),
    {
        proof {
            reveal_strlit("-");
        }
        let mut s = String::new();
        s.append(digit_str(self.day / 10));
        s.append(digit_str(self.day % 10));
        s.append("-");
        s.append(digit_str(self.month / 10));
        s.append(digit_str(self.month % 10));
        s.append("-");
        s.append(digit_str((self.year / 1000) as u8));
        s.append(digit_str((self.year / 100 % 10) as u8));
        s.append(digit_str((self.year / 10 % 10) as u8));
        s.append(digit_str((self.year % 10) as u8));
        s
    }
}

} // verus!
