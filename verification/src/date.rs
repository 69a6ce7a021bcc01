//! Calendar dates for dated nightly toolchains.
//!
//! A toolchain range enumerates one nightly per day, so the library needs a
//! date it can step forward and render as `YYYY-MM-DD`.  Dates are held as
//! plain year/month/day fields with a validity invariant; the Gregorian
//! leap-year rule and month lengths are written out and proved here.

use vstd::prelude::*;
use vstd::string::StringExecFns;

use crate::textfmt::{dec_digits, dec_u64_pad, zero_pad};

verus! {

/// One Gregorian calendar date.
#[derive(Debug, Clone, Copy, PartialEq, Eq, Structural)]
pub struct Date {
    pub year: u32,
    pub month: u32,
    pub day: u32,
}

/// The Gregorian leap-year rule.
pub open spec fn is_leap_year(y: nat) -> bool {
    y % 4 == 0 && (y % 100 != 0 || y % 400 == 0)
}

/// Days in the given month of the given year.
pub open spec fn days_in_month(y: nat, m: nat) -> nat {
    if m == 2 {
        if is_leap_year(y) {
            29
        } else {
            28
        }
    } else if m == 4 || m == 6 || m == 9 || m == 11 {
        30
    } else {
        31
    }
}

impl Date {
    /// A real calendar date within the four-digit-year era.
    pub open spec fn valid(self) -> bool {
        1 <= self.year <= 9999 && 1 <= self.month <= 12 && 1 <= self.day <= days_in_month(
            self.year as nat,
            self.month as nat,
        )
    }

    /// A strictly monotone encoding of dates, used to state ordering.
    pub open spec fn encoding(self) -> int {
        self.year * 416 + self.month * 32 + self.day
    }

    /// The day after `self`.
    pub open spec fn spec_succ(self) -> Date {
        if self.day < days_in_month(self.year as nat, self.month as nat) {
            Date { year: self.year, month: self.month, day: (self.day + 1) as u32 }
        } else if self.month < 12 {
            Date { year: self.year, month: (self.month + 1) as u32, day: 1 }
        } else {
            Date { year: (self.year + 1) as u32, month: 1, day: 1 }
        }
    }

    /// The `YYYY-MM-DD` rendering of `self`.
    pub open spec fn spec_iso(self) -> Seq<char> {
        zero_pad(dec_digits(self.year as nat), 4) + seq!['-'] + zero_pad(
            dec_digits(self.month as nat),
            2,
        ) + seq!['-'] + zero_pad(dec_digits(self.day as nat), 2)
    }

    /// Builds a date from its parts; the parts must name a real calendar day.
    pub fn from_ymd(year: u32, month: u32, day: u32) -> (r: Date)
        requires
            (Date { year, month, day }).valid(),
        ensures
            (r == Date { year, month, day }),
            r.valid(),
    {
        Date { year, month, day }
    }

    /// Days in this date's month.
    fn current_month_len(&self) -> (r: u32)
        requires
            1 <= self.month <= 12,
        ensures
            r == days_in_month(self.year as nat, self.month as nat),
    {
        if self.month == 2 {
            let leap = self.year % 4 == 0 && (self.year % 100 != 0 || self.year % 400 == 0);
            if leap {
                29
            } else {
                28
            }
        } else if self.month == 4 || self.month == 6 || self.month == 9 || self.month == 11 {
            30
        } else {
            31
        }
    }

    /// The day after `self`.
    pub fn succ(&self) -> (r: Date)
        requires
            self.valid(),
            self.year < 9999 || !(self.month == 12 && self.day == 31),
        ensures
            r == self.spec_succ(),
            r.valid(),
            r.encoding() > self.encoding(),
    {
        let dim = self.current_month_len();
        if self.day < dim {
            Date { year: self.year, month: self.month, day: self.day + 1 }
        } else if self.month < 12 {
            Date { year: self.year, month: self.month + 1, day: 1 }
        } else {
            Date { year: self.year + 1, month: 1, day: 1 }
        }
    }

    /// Whether `self` is on or before `other`, in calendar order.
    pub fn le(&self, other: &Date) -> (r: bool)
        requires
            self.valid(),
            other.valid(),
        ensures
            r == (self.encoding() <= other.encoding()),
    {
        if self.year != other.year {
            self.year < other.year
        } else if self.month != other.month {
            self.month < other.month
        } else {
            self.day <= other.day
        }
    }

    /// Renders `self` as `YYYY-MM-DD`.
    pub fn iso(&self) -> (r: String)
        ensures
            r@ == self.spec_iso(),
    {
        let mut s = dec_u64_pad(self.year as u64, 4);
        s.append("-");
        let m = dec_u64_pad(self.month as u64, 2);
        s.append(m.as_str());
        s.append("-");
        let d = dec_u64_pad(self.day as u64, 2);
        s.append(d.as_str());
        proof {
            reveal_strlit("-");
            assert("-"@ =~= seq!['-']);
        }
        s
    }
}

} // verus!
