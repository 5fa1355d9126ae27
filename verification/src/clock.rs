//! The local time of a record.

use chrono::Datelike;
use vstd::prelude::*;

verus! {

/// A point in local time, as far as a line and a file name show it.
#[derive(Debug, PartialEq, Eq)]
pub struct Moment {
    /// The time in RFC 3339 form, with the local offset from UTC.
    pub stamp: String,
    /// The local calendar date.
    pub year: i32,
    pub month: u32,
    pub day: u32,
}

/// A moment as the contracts speak of it.
pub struct MomentView {
    pub stamp: Seq<char>,
    pub year: int,
    pub month: int,
    pub day: int,
}

impl View for Moment {
    type V = MomentView;

    open spec fn view(&self) -> MomentView {
        MomentView {
            stamp: self.stamp@,
            year: self.year as int,
            month: self.month as int,
            day: self.day as int,
        }
    }
}

impl MomentView {
    /// The month and the day lie within a calendar's bounds.
    pub open spec fn has_calendar_date(self) -> bool {
        1 <= self.month <= 12 && 1 <= self.day <= 31
    }
}

/// The current local time, read with `chrono::Local::now()`: the stamp is the
/// `to_rfc3339()` of that time, the date its `year()`, `month()` and `day()`.
///
/// Nothing is proved here. The contract claims of the time only what chrono
/// documents of every date: a month from 1 to 12 and a day from 1 to 31. What
/// the stamp holds is not stated. chrono stops the thread where the system
/// clock stands before 1970.
#[verifier::external_body]
pub(crate) fn local_now() -> (now: Moment)
    ensures
        now@.has_calendar_date(),
{
    let now = chrono::Local::now();
    Moment { stamp: now.to_rfc3339(), year: now.year(), month: now.month(), day: now.day() }
}

} // verus!
