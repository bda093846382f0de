//! Calendar dates in UTC and the texts made from them.
//!
//! Which date an instant falls on, and how it reads in RFC 3339, is the
//! `time` crate's business; this module asks it and gives the answers the
//! names [`utc_date`] and [`utc_rfc3339`]. Everything that is made of a
//! date once it is known (anchors, headings, labels) is computed here.

use vstd::prelude::*;
use vstd::string::StringExecFns;
use crate::text::{
    decimal,
    push_decimal,
    push_signed_decimal,
    push_two_digits,
    signed_decimal,
    two_digits,
};

verus! {

/// A calendar date.
#[derive(Clone, Copy, Debug, PartialEq, Eq, Structural)]
pub struct CivilDate {
    pub year: i32,
    /// 1 for January up to 12 for December.
    pub month: u8,
    /// The day of the month, from 1.
    pub day: u8,
}

impl CivilDate {
    /// The month and the day are in their ranges.
    pub open spec fn wf(self) -> bool {
        1 <= self.month <= 12 && 1 <= self.day <= 31
    }

    /// Tests whether the month and the day are in their ranges.
    pub fn is_valid(&self) -> (r: bool)
        ensures
            r == self.wf(),
    {
        1 <= self.month && self.month <= 12 && 1 <= self.day && self.day <= 31
    }
}

/// The UTC date, as year, month and day, on which the instant `timestamp`
/// seconds after the Unix epoch falls, where the `time` crate can represent
/// that instant.
pub uninterp spec fn utc_date(timestamp: i64) -> Option<(i32, u8, u8)>;

/// The RFC 3339 text of the instant `timestamp` seconds after the Unix
/// epoch, in UTC, where the `time` crate can represent and format it.
pub uninterp spec fn utc_rfc3339(timestamp: i64) -> Option<Seq<char>>;

/// Calls `time::OffsetDateTime::from_unix_timestamp` and reads the year,
/// the month as a number and the day of the result. The contract names the
/// outcome [`utc_date`] and states what the getters document: the month's
/// number is between 1 and 12, the day between 1 and 31.
#[verifier::external_body]
fn date_from_unix(timestamp: i64) -> (r: Option<(i32, u8, u8)>)
    ensures
        r == utc_date(timestamp),
        r matches Some(d) ==> 1 <= d.1 <= 12 && 1 <= d.2 <= 31,
{
    match time::OffsetDateTime::from_unix_timestamp(timestamp) {
        Ok(instant) => Some((instant.year(), u8::from(instant.month()), instant.day())),
        Err(_) => None,
    }
}

/// Calls `time::OffsetDateTime::from_unix_timestamp` and formats the result
/// with `time::format_description::well_known::Rfc3339`. The contract only
/// names the outcome [`utc_rfc3339`]: `None` where either call fails.
#[verifier::external_body]
pub(crate) fn rfc3339_from_unix(timestamp: i64) -> (r: Option<String>)
    ensures
        match r {
            Some(text) => utc_rfc3339(timestamp) == Some(text@),
            None => utc_rfc3339(timestamp) is None,
        },
{
    match time::OffsetDateTime::from_unix_timestamp(timestamp) {
        Ok(instant) => instant.format(&time::format_description::well_known::Rfc3339).ok(),
        Err(_) => None,
    }
}

/// The date of an instant, if it has one.
pub open spec fn date_of(timestamp: i64) -> Option<CivilDate> {
    match utc_date(timestamp) {
        Some((year, month, day)) => Some(CivilDate { year, month, day }),
        None => None,
    }
}

/// The UTC date on which an instant falls. `None` where the instant is
/// outside the calendar's range.
pub fn civil_date(timestamp: i64) -> (r: Option<CivilDate>)
    ensures
        r == date_of(timestamp),
        r matches Some(date) ==> date.wf(),
{
    match date_from_unix(timestamp) {
        Some((year, month, day)) => Some(CivilDate { year, month, day }),
        None => None,
    }
}

/// The English name of a month.
pub open spec fn month_name_of(month: int) -> Seq<char> {
    if month == 1 {
        "January"@
    } else if month == 2 {
        "February"@
    } else if month == 3 {
        "March"@
    } else if month == 4 {
        "April"@
    } else if month == 5 {
        "May"@
    } else if month == 6 {
        "June"@
    } else if month == 7 {
        "July"@
    } else if month == 8 {
        "August"@
    } else if month == 9 {
        "September"@
    } else if month == 10 {
        "October"@
    } else if month == 11 {
        "November"@
    } else {
        "December"@
    }
}

/// The three-letter label of a month.
pub open spec fn month_label_of(month: int) -> Seq<char> {
    if month == 1 {
        "Jan"@
    } else if month == 2 {
        "Feb"@
    } else if month == 3 {
        "Mar"@
    } else if month == 4 {
        "Apr"@
    } else if month == 5 {
        "May"@
    } else if month == 6 {
        "Jun"@
    } else if month == 7 {
        "Jul"@
    } else if month == 8 {
        "Aug"@
    } else if month == 9 {
        "Sep"@
    } else if month == 10 {
        "Oct"@
    } else if month == 11 {
        "Nov"@
    } else {
        "Dec"@
    }
}

/// The English name of a month.
pub fn month_name(month: u8) -> (r: &'static str)
    requires
        1 <= month <= 12,
    ensures
        r@ == month_name_of(month as int),
{
    if month == 1 {
        "January"
    } else if month == 2 {
        "February"
    } else if month == 3 {
        "March"
    } else if month == 4 {
        "April"
    } else if month == 5 {
        "May"
    } else if month == 6 {
        "June"
    } else if month == 7 {
        "July"
    } else if month == 8 {
        "August"
    } else if month == 9 {
        "September"
    } else if month == 10 {
        "October"
    } else if month == 11 {
        "November"
    } else {
        "December"
    }
}

/// The three-letter label of a month.
pub fn month_label(month: u8) -> (r: &'static str)
    requires
        1 <= month <= 12,
    ensures
        r@ == month_label_of(month as int),
{
    if month == 1 {
        "Jan"
    } else if month == 2 {
        "Feb"
    } else if month == 3 {
        "Mar"
    } else if month == 4 {
        "Apr"
    } else if month == 5 {
        "May"
    } else if month == 6 {
        "Jun"
    } else if month == 7 {
        "Jul"
    } else if month == 8 {
        "Aug"
    } else if month == 9 {
        "Sep"
    } else if month == 10 {
        "Oct"
    } else if month == 11 {
        "Nov"
    } else {
        "Dec"
    }
}

/// Different months have different labels.
pub proof fn lemma_month_labels_differ(a: int, b: int)
    requires
        1 <= a <= 12,
        1 <= b <= 12,
        a != b,
    ensures
        month_label_of(a) != month_label_of(b),
{
    reveal_strlit("Jan");
    reveal_strlit("Feb");
    reveal_strlit("Mar");
    reveal_strlit("Apr");
    reveal_strlit("May");
    reveal_strlit("Jun");
    reveal_strlit("Jul");
    reveal_strlit("Aug");
    reveal_strlit("Sep");
    reveal_strlit("Oct");
    reveal_strlit("Nov");
    reveal_strlit("Dec");
    let x = month_label_of(a);
    let y = month_label_of(b);
    if x == y {
        assert(x[0] == y[0]);
        assert(x[1] == y[1]);
        assert(x[2] == y[2]);
    }
}

/// The anchor of a month's group: `group-`, the year, a hyphen and the
/// month in two digits, as in `group-2023-01`.
pub open spec fn group_id_of(date: CivilDate) -> Seq<char> {
    "group-"@ + signed_decimal(date.year as int) + seq!['-'] + two_digits(date.month as nat)
}

/// The heading of a month's group: the month's name and the year, as in
/// `January 2023`.
pub open spec fn group_name_of(date: CivilDate) -> Seq<char> {
    month_name_of(date.month as int) + seq![' '] + signed_decimal(date.year as int)
}

/// A date as shown beside a video, as in `January 15, 2023`.
pub open spec fn display_of(date: CivilDate) -> Seq<char> {
    month_name_of(date.month as int) + seq![' '] + decimal(date.day as nat) + seq![',', ' ']
        + signed_decimal(date.year as int)
}

/// Writes the anchor of a month's group.
pub fn group_id(date: CivilDate) -> (r: String)
    requires
        date.wf(),
    ensures
        r@ == group_id_of(date),
{
    let mut out = "group-".to_owned();
    push_signed_decimal(&mut out, date.year);
    out.push('-');
    push_two_digits(&mut out, date.month);
    proof {
        assert(("group-"@ + signed_decimal(date.year as int)).push('-') =~= "group-"@
            + signed_decimal(date.year as int) + seq!['-']);
    }
    out
}

/// Writes the heading of a month's group.
pub fn group_name(date: CivilDate) -> (r: String)
    requires
        date.wf(),
    ensures
        r@ == group_name_of(date),
{
    let mut out = month_name(date.month).to_owned();
    out.push(' ');
    push_signed_decimal(&mut out, date.year);
    proof {
        assert(month_name_of(date.month as int).push(' ') =~= month_name_of(date.month as int)
            + seq![' ']);
    }
    out
}

/// Writes a date as shown beside a video.
pub fn display_date(date: CivilDate) -> (r: String)
    requires
        date.wf(),
    ensures
        r@ == display_of(date),
{
    let mut out = month_name(date.month).to_owned();
    out.push(' ');
    push_decimal(&mut out, date.day as u32);
    out.append(", ");
    push_signed_decimal(&mut out, date.year);
    proof {
        reveal_strlit(", ");
        assert(", "@ =~= seq![',', ' ']);
        assert(month_name_of(date.month as int).push(' ') =~= month_name_of(date.month as int)
            + seq![' ']);
    }
    out
}

} // verus!
