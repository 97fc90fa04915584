//! Calendar dates and UTC instants as plain values, and the calls into
//! `chrono` that parse them.
use vstd::prelude::*;

verus! {

/// A calendar date (proleptic Gregorian), as `chrono::NaiveDate` holds one.
#[derive(Clone, Copy, Debug, PartialEq, Eq, Structural)]
pub struct Date {
    pub year: i32,
    pub month: u32,
    pub day: u32,
}

/// An instant in UTC: whole seconds since the Unix epoch and the nanoseconds
/// past them, as `chrono::DateTime<Utc>` reports them.
#[derive(Clone, Copy, Debug, PartialEq, Eq, Structural)]
pub struct Timestamp {
    pub secs: i64,
    pub nanos: u32,
}

/// Whether `y` is a leap year.
pub open spec fn is_leap_year(y: int) -> bool {
    y % 4 == 0 && (y % 100 != 0 || y % 400 == 0)
}

/// The number of days in month `m` of year `y`.
pub open spec fn days_in_month(y: int, m: int) -> int {
    if m == 2 {
        if is_leap_year(y) {
            29
        } else {
            28
        }
    } else if m == 4 || m == 6 || m == 9 || m == 11 {
        30
    } else {
        31
    }
}

/// `d` names a day of the calendar.
pub open spec fn valid_date(d: Date) -> bool {
    1 <= d.month <= 12 && 1 <= d.day <= days_in_month(d.year as int, d.month as int)
}

/// `a` is on or before `b` (the order of `chrono::NaiveDate`).
pub open spec fn date_le(a: Date, b: Date) -> bool {
    a.year < b.year || (a.year == b.year && (a.month < b.month || (a.month == b.month && a.day
        <= b.day)))
}

/// `date_le` is a total order in which the year counts first, then the month,
/// then the day: reflexive, antisymmetric, transitive and total; an earlier
/// year, or an earlier month of the same year, is before whatever the days;
/// within one month the day decides.
pub proof fn lemma_date_order(a: Date, b: Date, c: Date)
    ensures
        date_le(a, a),
        date_le(a, b) && date_le(b, a) ==> a == b,
        date_le(a, b) && date_le(b, c) ==> date_le(a, c),
        date_le(a, b) || date_le(b, a),
        a.year < b.year ==> date_le(a, b) && !date_le(b, a),
        a.year == b.year && a.month < b.month ==> date_le(a, b) && !date_le(b, a),
        a.year == b.year && a.month == b.month ==> (date_le(a, b) <==> a.day <= b.day),
{
}

/// Exec [`date_le`].
pub fn date_on_or_before(a: Date, b: Date) -> (r: bool)
    ensures
        r == date_le(a, b),
{
    a.year < b.year || (a.year == b.year && (a.month < b.month || (a.month == b.month && a.day
        <= b.day)))
}

/// What `chrono::NaiveDate::parse_from_str(text, format)` parses `text` to.
pub uninterp spec fn parsed_date(text: Seq<char>, format: Seq<char>) -> Option<Date>;

/// `chrono::NaiveDate::parse_from_str(text, format)`, as year, month and day.
/// The result is a function of `text` and `format` alone, and a date that it
/// returns is one `chrono` can represent (a valid calendar date of a year from
/// -262143 to 262142, as every `NaiveDate` is); which texts parse is not
/// stated.
#[verifier::external_body]
pub(crate) fn parse_date_as(text: &str, format: &str) -> (r: Option<Date>)
    ensures
        r == parsed_date(text@, format@),
        r matches Some(d) ==> chrono_date(d),
{
    chrono::NaiveDate::parse_from_str(text, format).ok().map(
        |d| Date {
            year: chrono::Datelike::year(&d),
            month: chrono::Datelike::month(&d),
            day: chrono::Datelike::day(&d),
        },
    )
}

/// `%Y-%m-%d`, the date format of front matter.
pub open spec fn ymd_format() -> Seq<char> {
    "%Y-%m-%d"@
}

/// What a `YYYY-MM-DD` date text parses to.
pub open spec fn ymd_date(text: Seq<char>) -> Option<Date> {
    parsed_date(text, ymd_format())
}

/// Parses a `YYYY-MM-DD` date (see [`ymd_date`]).
pub fn parse_ymd(text: &str) -> (r: Option<Date>)
    ensures
        r == ymd_date(text@),
        r matches Some(d) ==> chrono_date(d),
{
    parse_date_as(text, "%Y-%m-%d")
}

/// What `chrono::DateTime::parse_from_rfc3339(text)` parses `text` to, in UTC.
pub uninterp spec fn rfc3339_instant(text: Seq<char>) -> Option<Timestamp>;

/// `chrono::DateTime::parse_from_rfc3339(text)` converted to UTC, as seconds
/// and nanoseconds. The result is a function of `text` alone; which texts parse
/// and to what instant is not stated.
#[verifier::external_body]
pub(crate) fn parse_rfc3339(text: &str) -> (r: Option<Timestamp>)
    ensures
        r == rfc3339_instant(text@),
{
    chrono::DateTime::parse_from_rfc3339(text).ok().map(|dt| {
        let utc = dt.with_timezone(&chrono::Utc);
        Timestamp { secs: utc.timestamp(), nanos: utc.timestamp_subsec_nanos() }
    })
}

/// A date `chrono` can represent: a valid date of a year from -262143 to
/// 262142 (`NaiveDate::from_ymd_opt` gives `None` for any other).
pub open spec fn chrono_date(d: Date) -> bool {
    valid_date(d) && -262143 <= d.year <= 262142
}

/// The number of days from 1970-01-01 to the date `y`-`m`-`day` of the
/// proleptic Gregorian calendar (negative before it), counted in 400-year eras
/// of 146097 days that start on March 1.
pub open spec fn days_from_civil(y: int, m: int, day: int) -> int {
    let y2 = if m <= 2 { y - 1 } else { y };
    let era = y2 / 400;
    let yoe = y2 - era * 400;
    let mp = if m > 2 { m - 3 } else { m + 9 };
    let doy = (153 * mp + 2) / 5 + day - 1;
    let doe = yoe * 365 + yoe / 4 - yoe / 100 + doy;
    era * 146097 + doe - 719468
}

/// The instant of the time of day `hour:minute:second` on date `d` in UTC: the
/// days since 1970-01-01 times 86400, plus the seconds of the day (`None` when
/// `chrono` has no such date or time of day).
pub open spec fn utc_instant(d: Date, hour: u32, minute: u32, second: u32) -> Option<Timestamp> {
    if chrono_date(d) && hour < 24 && minute < 60 && second < 60 {
        Some(
            Timestamp {
                secs: (days_from_civil(d.year as int, d.month as int, d.day as int) * 86400 + hour * 3600 + minute * 60
                    + second) as i64,
                nanos: 0,
            },
        )
    } else {
        None
    }
}

/// `NaiveDate::from_ymd_opt(..).and_hms_opt(hour, minute, second).and_utc()`,
/// as seconds and nanoseconds: that time of day on `d` in UTC (see
/// [`utc_instant`]).
#[verifier::external_body]
pub(crate) fn utc_at(d: Date, hour: u32, minute: u32, second: u32) -> (r: Option<Timestamp>)
    ensures
        r == utc_instant(d, hour, minute, second),
{
    chrono::NaiveDate::from_ymd_opt(d.year, d.month, d.day).and_then(|n| n.and_hms_opt(hour, minute, second)).map(
        |n| {
            let utc = n.and_utc();
            Timestamp { secs: utc.timestamp(), nanos: utc.timestamp_subsec_nanos() }
        },
    )
}

/// The instant at which date `d` begins in UTC.
pub open spec fn midnight_of(d: Date) -> Option<Timestamp> {
    utc_instant(d, 0, 0, 0)
}

/// The start of day `d` in UTC (see [`midnight_of`]).
pub fn midnight_utc(d: Date) -> (r: Option<Timestamp>)
    ensures
        r == midnight_of(d),
        r matches Some(t) ==> t.nanos == 0,
{
    utc_at(d, 0, 0, 0)
}

} // verus!
