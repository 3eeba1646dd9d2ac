use vstd::prelude::*;
use chrono::Datelike;
use chrono::TimeZone;
use crate::text::{decimal, digit_char};

verus! {

/// The earliest year that `chrono::NaiveDate` holds.
pub const MIN_YEAR: i32 = -262143;

/// The latest year that `chrono::NaiveDate` holds.
pub const MAX_YEAR: i32 = 262142;

/// Seconds in a day.
pub const DAY_SECONDS: i64 = 86400;

/// Seconds in 365 days, the default length of the reporting window.
pub const YEAR_SECONDS: i64 = 31536000;

/// A leap year of the proleptic Gregorian calendar.
pub open spec fn is_leap_year(y: int) -> bool {
    (y % 4 == 0 && y % 100 != 0) || y % 400 == 0
}

/// The number of days of month `m` (1 to 12) of year `y`.
pub open spec fn days_in_month(y: int, m: int) -> int {
    if m == 2 {
        if is_leap_year(y) { 29 } else { 28 }
    } else if m == 4 || m == 6 || m == 9 || m == 11 {
        30
    } else {
        31
    }
}

/// A date that `chrono::NaiveDate` can hold.
pub open spec fn valid_date(y: int, m: int, d: int) -> bool {
    &&& MIN_YEAR <= y <= MAX_YEAR
    &&& 1 <= m <= 12
    &&& 1 <= d <= days_in_month(y, m)
}

/// The number of leap years from year 1 up to, not including, year `y`
/// (counted negatively below year 1).
pub open spec fn leap_years_before(y: int) -> int {
    (y - 1) / 4 - (y - 1) / 100 + (y - 1) / 400
}

/// The number of days in year `y` before the first of month `m`.
pub open spec fn days_before_month(y: int, m: int) -> int {
    let plain: int = if m == 1 {
        0
    } else if m == 2 {
        31
    } else if m == 3 {
        59
    } else if m == 4 {
        90
    } else if m == 5 {
        120
    } else if m == 6 {
        151
    } else if m == 7 {
        181
    } else if m == 8 {
        212
    } else if m == 9 {
        243
    } else if m == 10 {
        273
    } else if m == 11 {
        304
    } else {
        334
    };
    if m > 2 && is_leap_year(y) {
        plain + 1
    } else {
        plain
    }
}

/// The number of days from 1970-01-01 to the given date of the proleptic
/// Gregorian calendar (negative before it).
pub open spec fn days_from_epoch(y: int, m: int, d: int) -> int {
    365 * (y - 1970) + leap_years_before(y) - leap_years_before(1970) + days_before_month(y, m) + d - 1
}

/// The dates that `chrono` holds lie within a hundred million days of 1970.
pub proof fn lemma_days_bounded(y: int, m: int, d: int)
    requires
        valid_date(y, m, d),
    ensures
        -100_000_000 <= days_from_epoch(y, m, d) <= 100_000_000,
{
}

/// A Unix timestamp whose day `chrono` holds.
pub open spec fn valid_timestamp(ts: int) -> bool {
    exists|y: int, m: int, d: int| valid_date(y, m, d) && #[trigger] days_from_epoch(y, m, d) == ts / 86400
}

/// A day of the calendar, as its parts.
pub struct DateView {
    pub year: int,
    pub month: int,
    pub day: int,
}

/// A calendar date within the range of `chrono::NaiveDate`.
#[derive(Clone, Copy, Debug)]
pub struct CalendarDate {
    year: i32,
    month: u32,
    day: u32,
}

impl View for CalendarDate {
    type V = DateView;

    closed spec fn view(&self) -> DateView {
        DateView { year: self.year as int, month: self.month as int, day: self.day as int }
    }
}

impl DateView {
    /// The date is one that `chrono` holds.
    pub open spec fn is_valid(self) -> bool {
        valid_date(self.year, self.month, self.day)
    }

    /// Days from 1970-01-01 to the date.
    pub open spec fn epoch_days(self) -> int {
        days_from_epoch(self.year, self.month, self.day)
    }
}

impl CalendarDate {
    #[verifier::type_invariant]
    closed spec fn inv(self) -> bool {
        valid_date(self.year as int, self.month as int, self.day as int)
    }

    /// The year.
    pub fn year(&self) -> (r: i32)
        ensures
            r == self@.year,
            self@.is_valid(),
    {
        proof {
            use_type_invariant(self);
        }
        self.year
    }

    /// The month, 1 to 12.
    pub fn month(&self) -> (r: u32)
        ensures
            r == self@.month,
            self@.is_valid(),
    {
        proof {
            use_type_invariant(self);
        }
        self.month
    }

    /// The day of the month, from 1.
    pub fn day(&self) -> (r: u32)
        ensures
            r == self@.day,
            self@.is_valid(),
    {
        proof {
            use_type_invariant(self);
        }
        self.day
    }
}

/// What `chrono::NaiveDate::parse_from_str` makes of a text and a format:
/// the year, month and day parsed, or the text of the error.
pub uninterp spec fn parsed_date(input: Seq<char>, format: Seq<char>) -> Result<(int, int, int), Seq<char>>;

/// Wraps `chrono::NaiveDate::parse_from_str`.
/// Trusted: the result is the crate's parse of `input` by `format`, named by
/// `parsed_date`, the error given by its `Display` text; a date that comes
/// back is one that `NaiveDate` holds, so a valid date within its range.
/// Of a date of the years 0 to 9999 written `MM/DD/YYYY` or `MM-DD-YYYY`,
/// zero-padded, the parse by the format of the same separator gives that
/// date back (`%m` reads the month, `%d` the day, `%Y` the year), and the
/// dashed text does not parse by the slashed format (a literal that does not
/// match is an error).
#[verifier::external_body]
fn parse_with_format(input: &str, format: &str) -> (r: Result<CalendarDate, String>)
    ensures
        match r {
            Ok(d) => parsed_date(input@, format@) == Ok::<(int, int, int), Seq<char>>(
                (d@.year, d@.month, d@.day),
            ) && d@.is_valid(),
            Err(m) => parsed_date(input@, format@) == Err::<(int, int, int), Seq<char>>(m@),
        },
        forall|y: int, m: int, d: int, slashed: bool|
            valid_date(y, m, d) && 0 <= y <= 9999 && input@ == #[trigger] month_first_text(
                y as nat,
                m as nat,
                d as nat,
                slashed,
            ) && format@ == month_first_format(slashed) ==> r is Ok && r->Ok_0@.year == y && r->Ok_0@.month == m
                && r->Ok_0@.day == d,
        forall|y: int, m: int, d: int|
            valid_date(y, m, d) && 0 <= y <= 9999 && input@ == #[trigger] month_first_text(
                y as nat,
                m as nat,
                d as nat,
                false,
            ) && format@ == month_first_format(true) ==> r is Err,
{
    match chrono::NaiveDate::parse_from_str(input, format) {
        Ok(d) => Ok(CalendarDate { year: d.year(), month: d.month(), day: d.day() }),
        Err(e) => Err(e.to_string()),
    }
}

/// The separator of the parts of a date written month first: a slash, or
/// else a dash.
pub open spec fn date_separator(slashed: bool) -> char {
    if slashed {
        '/'
    } else {
        '-'
    }
}

/// The format of a date written month first, `%m`, `%d` and `%Y` parted by
/// slashes or by dashes.
pub open spec fn month_first_format(slashed: bool) -> Seq<char> {
    let sep = date_separator(slashed);
    seq!['%', 'm', sep, '%', 'd', sep, '%', 'Y']
}

/// A date written month first, `MM`, `DD` and `YYYY` zero-padded and parted
/// by slashes or by dashes.
pub open spec fn month_first_text(y: nat, m: nat, d: nat, slashed: bool) -> Seq<char> {
    let sep = date_separator(slashed);
    padded(m, 2) + seq![sep] + padded(d, 2) + seq![sep] + padded(y, 4)
}

/// The format `MM/DD/YYYY`.
pub open spec fn slash_format() -> Seq<char> {
    month_first_format(true)
}

/// The format `MM-DD-YYYY`.
pub open spec fn dash_format() -> Seq<char> {
    month_first_format(false)
}

/// How a command-line date parses: as `MM/DD/YYYY`, else as `MM-DD-YYYY`,
/// whose error is reported when both fail.
pub open spec fn date_argument(input: Seq<char>) -> Result<(int, int, int), Seq<char>> {
    match parsed_date(input, slash_format()) {
        Ok(t) => Ok(t),
        Err(_) => parsed_date(input, dash_format()),
    }
}

/// Parses a date given as `MM/DD/YYYY` or `MM-DD-YYYY`.
///
/// The first number is always the month: a date of the years 0 to 9999
/// written month first with either separator, zero-padded, comes back as
/// that year, month and day.
pub fn parse_naive_date(date_str: &str) -> (r: Result<CalendarDate, String>)
    ensures
        match r {
            Ok(d) => date_argument(date_str@) == Ok::<(int, int, int), Seq<char>>(
                (d@.year, d@.month, d@.day),
            ),
            Err(m) => date_argument(date_str@) == Err::<(int, int, int), Seq<char>>(m@),
        },
        forall|y: int, m: int, d: int, slashed: bool|
            valid_date(y, m, d) && 0 <= y <= 9999 && date_str@ == #[trigger] month_first_text(
                y as nat,
                m as nat,
                d as nat,
                slashed,
            ) ==> r is Ok && r->Ok_0@.year == y && r->Ok_0@.month == m && r->Ok_0@.day == d,
{
    proof {
        reveal_strlit("%m/%d/%Y");
        reveal_strlit("%m-%d-%Y");
    }
    let slash = "%m/%d/%Y";
    let dash = "%m-%d-%Y";
    assert(slash@ =~= slash_format());
    assert(dash@ =~= dash_format());
    match parse_with_format(date_str, slash) {
        Ok(d) => Ok(d),
        Err(_) => parse_with_format(date_str, dash),
    }
}

/// Wraps `chrono::DateTime::<Utc>::timestamp` of the date at midnight UTC
/// (`NaiveDate::and_hms_opt(0, 0, 0)`, `Utc::from_utc_datetime`).
/// Trusted: the result is the number of non-leap seconds from 1970-01-01
/// 00:00 UTC to the start of the date, as the crate documents it.
#[verifier::external_body]
fn utc_midnight(date: &CalendarDate) -> (r: i64)
    ensures
        r == date@.epoch_days() * 86400,
{
    let d = chrono::NaiveDate::from_ymd_opt(date.year, date.month, date.day).unwrap();
    chrono::Utc.from_utc_datetime(&d.and_hms_opt(0, 0, 0).unwrap()).timestamp()
}

/// The Unix timestamp of the start of `date`, in UTC.
pub fn midnight_timestamp(date: &CalendarDate) -> (r: i64)
    ensures
        r == date@.epoch_days() * 86400,
        valid_timestamp(r as int),
{
    proof {
        use_type_invariant(date);
        lemma_days_bounded(date@.year, date@.month, date@.day);
    }
    let r = utc_midnight(date);
    proof {
        assert(r / 86400 == date@.epoch_days());
        assert(days_from_epoch(date@.year, date@.month, date@.day) == (r as int) / 86400);
    }
    r
}

/// The number `n` written with at least `width` digits, zero-padded.
pub open spec fn padded(n: nat, width: nat) -> Seq<char>
    decreases width,
{
    if width <= 1 {
        decimal(n)
    } else {
        padded(n / 10, (width - 1) as nat).push(digit_char(n % 10))
    }
}

/// A date written `YYYY-MM-DD`.
pub open spec fn iso_day(y: nat, m: nat, d: nat) -> Seq<char> {
    padded(y, 4) + seq!['-'] + padded(m, 2) + seq!['-'] + padded(d, 2)
}

/// What `chrono::DateTime::<Utc>::format("%Y-%m-%d")` writes for the moment
/// of a Unix timestamp.
pub uninterp spec fn utc_day_text(ts: int) -> Seq<char>;

/// Wraps `chrono::DateTime::<Utc>::format` with `%Y-%m-%d` (of
/// `DateTime::from_timestamp(ts, 0)`).
/// Trusted: the result is the crate's text, named by `utc_day_text`; for a
/// day of the years 0 to 9999 it is the year in four digits, the month and
/// the day in two, joined by dashes, as the crate documents `%Y`, `%m`, `%d`.
#[verifier::external_body]
fn format_utc_day(ts: i64) -> (r: String)
    requires
        valid_timestamp(ts as int),
    ensures
        r@ == utc_day_text(ts as int),
        forall|y: int, m: int, d: int|
            valid_date(y, m, d) && 0 <= y <= 9999 && #[trigger] days_from_epoch(y, m, d) == ts / 86400
                ==> r@ == iso_day(y as nat, m as nat, d as nat),
{
    chrono::DateTime::from_timestamp(ts, 0).unwrap().format("%Y-%m-%d").to_string()
}

/// The UTC day of a timestamp, written `YYYY-MM-DD` as the API expects it.
pub fn utc_day(ts: i64) -> (r: String)
    requires
        valid_timestamp(ts as int),
    ensures
        r@ == utc_day_text(ts as int),
        forall|y: int, m: int, d: int|
            valid_date(y, m, d) && 0 <= y <= 9999 && #[trigger] days_from_epoch(y, m, d) == ts / 86400
                ==> r@ == iso_day(y as nat, m as nat, d as nat),
{
    format_utc_day(ts)
}

/// The range of time that the report covers, as Unix timestamps.
#[derive(Clone, Copy, Debug)]
pub struct ReportWindow {
    pub from_ts: i64,
    pub to_ts: i64,
}

impl ReportWindow {
    /// Both ends are moments that `chrono` holds, and the length of the range
    /// fits in an `i64`.
    pub open spec fn wf(self) -> bool {
        &&& valid_timestamp(self.from_ts as int)
        &&& valid_timestamp(self.to_ts as int)
        &&& i64::MIN <= self.to_ts - self.from_ts <= i64::MAX
    }
}

/// The window of the report: from the start of the start date to the start
/// of the end date when both are given, else the 365 days up to `now_ts`.
pub fn reporting_window(start: Option<CalendarDate>, end: Option<CalendarDate>, now_ts: i64) -> (r: ReportWindow)
    requires
        start is None || end is None ==> valid_timestamp(now_ts as int) && valid_timestamp(
            now_ts - YEAR_SECONDS,
        ),
    ensures
        r.wf(),
        match (start, end) {
            (Some(s), Some(e)) => r.from_ts == s@.epoch_days() * 86400 && r.to_ts == e@.epoch_days() * 86400,
            _ => r.from_ts == now_ts - YEAR_SECONDS && r.to_ts == now_ts,
        },
{
    match (start, end) {
        (Some(s), Some(e)) => {
            proof {
                use_type_invariant(&s);
                use_type_invariant(&e);
                lemma_days_bounded(s@.year, s@.month, s@.day);
                lemma_days_bounded(e@.year, e@.month, e@.day);
            }
            let from_ts = midnight_timestamp(&s);
            let to_ts = midnight_timestamp(&e);
            ReportWindow { from_ts, to_ts }
        },
        _ => {
            ReportWindow { from_ts: now_ts - YEAR_SECONDS, to_ts: now_ts }
        },
    }
}

} // verus!
