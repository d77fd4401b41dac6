//! Local wall-clock time as plain values, and its rendering through chrono's
//! strftime patterns.
use chrono::Datelike;
use chrono::Timelike;
use std::fmt::Write;
use vstd::prelude::*;

verus! {

/// How `$date` is written: day, month, year and weekday, as `10-08-2018 Fri`.
pub const DATE_PATTERN: &'static str = "%d-%m-%Y %a";

/// How `$time` is written: hours, minutes and seconds, as `09:06.33`.
pub const TIME_PATTERN: &'static str = "%H:%M.%S";

/// How `$timeshort` is written: hours and minutes, as `09:06`.
pub const TIMESHORT_PATTERN: &'static str = "%H:%M";

/// The latest clock reading, in seconds after 1970-01-01 00:00 UTC, that is
/// turned into a local time: the start of 9999-12-31 in UTC. Shifted by any
/// local offset, which is under a day, it still falls in the year 9999.
pub const LATEST_CLOCK_SECONDS: u64 = 253402214400;

/// A moment of local wall-clock time, to the second.
#[derive(Clone, Copy, PartialEq, Eq, Debug)]
pub struct Stamp {
    pub year: i32,
    pub month: u32,
    pub day: u32,
    pub hour: u32,
    pub minute: u32,
    pub second: u32,
}

/// Whether `y` is a leap year of the proleptic Gregorian calendar.
pub open spec fn is_leap_year(y: int) -> bool {
    y % 4 == 0 && (y % 100 != 0 || y % 400 == 0)
}

/// The number of days of month `m` (1 to 12) of year `y`.
pub open spec fn days_in_month(y: int, m: int) -> int {
    if m == 2 {
        if is_leap_year(y) {
            29
        } else {
            28
        }
    } else if m == 4 || m == 6 || m == 9 || m == 11 {
        30
    } else {
        31
    }
}

impl Stamp {
    /// Each field lies in its range: month 1 to 12, day 1 to 31, hour 0 to 23,
    /// minute and second 0 to 59.
    pub open spec fn wf(&self) -> bool {
        &&& 1 <= self.month <= 12
        &&& 1 <= self.day <= 31
        &&& self.hour < 24
        &&& self.minute < 60
        &&& self.second < 60
    }

    /// The day exists in its month and the year lies in chrono's range of
    /// dates, -262143 to 262142.
    pub open spec fn is_date(&self) -> bool {
        &&& -262143 <= self.year <= 262142
        &&& 1 <= self.month <= 12
        &&& 1 <= self.day <= days_in_month(self.year as int, self.month as int)
    }
}

/// The decimal digit of `n`, for `n` from 0 to 9.
pub open spec fn digit(n: int) -> char {
    seq!['0', '1', '2', '3', '4', '5', '6', '7', '8', '9'][n]
}

/// `n`, from 0 to 99, as two digits.
pub open spec fn two_digits(n: int) -> Seq<char> {
    seq![digit(n / 10), digit(n % 10)]
}

/// `n`, from 0 to 9999, as four digits.
pub open spec fn four_digits(n: int) -> Seq<char> {
    two_digits(n / 100) + two_digits(n % 100)
}

/// The time of `s` as `HH:MM.SS`.
pub open spec fn time_text(s: Stamp) -> Seq<char> {
    two_digits(s.hour as int) + seq![':'] + two_digits(s.minute as int) + seq!['.']
        + two_digits(s.second as int)
}

/// The time of `s` as `HH:MM`.
pub open spec fn short_text(s: Stamp) -> Seq<char> {
    two_digits(s.hour as int) + seq![':'] + two_digits(s.minute as int)
}

/// Whether `w` is the English abbreviation of a weekday.
pub open spec fn is_weekday_name(w: Seq<char>) -> bool {
    ||| w == seq!['S', 'u', 'n']
    ||| w == seq!['M', 'o', 'n']
    ||| w == seq!['T', 'u', 'e']
    ||| w == seq!['W', 'e', 'd']
    ||| w == seq!['T', 'h', 'u']
    ||| w == seq!['F', 'r', 'i']
    ||| w == seq!['S', 'a', 't']
}

/// Whether `t` is the date of `s` as `DD-MM-YYYY Ddd`.
pub open spec fn date_shape(t: Seq<char>, s: Stamp) -> bool {
    &&& t.len() == 14
    &&& t.take(10) == two_digits(s.day as int) + seq!['-'] + two_digits(s.month as int) + seq!['-']
        + four_digits(s.year as int)
    &&& t[10] == ' '
    &&& is_weekday_name(t.skip(11))
}

/// Whether `o` holds the date of `s` as `DD-MM-YYYY Ddd`.
pub open spec fn has_date_shape(o: Option<Seq<char>>, s: Stamp) -> bool {
    o matches Some(t) && date_shape(t, s)
}

/// The text an optional string holds.
pub open spec fn text_of(o: Option<String>) -> Option<Seq<char>> {
    match o {
        Some(s) => Some(s@),
        None => None,
    }
}

/// The text that chrono makes of `stamp` with the strftime pattern `pattern`,
/// or `None` where the stamp is no date that chrono represents or the pattern
/// cannot be written out for it.
pub uninterp spec fn strftime(pattern: Seq<char>, stamp: Stamp) -> Option<Seq<char>>;

/// Relies on `std::time::SystemTime::now` and `SystemTime::duration_since`:
/// the whole seconds that the system clock reads after the Unix epoch, or
/// `None` where it reads before it.
#[verifier::external_body]
pub(crate) fn unix_seconds() -> (r: Option<u64>) {
    match std::time::SystemTime::now().duration_since(std::time::UNIX_EPOCH) {
        Ok(d) => Some(d.as_secs()),
        Err(_) => None,
    }
}

/// Relies on `chrono::DateTime::from_timestamp`, `DateTime::with_timezone`
/// with `chrono::Local`, and the `Datelike` and `Timelike` accessors: the
/// local date and time `secs` seconds after the Unix epoch. `from_timestamp`
/// accepts every such count up to the bound; the local offset moves the
/// moment by less than a day, so the date is a real one of the years 1969 to
/// 9999, and chrono documents the ranges that `wf` states. chrono's lookup of
/// the local offset unwraps its result, which fails only on broken time zone
/// data of the system.
#[verifier::external_body]
pub(crate) fn local_stamp(secs: u64) -> (r: Stamp)
    requires
        secs <= LATEST_CLOCK_SECONDS,
    ensures
        r.wf(),
        r.is_date(),
        1969 <= r.year <= 9999,
{
    let utc = chrono::DateTime::from_timestamp(secs as i64, 0).expect("in chrono's range");
    let now = utc.with_timezone(&chrono::Local);
    Stamp {
        year: now.year(),
        month: now.month(),
        day: now.day(),
        hour: now.hour(),
        minute: now.minute(),
        second: now.second(),
    }
}

/// Relies on `chrono::NaiveDate::from_ymd_opt`, `NaiveDate::and_hms_opt` and
/// `NaiveDateTime::format`: the stamp as a chrono date and time, written out
/// with `pattern`. `None` where chrono refuses the date, the time, or the
/// pattern. `from_ymd_opt` and `and_hms_opt` accept every stamp that is a date
/// with fields in range; the three patterns of the library always print, with
/// numbers zero-padded to two digits, a year of 0 to 9999 to four, and the
/// weekday as its English abbreviation.
#[verifier::external_body]
pub(crate) fn format_stamp(stamp: &Stamp, pattern: &str) -> (r: Option<String>)
    ensures
        r matches Some(s) ==> strftime(pattern@, *stamp) == Some(s@),
        r is None ==> strftime(pattern@, *stamp) is None,
        stamp.wf() && stamp.is_date() && (pattern@ == DATE_PATTERN@ || pattern@ == TIME_PATTERN@
            || pattern@ == TIMESHORT_PATTERN@) ==> r is Some,
        stamp.wf() && stamp.is_date() && pattern@ == TIME_PATTERN@ ==> text_of(r) == Some(
            time_text(*stamp),
        ),
        stamp.wf() && stamp.is_date() && pattern@ == TIMESHORT_PATTERN@ ==> text_of(r) == Some(
            short_text(*stamp),
        ),
        stamp.wf() && stamp.is_date() && 0 <= stamp.year <= 9999 && pattern@ == DATE_PATTERN@
            ==> has_date_shape(text_of(r), *stamp),
{
    let date = chrono::NaiveDate::from_ymd_opt(stamp.year, stamp.month, stamp.day)?;
    let at = date.and_hms_opt(stamp.hour, stamp.minute, stamp.second)?;
    let mut out = String::new();
    match write!(out, "{}", at.format(pattern)) {
        Ok(()) => Some(out),
        Err(_) => None,
    }
}

/// The short time is the long time cut after the minutes, and neither holds
/// a letter: both are digits and separators.
pub proof fn lemma_short_time_is_prefix(s: Stamp)
    requires
        s.wf(),
    ensures
        time_text(s).len() == 8,
        short_text(s) == time_text(s).take(5),
        forall|i: int|
            0 <= i < 8 ==> ('0' <= #[trigger] time_text(s)[i] <= '9' || time_text(s)[i] == ':'
                || time_text(s)[i] == '.'),
{
    let t = time_text(s);
    assert(short_text(s) =~= t.take(5));
    let h = s.hour as int;
    let m = s.minute as int;
    let c = s.second as int;
    assert(t =~= seq![
        digit(h / 10),
        digit(h % 10),
        ':',
        digit(m / 10),
        digit(m % 10),
        '.',
        digit(c / 10),
        digit(c % 10),
    ]);
}

} // verus!
