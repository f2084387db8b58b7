//! Points in time, calendar dates and the daily schedule.

use vstd::prelude::*;
use vstd::string::*;
use crate::number;
use crate::number::{decimal, zero_padded};
use crate::scan;
use crate::text;

verus! {

broadcast use vstd::string::group_string_axioms;

/// The first second that a calendar date can be given for.
pub const MIN_SECONDS: i64 = -8_334_601_228_800;

/// The last second that a calendar date can be given for.
pub const MAX_SECONDS: i64 = 8_210_266_876_799;

/// The first day that has a calendar date.
pub const MIN_DAY: i32 = -96_465_292;

/// The last day that has a calendar date.
pub const MAX_DAY: i32 = 95_026_236;

/// How many seconds Taipei is ahead of UTC.
pub const TAIPEI_OFFSET: i32 = 28_800;

/// The second of the day, in Taipei, at which the daily run starts: 06:30.
pub const DAILY_RUN_SECOND: i64 = 23_400;

/// How many seconds a day has.
pub const SECONDS_PER_DAY: i64 = 86_400;

/// A point in time: seconds since the start of 1970 in UTC, and nanoseconds.
#[derive(Clone, Copy, Debug, PartialEq, Eq, Structural)]
pub struct Timestamp {
    pub seconds: i64,
    pub nanos: u32,
}

/// A second that a calendar date can be given for.
pub open spec fn is_calendar_second(seconds: int) -> bool {
    MIN_SECONDS <= seconds <= MAX_SECONDS
}

impl Timestamp {
    /// The point in time has a calendar date.
    pub open spec fn wf(self) -> bool {
        is_calendar_second(self.seconds as int) && self.nanos < 1_000_000_000
    }
}

// ---------------------------------------------------------------------------
// Calendar
// ---------------------------------------------------------------------------

/// A year with a 29th of February.
pub open spec fn is_leap(year: int) -> bool {
    year % 4 == 0 && (year % 100 != 0 || year % 400 == 0)
}

/// How many days a month of a year has.
pub open spec fn days_in_month(year: int, month: int) -> int {
    if month == 2 {
        if is_leap(year) {
            29
        } else {
            28
        }
    } else if month == 4 || month == 6 || month == 9 || month == 11 {
        30
    } else {
        31
    }
}

/// How many days of a year come before a month.
pub open spec fn days_before_month(year: int, month: int) -> int
    decreases month,
{
    if month <= 1 {
        0
    } else {
        days_before_month(year, month - 1) + days_in_month(year, month - 1)
    }
}

/// How many days there are from the start of the year 0 to the start of a year.
pub open spec fn days_before_year(year: int) -> int {
    365 * year + (year + 3) / 4 - (year + 99) / 100 + (year + 399) / 400
}

/// A year, a month and a day are a date of the Gregorian calendar.
pub open spec fn is_date(date: (int, int, int)) -> bool {
    1 <= date.1 <= 12 && 1 <= date.2 <= days_in_month(date.0, date.1)
}

/// How many days there are from the start of 1970, which comes 719 528 days behind
/// the start of the year 0, to a date.
pub open spec fn day_number(date: (int, int, int)) -> int {
    days_before_year(date.0) + days_before_month(date.0, date.1) + date.2 - 1 - 719_528
}

/// Year, month and day of a day that is counted from the start of 1970.
pub open spec fn civil_date(day: int) -> (int, int, int) {
    choose|date: (int, int, int)| is_date(date) && #[trigger] day_number(date) == day
}

/// `chrono::NaiveDate::from_epoch_days` and the date's `year`, `month` and
/// `day`: the date of the Gregorian calendar that comes so many days behind the
/// start of 1970.
#[verifier::external_body]
fn date_of_day(day: i32) -> (r: (i32, u32, u32))
    requires
        MIN_DAY <= day <= MAX_DAY,
    ensures
        is_date((r.0 as int, r.1 as int, r.2 as int)),
        day_number((r.0 as int, r.1 as int, r.2 as int)) == day,
{
    let date = chrono::NaiveDate::from_epoch_days(day).unwrap();
    (chrono::Datelike::year(&date), chrono::Datelike::month(&date), chrono::Datelike::day(&date))
}

/// A year has 365 days, or 366.
proof fn lemma_year(year: int)
    ensures
        days_before_year(year + 1) == days_before_year(year) + days_before_month(year, 13),
        days_before_month(year, 13) >= 365,
{
    assert(days_before_month(year, 13) == if is_leap(year) {
        366int
    } else {
        365int
    }) by {
        reveal_with_fuel(days_before_month, 13);
    }
    assert((year + 4) / 4 - (year + 3) / 4 == if year % 4 == 0 {
        1int
    } else {
        0int
    });
    assert((year + 100) / 100 - (year + 99) / 100 == if year % 100 == 0 {
        1int
    } else {
        0int
    });
    assert((year + 400) / 400 - (year + 399) / 400 == if year % 400 == 0 {
        1int
    } else {
        0int
    });
    assert(year % 400 == 0 ==> year % 100 == 0);
    assert(year % 100 == 0 ==> year % 4 == 0);
}

/// Years come one behind the other.
proof fn lemma_years(a: int, b: int)
    requires
        a <= b,
    ensures
        days_before_year(a) <= days_before_year(b),
    decreases b - a,
{
    if a < b {
        lemma_years(a, b - 1);
        lemma_year(b - 1);
    }
}

/// Months come one behind the other.
proof fn lemma_months(year: int, a: int, b: int)
    requires
        1 <= a <= b,
    ensures
        days_before_month(year, a) <= days_before_month(year, b),
        0 <= days_before_month(year, a),
    decreases b - a, a,
{
    if a < b {
        lemma_months(year, a, b - 1);
    } else if a > 1 {
        lemma_months(year, a - 1, a - 1);
    }
}

/// Dates of different years or months are different days, the later the later.
proof fn lemma_later(a: (int, int, int), b: (int, int, int))
    requires
        is_date(a),
        is_date(b),
        a.0 < b.0 || (a.0 == b.0 && a.1 < b.1),
    ensures
        day_number(a) < day_number(b),
{
    lemma_months(b.0, 1, b.1);
    if a.0 < b.0 {
        lemma_months(a.0, a.1 + 1, 13);
        lemma_year(a.0);
        lemma_years(a.0 + 1, b.0);
    } else {
        lemma_months(a.0, a.1 + 1, b.1);
    }
}

/// A day has one date.
pub proof fn lemma_civil_date(day: int, date: (int, int, int))
    requires
        is_date(date),
        day_number(date) == day,
    ensures
        civil_date(day) == date,
{
    let other = civil_date(day);
    assert(is_date(other) && day_number(other) == day);
    if other.0 < date.0 || (other.0 == date.0 && other.1 < date.1) {
        lemma_later(other, date);
    }
    if date.0 < other.0 || (other.0 == date.0 && date.1 < other.1) {
        lemma_later(date, other);
    }
}

/// Year, month and day of a day.
fn civil(day: i32) -> (r: (i32, u32, u32))
    requires
        MIN_DAY <= day <= MAX_DAY,
    ensures
        (r.0 as int, r.1 as int, r.2 as int) == civil_date(day as int),
        1 <= r.1 <= 12,
        1 <= r.2 <= 31,
{
    let date: (i32, u32, u32) = date_of_day(day);
    proof {
        lemma_civil_date(day as int, (date.0 as int, date.1 as int, date.2 as int));
    }
    date
}

/// The day that a text names as year, month and day with hyphens between them.
pub uninterp spec fn parsed_day(text: Seq<char>) -> Option<int>;

/// `chrono::NaiveDate::parse_from_str` with the format `%Y-%m-%d`: the day that
/// a text names. What `hyphened_date` writes for a day of the years 0 to 9999
/// names that day.
#[verifier::external_body]
fn parse_day(text: &str) -> (r: Option<i32>)
    ensures
        parsed_day(text@) == (match r {
            Some(day) => Some(day as int),
            None => None,
        }),
        r is Some ==> MIN_DAY <= r->0 <= MAX_DAY,
        forall|day: int|
            MIN_DAY <= day <= MAX_DAY && 0 <= civil_date(day).0 <= 9999 && text@ == hyphened_date(
                day,
            ) ==> r == Some(day as i32),
{
    chrono::NaiveDate::parse_from_str(text, "%Y-%m-%d").ok().map(|date| date.to_epoch_days())
}

/// The fraction of a second, in as many groups of three digits as it takes; none
/// where there is no fraction.
pub open spec fn fraction_text(nanos: int) -> Seq<char> {
    if nanos == 0 {
        Seq::empty()
    } else if nanos % 1_000_000 == 0 {
        seq!['.'] + zero_padded(decimal((nanos / 1_000_000) as nat), 3)
    } else if nanos % 1_000 == 0 {
        seq!['.'] + zero_padded(decimal((nanos / 1_000) as nat), 6)
    } else {
        seq!['.'] + zero_padded(decimal(nanos as nat), 9)
    }
}

/// The hours and minutes that a clock is ahead of UTC, or behind, as `+08:00`.
pub open spec fn offset_text(offset: int) -> Seq<char> {
    let (sign, size) = if offset < 0 {
        ('-', -offset)
    } else {
        ('+', offset)
    };
    seq![sign] + two_digits(size / 3600) + ":"@ + two_digits(size / 60 % 60)
}

/// A point in time in the notation of RFC 3339, as a clock shows it that is
/// `offset` seconds ahead of UTC.
pub open spec fn rfc3339_text(seconds: int, nanos: int, offset: int) -> Seq<char> {
    hyphened_date(local_day(seconds, offset)) + "T"@ + time_of_day(local_second(seconds, offset))
        + fraction_text(nanos) + offset_text(offset)
}

/// `chrono::DateTime::to_rfc3339` at the point in time that lies `seconds` and
/// `nanos` behind the start of 1970, for a clock that is `offset` seconds, a
/// number of whole minutes, ahead of UTC: the date, the time of day, the fraction of
/// the second and the offset.
#[verifier::external_body]
fn to_rfc3339(seconds: i64, nanos: u32, offset: i32) -> (r: String)
    requires
        is_calendar_second(seconds as int),
        is_calendar_second(seconds + offset),
        nanos < 1_000_000_000,
        -86_400 < offset < 86_400,
        offset as int % 60 == 0,
    ensures
        r@ == rfc3339_text(seconds as int, nanos as int, offset as int),
{
    let zone = chrono::FixedOffset::east_opt(offset).unwrap();
    chrono::DateTime::from_timestamp(seconds, nanos).unwrap().with_timezone(&zone).to_rfc3339()
}

/// A year in four digits at least; one before 0 or behind 9999 has a sign.
pub open spec fn year_text(year: int) -> Seq<char> {
    if 0 <= year <= 9999 {
        zero_padded(decimal(year as nat), 4)
    } else if year < 0 {
        seq!['-'] + zero_padded(decimal((-year) as nat), 4)
    } else {
        seq!['+'] + zero_padded(decimal(year as nat), 4)
    }
}

/// A number in two digits at least.
pub open spec fn two_digits(n: int) -> Seq<char> {
    zero_padded(decimal(n as nat), 2)
}

/// Year, month and day with `sep` between them.
pub open spec fn date_text(day: int, sep: Seq<char>) -> Seq<char> {
    year_text(civil_date(day).0) + sep + two_digits(civil_date(day).1) + sep + two_digits(
        civil_date(day).2,
    )
}

/// A day as `2026-08-19`.
pub open spec fn hyphened_date(day: int) -> Seq<char> {
    date_text(day, "-"@)
}

/// A day as `2026/08/19`.
pub open spec fn slashed_date(day: int) -> Seq<char> {
    date_text(day, "/"@)
}

/// A day as `08-19`.
pub open spec fn month_and_day(day: int) -> Seq<char> {
    two_digits(civil_date(day).1) + "-"@ + two_digits(civil_date(day).2)
}

/// The day on which a clock shows a point in time.
pub open spec fn local_day(seconds: int, offset: int) -> int {
    (seconds + offset) / 86_400
}

/// The second of the day that a clock shows at a point in time.
pub open spec fn local_second(seconds: int, offset: int) -> int {
    (seconds + offset) % 86_400
}

/// Hours, minutes and seconds of a second of the day, as `06:30:00`.
pub open spec fn time_of_day(second: int) -> Seq<char> {
    two_digits(second / 3600) + ":"@ + two_digits(second / 60 % 60) + ":"@ + two_digits(second % 60)
}

/// `n` in two digits at least.
fn two_digit_text(n: u32) -> (r: String)
    ensures
        r@ == two_digits(n as int),
        n < 100 ==> r@.len() == 2,
{
    proof {
        reveal_with_fuel(number::ten_to, 3);
        if n < 100 {
            number::lemma_decimal_len(n as nat, 2);
        }
    }
    number::zero_pad(number::to_decimal(n as u64).as_str(), 2)
}

/// A year in four digits at least.
fn year_string(year: i32) -> (r: String)
    ensures
        r@ == year_text(year as int),
        r@.len() <= 11,
{
    proof {
        reveal_with_fuel(number::ten_to, 11);
        let size: nat = if year < 0 {
            (-(year as int)) as nat
        } else {
            year as nat
        };
        number::lemma_decimal_len(size, 10);
    }
    let size: u64 = if year < 0 {
        (-(year as i64)) as u64
    } else {
        year as u64
    };
    let digits: String = number::zero_pad(number::to_decimal(size).as_str(), 4);
    if year < 0 {
        proof {
            reveal_strlit("-");
            assert("-"@ =~= seq!['-']);
        }
        scan::concat("-", digits.as_str())
    } else if year > 9999 {
        proof {
            reveal_strlit("+");
            assert("+"@ =~= seq!['+']);
        }
        scan::concat("+", digits.as_str())
    } else {
        digits
    }
}

/// Year, month and day with `sep` between them.
fn date_string(day: i32, sep: &str) -> (r: String)
    requires
        MIN_DAY <= day <= MAX_DAY,
    ensures
        r@ == date_text(day as int, sep@),
        r@.len() <= 15 + 2 * sep@.len(),
{
    let (year, month, day_of_month): (i32, u32, u32) = civil(day);
    let mut out: String = year_string(year);
    out.append(sep);
    out.append(two_digit_text(month).as_str());
    out.append(sep);
    out.append(two_digit_text(day_of_month).as_str());
    out
}

/// A day as `2026-08-19`.
pub fn format_hyphened(day: i32) -> (r: String)
    requires
        MIN_DAY <= day <= MAX_DAY,
    ensures
        r@ == hyphened_date(day as int),
{
    date_string(day, "-")
}

/// A day as `2026/08/19`.
pub fn format_slashed(day: i32) -> (r: String)
    requires
        MIN_DAY <= day <= MAX_DAY,
    ensures
        r@ == slashed_date(day as int),
        r@.len() <= 17,
{
    proof {
        reveal_strlit("/");
    }
    date_string(day, "/")
}

/// A day as `08-19`, the name of the folder for its postings.
pub fn format_month_day(day: i32) -> (r: String)
    requires
        MIN_DAY <= day <= MAX_DAY,
    ensures
        r@ == month_and_day(day as int),
{
    let (year, month, day_of_month): (i32, u32, u32) = civil(day);
    scan::concat3(two_digit_text(month).as_str(), "-", two_digit_text(day_of_month).as_str())
}

/// The day that a text of the form `2026-08-19` names.
pub fn parse_date(value: &str) -> (r: Option<i32>)
    ensures
        parsed_day(value@) == (match r {
            Some(day) => Some(day as int),
            None => None,
        }),
        r is Some ==> MIN_DAY <= r->0 <= MAX_DAY,
        forall|day: int|
            MIN_DAY <= day <= MAX_DAY && 0 <= civil_date(day).0 <= 9999 && value@ == hyphened_date(
                day,
            ) ==> r == Some(day as i32),
{
    parse_day(value)
}

// ---------------------------------------------------------------------------
// Taipei time
// ---------------------------------------------------------------------------

impl Timestamp {
    /// The day that Taipei's calendar shows at this point in time.
    pub open spec fn taipei_day(self) -> int {
        local_day(self.seconds as int, TAIPEI_OFFSET as int)
    }

    /// This point in time as Taipei's clocks show it, in RFC 3339.
    pub open spec fn taipei_rfc3339(self) -> Seq<char> {
        rfc3339_text(self.seconds as int, self.nanos as int, TAIPEI_OFFSET as int)
    }

    /// Taipei's clocks show this point in time with a calendar date.
    pub open spec fn has_taipei_date(self) -> bool {
        self.wf() && self.seconds + TAIPEI_OFFSET <= MAX_SECONDS
    }
}

/// The day that Taipei's calendar shows at a point in time.
pub fn taipei_date(now: &Timestamp) -> (r: i32)
    requires
        now.has_taipei_date(),
    ensures
        r == now.taipei_day(),
        MIN_DAY <= r <= MAX_DAY,
{
    let local: i64 = now.seconds + TAIPEI_OFFSET as i64;
    floor_div(local) as i32
}

/// A number of seconds in whole days, rounded down.
fn floor_div(seconds: i64) -> (r: i64)
    ensures
        r == seconds as int / 86_400,
{
    if seconds >= 0 {
        seconds / 86_400
    } else {
        let down: i64 = -((-(seconds + 1)) / 86_400) - 1;
        assert(down == seconds as int / 86_400) by (nonlinear_arith)
            requires
                seconds < 0,
                down == -((-(seconds + 1)) / 86_400) - 1,
        ;
        down
    }
}

/// A point in time as Taipei's clocks show it, in RFC 3339.
pub fn taipei_rfc3339(now: &Timestamp) -> (r: String)
    requires
        now.has_taipei_date(),
    ensures
        r@ == now.taipei_rfc3339(),
{
    to_rfc3339(now.seconds, now.nanos, TAIPEI_OFFSET)
}

/// The time of a run as `2026/08/19 06:30:00` in Taipei.
pub open spec fn execution_time_text(now: Timestamp) -> Seq<char> {
    slashed_date(now.taipei_day()) + " "@ + time_of_day(
        local_second(now.seconds as int, TAIPEI_OFFSET as int),
    )
}

/// The time of a run as `2026/08/19 06:30:00` in Taipei.
pub fn current_execution_time(now: &Timestamp) -> (r: String)
    requires
        now.has_taipei_date(),
    ensures
        r@ == execution_time_text(*now),
{
    let day: i32 = taipei_date(now);
    let local: i64 = now.seconds + TAIPEI_OFFSET as i64;
    let second: u32 = (local - day as i64 * 86_400) as u32;
    let mut out: String = format_slashed(day);
    out.append(" ");
    out.append(two_digit_text(second / 3600).as_str());
    out.append(":");
    out.append(two_digit_text(second / 60 % 60).as_str());
    out.append(":");
    out.append(two_digit_text(second % 60).as_str());
    assert(out@ =~= execution_time_text(*now));
    out
}

// ---------------------------------------------------------------------------
// Schedule
// ---------------------------------------------------------------------------

/// A length of time in whole seconds and nanoseconds.
#[derive(Clone, Copy, Debug, PartialEq, Eq, Structural)]
pub struct Delay {
    pub seconds: u64,
    pub nanos: u32,
}

/// The second, counted in UTC, at which the first daily run behind `now` starts.
pub open spec fn next_run_second(now: Timestamp) -> int {
    let today = now.taipei_day() * 86_400 + DAILY_RUN_SECOND - TAIPEI_OFFSET;
    if today > now.seconds {
        today
    } else {
        today + 86_400
    }
}

/// How long it is from `now` until the next daily run starts.
pub fn next_scheduled_run(now: &Timestamp) -> (r: Delay)
    requires
        now.has_taipei_date(),
    ensures
        r.nanos < 1_000_000_000,
        r.seconds * 1_000_000_000 + r.nanos == (next_run_second(*now) - now.seconds)
            * 1_000_000_000 - now.nanos,
{
    let day: i64 = taipei_date(now) as i64;
    let today: i64 = day * 86_400 + DAILY_RUN_SECOND - TAIPEI_OFFSET as i64;
    let next: i64 = if today > now.seconds {
        today
    } else {
        today + 86_400
    };
    let seconds: i64 = next - now.seconds;
    if now.nanos == 0 {
        Delay { seconds: seconds as u64, nanos: 0 }
    } else {
        Delay { seconds: (seconds - 1) as u64, nanos: 1_000_000_000 - now.nanos }
    }
}

/// The next daily run lies behind `now`, a day away at most, and starts at the
/// second of the day at which daily runs start in Taipei.
pub proof fn law_daily_run_is_next(now: Timestamp)
    requires
        now.has_taipei_date(),
    ensures
        now.seconds < next_run_second(now) <= now.seconds + 86_400,
        local_second(next_run_second(now), TAIPEI_OFFSET as int) == DAILY_RUN_SECOND,
        forall|second: int|
            now.seconds < second < next_run_second(now) ==> #[trigger] local_second(
                second,
                TAIPEI_OFFSET as int,
            ) != DAILY_RUN_SECOND,
{
}

// ---------------------------------------------------------------------------
// Times in the past
// ---------------------------------------------------------------------------

/// The point in time `seconds` before another, in RFC 3339 and UTC.
pub open spec fn past_rfc3339(at: Timestamp, seconds: int) -> Seq<char> {
    rfc3339_text(at.seconds - seconds, at.nanos as int, 0)
}

/// The point in time `seconds` before another, in RFC 3339 and UTC.
pub fn rfc3339_before(at: &Timestamp, seconds: i128) -> (r: String)
    requires
        at.wf(),
        is_calendar_second(at.seconds - seconds),
    ensures
        r@ == past_rfc3339(*at, seconds as int),
{
    let earlier: i64 = (at.seconds as i128 - seconds) as i64;
    to_rfc3339(earlier, at.nanos, 0)
}

/// Whether the point in time `seconds` before another has a calendar date.
pub fn has_date_before(at: &Timestamp, seconds: i128) -> (r: bool)
    requires
        -0x1000_0000_0000_0000_0000_0000_0000 < seconds < 0x1000_0000_0000_0000_0000_0000_0000,
    ensures
        r == is_calendar_second(at.seconds - seconds),
{
    let earlier: i128 = at.seconds as i128 - seconds;
    MIN_SECONDS as i128 <= earlier && earlier <= MAX_SECONDS as i128
}

// ---------------------------------------------------------------------------
// Retention
// ---------------------------------------------------------------------------

/// How many days before today are kept.
pub const KEPT_DAYS: i64 = 6;

/// The day that the name of a history file stands for.
pub open spec fn history_day(name: Seq<char>) -> Option<int> {
    match text::strip_suffix(name, ".json"@) {
        Some(stem) => parsed_day(stem),
        None => None,
    }
}

/// The name of the history file of a day.
pub open spec fn history_name(day: int) -> Seq<char> {
    hyphened_date(day) + ".json"@
}

/// The name of the history file of a day.
pub fn history_file_name(day: i32) -> (r: String)
    requires
        MIN_DAY <= day <= MAX_DAY,
    ensures
        r@ == history_name(day as int),
{
    scan::concat(format_hyphened(day).as_str(), ".json")
}

/// The name of a file of the history folder stands for a day that is kept no longer.
pub open spec fn is_old_history(name: Seq<char>, today: int) -> bool {
    match history_day(name) {
        Some(day) => day < today - KEPT_DAYS,
        None => false,
    }
}

/// Whether a file of the history folder is out of date: its name stands for a
/// day more than six days before `today`. The history files of today and of the
/// six days before are kept, those of earlier days are not; no other file is
/// out of date.
pub fn is_expired_history(name: &str, today: i32) -> (r: bool)
    ensures
        r == is_old_history(name@, today as int),
        forall|day: int|
            MIN_DAY <= day <= MAX_DAY && 0 <= civil_date(day).0 <= 9999 && name@
                == #[trigger] history_name(day) ==> r == (day < today - KEPT_DAYS),
{
    proof {
        assert forall|day: int| name@ == #[trigger] history_name(day) implies text::strip_suffix(
            name@,
            ".json"@,
        ) == Some(hyphened_date(day)) by {
            let stem = hyphened_date(day);
            assert(name@.subrange(stem.len() as int, name@.len() as int) =~= ".json"@);
            assert(name@.take(stem.len() as int) =~= stem);
        }
    }
    match scan::strip_suffix(name, ".json") {
        Some(stem) => match parse_date(stem) {
            Some(day) => (day as i64) < today as i64 - KEPT_DAYS,
            None => false,
        },
        None => false,
    }
}

/// How many seconds a file of postings is kept.
pub const KEPT_BATCH_SECONDS: u64 = 604_800;

/// A file is older than files of postings are kept.
pub open spec fn is_old_batch(seconds: int, nanos: int) -> bool {
    seconds > KEPT_BATCH_SECONDS || (seconds == KEPT_BATCH_SECONDS && nanos > 0)
}

/// Whether a file of postings is out of date: it is a JSON file that is older
/// than seven days.
pub fn is_expired_batch(is_json: bool, age: &Delay) -> (r: bool)
    ensures
        r == (is_json && is_old_batch(age.seconds as int, age.nanos as int)),
{
    is_json && (age.seconds > KEPT_BATCH_SECONDS || (age.seconds == KEPT_BATCH_SECONDS && age.nanos
        > 0))
}

// ---------------------------------------------------------------------------
// Laws
// ---------------------------------------------------------------------------

/// The days follow one another: the day behind one of a month is the next of the
/// month, the first of the next month behind a month's last, and the first of January
/// behind the last of December. The count starts with 1970.
pub proof fn law_days_follow_one_another(year: int, month: int, day: int)
    requires
        1 <= month <= 12,
        1 <= day,
    ensures
        day_number((1970, 1, 1)) == 0,
        day_number((year, month, day + 1)) == day_number((year, month, day)) + 1,
        month < 12 ==> day_number((year, month + 1, 1)) == day_number(
            (year, month, days_in_month(year, month)),
        ) + 1,
        day_number((year + 1, 1, 1)) == day_number((year, 12, 31)) + 1,
{
    assert(days_before_month(1970, 1) == 0);
    assert(days_before_month(year, 1) == 0);
    assert(days_before_month(year + 1, 1) == 0);
    lemma_year(year);
    reveal_with_fuel(days_before_month, 13);
    if month < 12 {
        assert(days_before_month(year, month + 1) == days_before_month(year, month)
            + days_in_month(year, month));
    }
}

/// The months have their days: February has 28, or 29 in a year that is a multiple of
/// four, unless it is one of a hundred and none of four hundred.
pub proof fn law_months_have_their_days(year: int)
    ensures
        days_in_month(year, 1) == 31,
        year % 4 != 0 ==> days_in_month(year, 2) == 28,
        year % 4 == 0 && year % 100 != 0 ==> days_in_month(year, 2) == 29,
        year % 100 == 0 && year % 400 != 0 ==> days_in_month(year, 2) == 28,
        year % 400 == 0 ==> days_in_month(year, 2) == 29,
        days_in_month(year, 3) == 31,
        days_in_month(year, 4) == 30,
        days_in_month(year, 5) == 31,
        days_in_month(year, 6) == 30,
        days_in_month(year, 7) == 31,
        days_in_month(year, 8) == 31,
        days_in_month(year, 9) == 30,
        days_in_month(year, 10) == 31,
        days_in_month(year, 11) == 30,
        days_in_month(year, 12) == 31,
{
}

/// A number below a hundred is written in two digits: its tens and its ones.
pub proof fn law_two_digits_are_tens_and_ones(n: int)
    requires
        0 <= n < 100,
    ensures
        two_digits(n).len() == 2,
        two_digits(n)[0] as int == '0' as int + n / 10,
        two_digits(n)[1] as int == '0' as int + n % 10,
{
    reveal_with_fuel(decimal, 3);
    if n < 10 {
        assert(decimal(n as nat).len() == 1);
    } else {
        assert(decimal((n as nat) / 10).len() == 1);
        assert(decimal(n as nat).len() == 2);
    }
}

/// A date is written as its year, its month and its day: with hyphens, with slashes,
/// or as the month and the day alone.
pub proof fn law_dates_are_written_in_parts(year: int, month: int, day: int)
    requires
        is_date((year, month, day)),
    ensures
        ({
            let n = day_number((year, month, day));
            let y = year_text(year);
            let m = two_digits(month);
            let d = two_digits(day);
            &&& hyphened_date(n) == y + seq!['-'] + m + seq!['-'] + d
            &&& slashed_date(n) == y + seq!['/'] + m + seq!['/'] + d
            &&& month_and_day(n) == m + seq!['-'] + d
            &&& history_name(n) == y + seq!['-'] + m + seq!['-'] + d + ".json"@
        }),
{
    lemma_civil_date(day_number((year, month, day)), (year, month, day));
    reveal_strlit("-");
    reveal_strlit("/");
    assert("-"@ =~= seq!['-']);
    assert("/"@ =~= seq!['/']);
}

/// A year of four digits is written as it is, in four digits; one before the year 0 is
/// written with a minus sign, and one behind 9999 with a plus sign.
pub proof fn law_years_have_four_digits(year: int)
    ensures
        0 <= year <= 9999 ==> year_text(year).len() == 4 && number::natural(year_text(year)) == Some(
            year as nat,
        ),
        year < 0 ==> year_text(year)[0] == '-' && year_text(year).skip(1) == zero_padded(
            decimal((-year) as nat),
            4,
        ),
        year > 9999 ==> year_text(year) == seq!['+'] + decimal(year as nat),
{
    if 0 <= year <= 9999 {
        let n = year as nat;
        number::law_numbers_are_read_back(n);
        assert(number::ten_to(4) == 10_000) by {
            reveal_with_fuel(number::ten_to, 5);
        }
        number::lemma_decimal_len(n, 4);
        lemma_zeros_write_nothing(decimal(n), 4);
    } else if year < 0 {
        assert(year_text(year).skip(1) =~= zero_padded(decimal((-year) as nat), 4));
    } else {
        lemma_decimal_is_long(year as nat);
        assert(decimal(year as nat).len() >= 4);
    }
}

/// A number behind 999 takes four digits at least.
proof fn lemma_decimal_is_long(n: nat)
    requires
        n >= 1000,
    ensures
        decimal(n).len() >= 4,
{
    reveal_with_fuel(decimal, 5);
    assert(decimal(n / 10 / 10 / 10).len() >= 1);
    assert(decimal(n / 10 / 10).len() >= 2);
    assert(decimal(n / 10).len() >= 3);
}

/// Zeros before digits change nothing about the number that they write.
proof fn lemma_zeros_write_nothing(s: Seq<char>, width: nat)
    requires
        number::all_digits(s),
        s.len() > 0,
        s.len() <= width,
    ensures
        zero_padded(s, width).len() == width,
        number::all_digits(zero_padded(s, width)),
        number::natural(zero_padded(s, width)) == number::natural(s),
{
    let out = zero_padded(s, width);
    assert forall|i: int| 0 <= i < out.len() implies number::is_digit(#[trigger] out[i]) by {
        if i >= width - s.len() {
            assert(out[i] == s[i - (width - s.len())]);
        }
    }
    lemma_zeros_value(s, (width - s.len()) as nat);
    let zeros = Seq::new((width - s.len()) as nat, |i: int| '0');
    assert(out =~= zeros + s);
    number::law_digits_count_in_tens(out, '0');
    number::law_digits_count_in_tens(s, '0');
}

/// Zeros before digits change nothing about their value.
proof fn lemma_zeros_value(s: Seq<char>, n: nat)
    ensures
        number::digits_value(Seq::new(n, |i: int| '0') + s) == number::digits_value(s),
    decreases s.len(), n,
{
    let zeros = Seq::new(n, |i: int| '0');
    if s.len() > 0 {
        lemma_zeros_value(s.drop_last(), n);
        assert((zeros + s).drop_last() =~= zeros + s.drop_last());
        assert((zeros + s).last() == s.last());
    } else if n > 0 {
        let fewer = Seq::new((n - 1) as nat, |i: int| '0');
        lemma_zeros_value(s, (n - 1) as nat);
        assert((zeros + s).drop_last() =~= fewer + s);
        assert((zeros + s).last() == '0');
    } else {
        assert(zeros + s =~= s);
    }
}

/// A point in time is written as date, time of day, fraction and offset of the clock
/// that shows it, and that clock shows the point in time.
pub proof fn law_points_in_time_are_written_in_parts(
    date: (int, int, int),
    hour: int,
    minute: int,
    second: int,
    nanos: int,
    offset: int,
)
    requires
        is_date(date),
        0 <= hour < 24,
        0 <= minute < 60,
        0 <= second < 60,
    ensures
        ({
            let at = day_number(date) * 86_400 + hour * 3_600 + minute * 60 + second - offset;
            let day = year_text(date.0) + "-"@ + two_digits(date.1) + "-"@ + two_digits(date.2);
            let time = two_digits(hour) + ":"@ + two_digits(minute) + ":"@ + two_digits(second);
            &&& rfc3339_text(at, nanos, offset) == day + "T"@ + time + fraction_text(nanos)
                + offset_text(offset)
            &&& local_day(at, offset) == day_number(date)
            &&& local_second(at, offset) == hour * 3_600 + minute * 60 + second
        }),
{
    lemma_civil_date(day_number(date), date);
    lemma_time_of_day(day_number(date), hour, minute, second);
}

/// A fraction of a second is written in groups of three digits: none, milliseconds,
/// microseconds or nanoseconds, as few as tell it.
pub proof fn law_fractions_are_written_in_groups(n: int)
    requires
        0 < n < 1_000,
    ensures
        fraction_text(0).len() == 0,
        fraction_text(n * 1_000_000) == seq!['.'] + zero_padded(decimal(n as nat), 3),
        fraction_text(n * 1_000) == seq!['.'] + zero_padded(decimal(n as nat), 6),
        fraction_text(n) == seq!['.'] + zero_padded(decimal(n as nat), 9),
{
}

/// An offset is written as a sign, hours and minutes.
pub proof fn law_offsets_are_hours_and_minutes(hours: int, minutes: int)
    requires
        0 <= hours < 24,
        0 <= minutes < 60,
    ensures
        offset_text(hours * 3_600 + minutes * 60) == seq!['+'] + two_digits(hours) + ":"@
            + two_digits(minutes),
        hours + minutes > 0 ==> offset_text(-(hours * 3_600 + minutes * 60)) == seq!['-']
            + two_digits(hours) + ":"@ + two_digits(minutes),
{
    let size = hours * 3_600 + minutes * 60;
    assert(size / 3_600 == hours);
    assert(size / 60 % 60 == minutes);
}

/// Taipei's clocks are eight hours ahead of UTC. The next daily run starts when they
/// show half past six, behind now, and they do not show that before.
pub proof fn law_daily_runs_start_at_half_past_six(now: Timestamp, second: int)
    requires
        now.has_taipei_date(),
    ensures
        now.seconds < next_run_second(now),
        (next_run_second(now) + 8 * 3_600) % 86_400 == 6 * 3_600 + 30 * 60,
        now.seconds < second < next_run_second(now) ==> (second + 8 * 3_600) % 86_400 != 6 * 3_600
            + 30 * 60,
        now.taipei_day() == (now.seconds + 8 * 3_600) / 86_400,
        now.taipei_rfc3339() == rfc3339_text(now.seconds as int, now.nanos as int, 8int * 3_600),
{
    law_daily_run_is_next(now);
    assert(now.seconds < second < next_run_second(now) ==> local_second(
        second,
        TAIPEI_OFFSET as int,
    ) != DAILY_RUN_SECOND);
}

/// The time of a run is told as Taipei's clocks show it: date, with slashes, and time
/// of day.
pub proof fn law_runs_are_timed_in_taipei(
    now: Timestamp,
    date: (int, int, int),
    hour: int,
    minute: int,
    second: int,
)
    requires
        is_date(date),
        0 <= hour < 24,
        0 <= minute < 60,
        0 <= second < 60,
        now.seconds + 8 * 3_600 == day_number(date) * 86_400 + hour * 3_600 + minute * 60 + second,
    ensures
        execution_time_text(now) == year_text(date.0) + "/"@ + two_digits(date.1) + "/"@
            + two_digits(date.2) + " "@ + (two_digits(hour) + ":"@ + two_digits(minute) + ":"@
            + two_digits(second)),
{
    lemma_civil_date(day_number(date), date);
    let of_day = hour * 3_600 + minute * 60 + second;
    lemma_time_of_day(day_number(date), hour, minute, second);
    assert(now.taipei_day() == day_number(date));
    assert(local_second(now.seconds as int, TAIPEI_OFFSET as int) == of_day);
    assert(slashed_date(day_number(date)) == year_text(date.0) + "/"@ + two_digits(date.1) + "/"@
        + two_digits(date.2));
}

/// The parts of a second that is counted from the start of 1970.
proof fn lemma_time_of_day(day: int, hour: int, minute: int, second: int)
    requires
        0 <= hour < 24,
        0 <= minute < 60,
        0 <= second < 60,
    ensures
        ({
            let of_day = hour * 3_600 + minute * 60 + second;
            &&& (day * 86_400 + of_day) / 86_400 == day
            &&& (day * 86_400 + of_day) % 86_400 == of_day
            &&& time_of_day(of_day) == two_digits(hour) + ":"@ + two_digits(minute) + ":"@
                + two_digits(second)
        }),
{
    let of_day = hour * 3_600 + minute * 60 + second;
    assert(of_day / 3_600 == hour);
    assert(of_day / 60 % 60 == minute);
    assert(of_day % 60 == second);
}

/// The point in time before another is written in UTC.
pub proof fn law_the_past_is_told_in_utc(at: Timestamp, seconds: int)
    ensures
        past_rfc3339(at, seconds) == rfc3339_text(at.seconds - seconds, at.nanos as int, 0),
        past_rfc3339(at, 0) == rfc3339_text(at.seconds as int, at.nanos as int, 0),
{
}

/// A history file is out of date once six days lie between its day and today, and a
/// file of postings once it is older than seven days; a file that stands for no day
/// stays.
pub proof fn law_a_week_is_kept(name: Seq<char>, day: int, seconds: int, nanos: int)
    requires
        0 <= nanos < 1_000_000_000,
    ensures
        history_day(name) == Some(day) ==> !is_old_history(name, day) && !is_old_history(
            name,
            day + 6,
        ) && is_old_history(name, day + 7),
        history_day(name) is None ==> forall|today: int| !#[trigger] is_old_history(name, today),
        forall|today: int|
            history_day(name) == Some(day) ==> (#[trigger] is_old_history(name, today) <==> today
                - day > 6),
        is_old_batch(seconds, nanos) <==> seconds * 1_000_000_000 + nanos > 7 * 86_400
            * 1_000_000_000,
{
}

/// A history file stands for the day that its name, without its ending, writes; a file
/// with another ending stands for none.
pub proof fn law_history_files_are_named_by_their_day(stem: Seq<char>, name: Seq<char>)
    ensures
        history_day(stem + ".json"@) == parsed_day(stem),
        !text::ends_with(name, ".json"@) ==> history_day(name) is None,
{
    let full = stem + ".json"@;
    assert(full.subrange(full.len() - ".json"@.len(), full.len() as int) =~= ".json"@);
    assert(full.skip(full.len() - ".json"@.len()) =~= ".json"@);
    assert(full.take(full.len() - ".json"@.len()) =~= stem);
    text::law_stripping_takes_one(full, ".json"@);
    text::law_stripping_takes_one(name, ".json"@);
}

/// The calendar reaches from the first day of the year -262143 to the last day of the
/// year 262142, and a point in time is one of its seconds with less than a second's
/// nanoseconds.
pub proof fn law_the_calendar_has_its_years(seconds: int, at: Timestamp)
    ensures
        is_calendar_second(seconds) <==> day_number((-262_143, 1, 1)) <= seconds / 86_400
            <= day_number((262_142, 12, 31)),
        at.wf() <==> is_calendar_second(at.seconds as int) && at.nanos <= 999_999_999,
        at.has_taipei_date() <==> at.wf() && is_calendar_second(at.seconds + 8 * 3_600),
{
    reveal_with_fuel(days_before_month, 13);
    assert(day_number((-262_143, 1, 1)) == -96_465_292);
    assert(day_number((262_142, 12, 31)) == 95_026_236);
}

} // verus!
