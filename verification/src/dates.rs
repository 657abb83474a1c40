//! Calendar dates and timestamps.
//!
//! A `Date` is a day of the proleptic Gregorian calendar, counted in days
//! from 1970-01-01. A timestamp is an `i128` count of nanoseconds since
//! 1970-01-01T00:00:00 UTC. Conversions between day numbers and
//! year/month/day triples, month arithmetic and date text go through chrono.
use vstd::prelude::*;
use vstd::arithmetic::div_mod::*;
use crate::text::nat_text;
use chrono::{Datelike, Months, NaiveDate};

verus! {

/// Nanoseconds in one day.
pub const NANOS_PER_DAY: i128 = 86_400_000_000_000;

/// Smallest year chrono represents.
pub const MIN_YEAR: i32 = -262143;

/// Largest year chrono represents.
pub const MAX_YEAR: i32 = 262142;

/// Day number of -262143-01-01, the first date chrono represents.
pub const MIN_DAYS: i32 = -96465292;

/// Day number of +262142-12-31, the last date chrono represents.
pub const MAX_DAYS: i32 = 95026236;

/// A calendar date: days since 1970-01-01.
#[derive(Clone, Copy, PartialEq, Eq, Structural, Debug)]
pub struct Date {
    pub days: i32,
}

pub open spec fn is_leap_year(y: int) -> bool {
    (y % 4 == 0 && y % 100 != 0) || y % 400 == 0
}

/// Number of days in month `m` (1-12) of year `y`.
pub open spec fn month_len(y: int, m: int) -> int {
    if m == 2 {
        if is_leap_year(y) {
            29
        } else {
            28
        }
    } else if m == 4 || m == 6 || m == 9 || m == 11 {
        30
    } else {
        31
    }
}

/// Days from 0000-01-01 to `y`-01-01 (negative for earlier years).
pub open spec fn days_before_year(y: int) -> int {
    365 * y + (y + 3) / 4 - (y + 99) / 100 + (y + 399) / 400
}

/// Days from the first of January to the first of month `m` in year `y`.
pub open spec fn days_before_month(y: int, m: int) -> int {
    let base: int = if m <= 1 {
        0
    } else if m == 2 {
        31
    } else if m == 3 {
        59
    } else if m == 4 {
        90
    } else if m == 5 {
        120
    } else if m == 6 {
        151
    } else if m == 7 {
        181
    } else if m == 8 {
        212
    } else if m == 9 {
        243
    } else if m == 10 {
        273
    } else if m == 11 {
        304
    } else {
        334
    };
    if m > 2 && is_leap_year(y) {
        base + 1
    } else {
        base
    }
}

/// Day number (days since 1970-01-01) of the date `y`-`m`-`d`.
pub open spec fn civil_days(y: int, m: int, d: int) -> int {
    days_before_year(y) + days_before_month(y, m) + d - 1 - 719528
}

/// `y`-`m`-`d` is a date that chrono represents.
pub open spec fn valid_ymd(y: int, m: int, d: int) -> bool {
    &&& MIN_YEAR <= y <= MAX_YEAR
    &&& 1 <= m <= 12
    &&& 1 <= d <= month_len(y, m)
}

pub open spec fn days_in_range(days: int) -> bool {
    MIN_DAYS <= days <= MAX_DAYS
}

/// The year, month and day of a day number.
pub open spec fn ymd_of(days: int) -> (int, int, int) {
    choose|t: (int, int, int)| valid_ymd(t.0, t.1, t.2) && civil_days(t.0, t.1, t.2) == days
}

/// Day of the week, Monday = 0 ... Sunday = 6 (1970-01-01 was a Thursday).
pub open spec fn weekday_of(days: int) -> int {
    (days + 3) % 7
}

/// The date `n` months after `y`-`m`-`d`, on the same day of the month or,
/// where that month is shorter, on its last day; `None` out of chrono's range.
pub open spec fn add_months_ymd(y: int, m: int, d: int, n: int) -> Option<int> {
    let t = y * 12 + (m - 1) + n;
    let y2 = t / 12;
    let m2 = t % 12 + 1;
    let d2 = if d <= month_len(y2, m2) {
        d
    } else {
        month_len(y2, m2)
    };
    if MIN_YEAR <= y2 <= MAX_YEAR {
        Some(civil_days(y2, m2, d2))
    } else {
        None
    }
}

/// Two decimal digits, zero-padded.
pub open spec fn pad2(n: int) -> Seq<char> {
    if n < 10 {
        seq!['0'] + nat_text(n as nat)
    } else {
        nat_text(n as nat)
    }
}

/// At least four decimal digits, zero-padded.
pub open spec fn pad4(n: nat) -> Seq<char> {
    if n < 10 {
        seq!['0', '0', '0'] + nat_text(n)
    } else if n < 100 {
        seq!['0', '0'] + nat_text(n)
    } else if n < 1000 {
        seq!['0'] + nat_text(n)
    } else {
        nat_text(n)
    }
}

/// chrono's `%Y`: four digits, with a sign outside 0..=9999.
pub open spec fn year_text(y: int) -> Seq<char> {
    if 0 <= y <= 9999 {
        pad4(y as nat)
    } else if y > 9999 {
        seq!['+'] + pad4(y as nat)
    } else {
        seq!['-'] + pad4((-y) as nat)
    }
}

/// A date as chrono's `%Y-%m-%d` writes it.
pub open spec fn date_text(days: int) -> Seq<char> {
    let t = ymd_of(days);
    year_text(t.0) + seq!['-'] + pad2(t.1) + seq!['-'] + pad2(t.2)
}

/// Dates as `NaiveDate::parse_from_str` reads them with a given format, as day numbers.
pub uninterp spec fn parsed_date(s: Seq<char>, fmt: Seq<char>) -> Option<int>;

/// `NaiveDate::from_ymd_opt`: the date `y`-`m`-`d` if it exists in chrono's range.
#[verifier::external_body]
pub(crate) fn date_from_ymd(y: i32, m: u32, d: u32) -> (r: Option<Date>)
    ensures
        if valid_ymd(y as int, m as int, d as int) {
            r matches Some(v) && v.days == civil_days(y as int, m as int, d as int) && days_in_range(
                v.days as int,
            )
        } else {
            r is None
        },
{
    match NaiveDate::from_ymd_opt(y, m, d) {
        Some(nd) => Some(Date { days: nd.to_epoch_days() }),
        None => None,
    }
}

/// `NaiveDate::year`, `month` and `day` of a date.
#[verifier::external_body]
pub(crate) fn date_ymd(d: Date) -> (r: (i32, u32, u32))
    requires
        days_in_range(d.days as int),
    ensures
        valid_ymd(r.0 as int, r.1 as int, r.2 as int),
        civil_days(r.0 as int, r.1 as int, r.2 as int) == d.days,
        (r.0 as int, r.1 as int, r.2 as int) == ymd_of(d.days as int),
{
    let nd = NaiveDate::from_epoch_days(d.days).unwrap();
    (nd.year(), nd.month(), nd.day())
}

/// `NaiveDate::checked_add_months`.
#[verifier::external_body]
pub(crate) fn date_add_months(d: Date, n: u32) -> (r: Option<Date>)
    requires
        days_in_range(d.days as int),
    ensures
        match add_months_ymd(
            ymd_of(d.days as int).0,
            ymd_of(d.days as int).1,
            ymd_of(d.days as int).2,
            n as int,
        ) {
            Some(x) => r matches Some(v) && v.days == x && days_in_range(x),
            None => r is None,
        },
{
    let nd = NaiveDate::from_epoch_days(d.days).unwrap();
    match nd.checked_add_months(Months::new(n)) {
        Some(x) => Some(Date { days: x.to_epoch_days() }),
        None => None,
    }
}

/// `NaiveDate::format("%Y-%m-%d")`.
#[verifier::external_body]
pub(crate) fn format_date(d: Date) -> (s: String)
    requires
        days_in_range(d.days as int),
    ensures
        s@ == date_text(d.days as int),
{
    NaiveDate::from_epoch_days(d.days).unwrap().format("%Y-%m-%d").to_string()
}

/// `NaiveDate::parse_from_str(s, fmt)`.
/// The contract names the result and says nothing more of it.
#[verifier::external_body]
pub(crate) fn parse_date_format(s: &str, fmt: &str) -> (r: Option<Date>)
    ensures
        match r {
            Some(d) => parsed_date(s@, fmt@) == Some(d.days as int) && days_in_range(d.days as int),
            None => parsed_date(s@, fmt@) is None,
        },
{
    match NaiveDate::parse_from_str(s, fmt) {
        Ok(nd) => Some(Date { days: nd.to_epoch_days() }),
        Err(_) => None,
    }
}

/// The day of the week, Monday = 0 ... Sunday = 6.
pub fn weekday(d: Date) -> (w: u32)
    ensures
        w == weekday_of(d.days as int),
        w < 7,
{
    let x: i64 = d.days as i64 + 3;
    if x >= 0 {
        (x % 7) as u32
    } else {
        let a: i64 = -x;
        let r: i64 = a % 7;
        proof {
            lemma_fundamental_div_mod(a as int, 7);
            let q = a as int / 7;
            assert(x == (-q - 1) * 7 + (7 - r)) by (nonlinear_arith)
                requires
                    a == q * 7 + r,
                    x == -a,
            ;
            if r == 0 {
                assert(x == (-q) * 7 + 0) by (nonlinear_arith)
                    requires
                        a == q * 7 + r,
                        x == -a,
                        r == 0,
                ;
                lemma_fundamental_div_mod_converse_mod(x as int, 7, -q, 0);
            } else {
                lemma_fundamental_div_mod_converse_mod(x as int, 7, -q - 1, 7 - r);
            }
        }
        if r == 0 {
            0
        } else {
            (7 - r) as u32
        }
    }
}

/// The UTC day (floor of `ts / NANOS_PER_DAY`) of a timestamp.
pub fn day_of(ts: i128) -> (d: i128)
    ensures
        d == (ts as int) / (NANOS_PER_DAY as int),
        d * NANOS_PER_DAY <= ts < d * NANOS_PER_DAY + NANOS_PER_DAY,
{
    let dd: u128 = 86_400_000_000_000;
    if ts >= 0 {
        let q: u128 = (ts as u128) / dd;
        proof {
            lemma_fundamental_div_mod(ts as int, NANOS_PER_DAY as int);
            lemma_div_pos_is_pos(ts as int, NANOS_PER_DAY as int);
        }
        q as i128
    } else {
        let a: u128 = (-(ts + 1)) as u128;
        let q: u128 = a / dd;
        let ghost r = a as int % (NANOS_PER_DAY as int);
        proof {
            lemma_fundamental_div_mod(a as int, NANOS_PER_DAY as int);
            assert(ts == (-(q as int) - 1) * NANOS_PER_DAY + (NANOS_PER_DAY - r - 1)) by (
            nonlinear_arith)
                requires
                    a == q * NANOS_PER_DAY + r,
                    ts == -(a + 1),
            ;
            lemma_fundamental_div_mod_converse_div(
                ts as int,
                NANOS_PER_DAY as int,
                -(q as int) - 1,
                NANOS_PER_DAY - r - 1,
            );
            assert(q * NANOS_PER_DAY <= a) by (nonlinear_arith)
                requires
                    a == q * NANOS_PER_DAY + r,
                    r >= 0,
            ;
        }
        -(q as i128) - 1
    }
}

/// The timestamp of midnight UTC at the start of a date
/// (`and_hms_opt(0, 0, 0)` then `and_utc()`).
pub open spec fn midnight_spec(d: Date) -> int {
    d.days * NANOS_PER_DAY
}

pub fn midnight(d: Date) -> (ts: i128)
    ensures
        ts == midnight_spec(d),
{
    assert(-0x8000_0000i64 * NANOS_PER_DAY <= d.days * NANOS_PER_DAY <= 0x8000_0000i64
        * NANOS_PER_DAY) by (nonlinear_arith)
        requires
            -0x8000_0000 <= d.days <= 0x7fff_ffff,
    ;
    d.days as i128 * NANOS_PER_DAY
}

/// The day SQLite's `DATE()` gives for a stored timestamp: its UTC date,
/// or nothing for years outside 0000..=9999.
pub open spec fn sql_day(ts: int) -> Option<int> {
    let d = ts / (NANOS_PER_DAY as int);
    if -719528 <= d <= 2932896 {
        Some(d)
    } else {
        None
    }
}

pub fn sql_day_of(ts: i128) -> (r: Option<i128>)
    ensures
        r == (match sql_day(ts as int) {
            Some(d) => Some(d as i128),
            None => None::<i128>,
        }),
{
    let d = day_of(ts);
    if -719528 <= d && d <= 2932896 {
        Some(d)
    } else {
        None
    }
}

} // verus!
