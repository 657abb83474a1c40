//! The calendar pane's month grid: weeks start on Monday, the cursor moves by days and weeks
//! and crosses into the neighbouring months.
use vstd::prelude::*;
use crate::dates::{
    civil_days, date_from_ymd, date_ymd, valid_ymd, weekday, weekday_of, ymd_of, Date, MAX_YEAR,
    MIN_YEAR,
};
use super::state::CalendarState;

verus! {

pub open spec fn prev_month_spec(year: int, month: int) -> (int, int) {
    if month == 1 {
        (year - 1, 12)
    } else {
        (year, month - 1)
    }
}

pub open spec fn next_month_spec(year: int, month: int) -> (int, int) {
    if month == 12 {
        (year + 1, 1)
    } else {
        (year, month + 1)
    }
}

/// The month before.
pub fn prev_month(year: i32, month: u32) -> (r: (i32, u32))
    requires
        month >= 1,
        month == 1 ==> year > i32::MIN,
    ensures
        (r.0 as int, r.1 as int) == prev_month_spec(year as int, month as int),
{
    if month == 1 {
        (year - 1, 12)
    } else {
        (year, month - 1)
    }
}

/// The month after.
pub fn next_month(year: i32, month: u32) -> (r: (i32, u32))
    requires
        month < u32::MAX,
        month == 12 ==> year < i32::MAX,
    ensures
        (r.0 as int, r.1 as int) == next_month_spec(year as int, month as int),
{
    if month == 12 {
        (year + 1, 1)
    } else {
        (year, month + 1)
    }
}

/// A month whose neighbours chrono also represents, with a cursor inside the six-week grid.
pub open spec fn calendar_ok(c: CalendarState) -> bool {
    &&& 1 <= c.month <= 12
    &&& MIN_YEAR + 2 <= c.year <= MAX_YEAR - 2
    &&& c.cursor_row <= 5
    &&& c.cursor_col <= 6
}

/// A month of a year chrono represents, away from the edges of its range.
pub open spec fn month_ok(year: int, month: int) -> bool {
    1 <= month <= 12 && MIN_YEAR + 1 <= year <= MAX_YEAR - 1
}

/// The number of days of a month: the day of the date before the first of the next month.
pub open spec fn month_days(year: int, month: int) -> int {
    let (ny, nm) = next_month_spec(year, month);
    ymd_of(civil_days(ny, nm, 1) - 1).2
}

/// Empty cells before the first of the month (its weekday, Monday = 0).
pub open spec fn month_offset(year: int, month: int) -> int {
    weekday_of(civil_days(year, month, 1))
}

pub proof fn lemma_year_step(y: int)
    ensures
        365 <= crate::dates::days_before_year(y + 1) - crate::dates::days_before_year(y) <= 366,
{
}

pub proof fn lemma_years_apart(a: int, b: int)
    requires
        a <= b,
    ensures
        crate::dates::days_before_year(b) - crate::dates::days_before_year(a) >= 365 * (b - a),
    decreases b - a,
{
    if a < b {
        lemma_years_apart(a, b - 1);
        lemma_year_step(b - 1);
    }
}

/// A year has 366 days when it is a leap year, else 365.
pub proof fn lemma_year_len(y: int)
    ensures
        crate::dates::days_before_year(y + 1) - crate::dates::days_before_year(y) == if crate::dates::is_leap_year(y) {
            366int
        } else {
            365int
        },
{
    assert(((y + 4) / 4 - (y + 3) / 4 == 1) == (y % 4 == 0));
    assert(((y + 100) / 100 - (y + 99) / 100 == 1) == (y % 100 == 0));
    assert(((y + 400) / 400 - (y + 399) / 400 == 1) == (y % 400 == 0));
    assert(0 <= (y + 4) / 4 - (y + 3) / 4 <= 1);
    assert(0 <= (y + 100) / 100 - (y + 99) / 100 <= 1);
    assert(0 <= (y + 400) / 400 - (y + 399) / 400 <= 1);
    if y % 100 == 0 {
        assert(y % 4 == 0);
    }
    if y % 400 == 0 {
        assert(y % 100 == 0);
    }
}

/// The first of the next month follows the last day of this one.
proof fn lemma_month_step(y: int, m: int)
    requires
        1 <= m <= 12,
    ensures
        civil_days(next_month_spec(y, m).0, next_month_spec(y, m).1, 1) == civil_days(y, m, 1) + crate::dates::month_len(y, m),
{
    if m == 12 {
        lemma_year_len(y);
    }
}

/// A month's days come in order, after the earlier months' days.
proof fn lemma_months_in_order(y: int, m1: int, m2: int)
    requires
        1 <= m1 < m2 <= 12,
    ensures
        crate::dates::days_before_month(y, m1) + crate::dates::month_len(y, m1) <= crate::dates::days_before_month(y, m2),
{
}

/// A date of a year falls between the first of that year and the first of the next.
proof fn lemma_within_year(y: int, m: int, d: int)
    requires
        valid_ymd(y, m, d),
    ensures
        crate::dates::days_before_year(y) <= civil_days(y, m, d) + 719528 < crate::dates::days_before_year(y + 1),
{
    lemma_year_len(y);
    if m < 12 {
        lemma_months_in_order(y, m, 12);
    }
}

/// Two dates with one day number are the same date.
pub proof fn lemma_civil_days_unique(a: (int, int, int), b: (int, int, int))
    requires
        valid_ymd(a.0, a.1, a.2),
        valid_ymd(b.0, b.1, b.2),
        civil_days(a.0, a.1, a.2) == civil_days(b.0, b.1, b.2),
    ensures
        a == b,
{
    lemma_within_year(a.0, a.1, a.2);
    lemma_within_year(b.0, b.1, b.2);
    if a.0 < b.0 {
        lemma_years_apart(a.0 + 1, b.0);
    } else if b.0 < a.0 {
        lemma_years_apart(b.0 + 1, a.0);
    } else {
        if a.1 < b.1 {
            lemma_months_in_order(a.0, a.1, b.1);
        } else if b.1 < a.1 {
            lemma_months_in_order(a.0, b.1, a.1);
        }
    }
}

/// A month has as many days as its length, and the next month starts after them.
pub proof fn lemma_month_days(y: int, m: int)
    requires
        MIN_YEAR <= y <= MAX_YEAR - 1,
        1 <= m <= 12,
    ensures
        month_days(y, m) == crate::dates::month_len(y, m),
        28 <= month_days(y, m) <= 31,
        civil_days(next_month_spec(y, m).0, next_month_spec(y, m).1, 1) == civil_days(y, m, 1) + month_days(y, m),
{
    lemma_month_step(y, m);
    let len = crate::dates::month_len(y, m);
    let (ny, nm) = next_month_spec(y, m);
    let x = civil_days(ny, nm, 1) - 1;
    assert(valid_ymd(y, m, len));
    assert(civil_days(y, m, len) == x);
    let w = (y, m, len);
    assert(valid_ymd(w.0, w.1, w.2) && civil_days(w.0, w.1, w.2) == x);
    assert(exists|t: (int, int, int)| valid_ymd(t.0, t.1, t.2) && civil_days(t.0, t.1, t.2) == x);
    let t = ymd_of(x);
    assert(valid_ymd(t.0, t.1, t.2) && civil_days(t.0, t.1, t.2) == x);
    lemma_civil_days_unique(t, (y, m, len));
}

/// The first of a month after chrono's first year comes after chrono's first day.
pub proof fn lemma_first_after_min(y: int, m: int)
    requires
        MIN_YEAR + 1 <= y,
        1 <= m <= 12,
    ensures
        civil_days(y, m, 1) > crate::dates::MIN_DAYS,
{
    lemma_years_apart(MIN_YEAR as int, y);
    assert(civil_days(-262143, 1, 1) == -96465292);
    assert(crate::dates::days_before_month(y, m) >= 0);
}

/// The number of days of a month (`NaiveDate` of the first of the next month, `pred_opt`,
/// `day`).
pub fn days_in_month(year: i32, month: u32) -> (r: u32)
    requires
        month_ok(year as int, month as int),
    ensures
        r == month_days(year as int, month as int),
        1 <= r <= 31,
{
    let (ny, nm) = next_month(year, month);
    let first = match date_from_ymd(ny, nm, 1) {
        Some(d) => d,
        None => {
            proof {
                assert(valid_ymd(ny as int, nm as int, 1));
            }
            return 1;
        },
    };
    proof {
        lemma_first_after_min(ny as int, nm as int);
    }
    let before = Date { days: first.days - 1 };
    let (_y, _m, d) = date_ymd(before);
    d
}

/// Day of the month under a grid cell, or `None` for a cell outside the month.
pub open spec fn day_for_cursor_spec(year: int, month: int, row: int, col: int) -> Option<int> {
    let cell = row * 7 + col;
    let off = month_offset(year, month);
    if cell < off || cell - off + 1 > month_days(year, month) {
        None
    } else {
        Some(cell - off + 1)
    }
}

/// The day of the month under a grid cell (row = week of the month, col = weekday).
pub fn day_for_cursor(year: i32, month: u32, row: u32, col: u32) -> (r: Option<u32>)
    requires
        month_ok(year as int, month as int),
        row <= 5,
        col <= 6,
    ensures
        match r {
            Some(d) => Some(d as int),
            None => None::<int>,
        } == day_for_cursor_spec(year as int, month as int, row as int, col as int),
{
    let first = match date_from_ymd(year, month, 1) {
        Some(d) => d,
        None => {
            proof {
                assert(valid_ymd(year as int, month as int, 1));
            }
            return None;
        },
    };
    let offset = weekday(first);
    let cell = row * 7 + col;
    if cell < offset {
        return None;
    }
    let day = cell - offset + 1;
    if day > days_in_month(year, month) {
        return None;
    }
    Some(day)
}

/// The grid cell of a day of the month.
pub open spec fn cell_of_day(year: int, month: int, day: int) -> int {
    day - 1 + month_offset(year, month)
}

/// Puts the cursor on a day of the shown month.
pub fn set_cursor_to_day(cal: &mut CalendarState, day: u32)
    requires
        month_ok(old(cal).year as int, old(cal).month as int),
        1 <= day <= 31,
    ensures
        final(cal).cursor_row == cell_of_day(old(cal).year as int, old(cal).month as int, day as int) / 7,
        final(cal).cursor_col == cell_of_day(old(cal).year as int, old(cal).month as int, day as int) % 7,
        final(cal).cursor_day == day,
        final(cal).cursor_row <= 5,
        final(cal).cursor_col <= 6,
        final(cal).year == old(cal).year,
        final(cal).month == old(cal).month,
        final(cal).day_tasks == old(cal).day_tasks,
{
    let first = match date_from_ymd(cal.year, cal.month, 1) {
        Some(d) => d,
        None => {
            proof {
                assert(valid_ymd(cal.year as int, cal.month as int, 1));
            }
            return;
        },
    };
    let offset = weekday(first);
    let cell = (day - 1) + offset;
    cal.cursor_row = cell / 7;
    cal.cursor_col = cell % 7;
    cal.cursor_day = day;
}

/// Where `move_cursor` puts the cursor: the year, month and day.
pub open spec fn moved_to(year: int, month: int, row: int, col: int, dcol: int, drow: int) -> (int, int, int) {
    let idx = row * 7 + col - month_offset(year, month);
    let new_idx = idx + dcol + drow * 7;
    let md = month_days(year, month);
    if new_idx < 0 {
        let (py, pm) = prev_month_spec(year, month);
        let t = month_days(py, pm) + new_idx + 1;
        (py, pm, if t < 1 {
            1
        } else {
            t
        })
    } else if new_idx >= md {
        let (ny, nm) = next_month_spec(year, month);
        let t0 = new_idx - md + 1;
        let t1 = if t0 < 1 {
            1
        } else {
            t0
        };
        let nd = month_days(ny, nm);
        (ny, nm, if t1 > nd {
            nd
        } else {
            t1
        })
    } else {
        (year, month, new_idx + 1)
    }
}

/// Moves the calendar cursor by `dcol` days and `drow` weeks, into the previous or next
/// month when it leaves the shown one.
pub fn move_cursor(cal: &mut CalendarState, dcol: i32, drow: i32)
    requires
        calendar_ok(*old(cal)),
        -1 <= dcol <= 1,
        -1 <= drow <= 1,
    ensures
        ({
            let m = moved_to(
                old(cal).year as int,
                old(cal).month as int,
                old(cal).cursor_row as int,
                old(cal).cursor_col as int,
                dcol as int,
                drow as int,
            );
            &&& final(cal).year == m.0
            &&& final(cal).month == m.1
            &&& final(cal).cursor_day == m.2
            &&& final(cal).cursor_row == cell_of_day(m.0, m.1, m.2) / 7
            &&& final(cal).cursor_col == cell_of_day(m.0, m.1, m.2) % 7
        }),
        month_ok(final(cal).year as int, final(cal).month as int),
        final(cal).cursor_row <= 5,
        final(cal).cursor_col <= 6,
        final(cal).day_tasks == old(cal).day_tasks,
{
    let first = match date_from_ymd(cal.year, cal.month, 1) {
        Some(d) => d,
        None => {
            proof {
                assert(valid_ymd(cal.year as int, cal.month as int, 1));
            }
            return;
        },
    };
    let offset = weekday(first) as i32;
    let current_cell = (cal.cursor_row as i32) * 7 + (cal.cursor_col as i32);
    let current_day_idx = current_cell - offset;
    let total_delta = dcol + drow * 7;
    let new_day_idx = current_day_idx + total_delta;
    let month_days = days_in_month(cal.year, cal.month) as i32;
    if new_day_idx < 0 {
        let (prev_year, prev_month) = prev_month(cal.year, cal.month);
        let prev_days = days_in_month(prev_year, prev_month) as i32;
        let t = prev_days + new_day_idx + 1;
        let target_day = if t < 1 {
            1
        } else {
            t
        };
        cal.year = prev_year;
        cal.month = prev_month;
        set_cursor_to_day(cal, target_day as u32);
    } else if new_day_idx >= month_days {
        let (next_year, next_month) = next_month(cal.year, cal.month);
        let t0 = new_day_idx - month_days + 1;
        let t1 = if t0 < 1 {
            1
        } else {
            t0
        };
        let next_days = days_in_month(next_year, next_month) as i32;
        let target_day = if t1 > next_days {
            next_days
        } else {
            t1
        };
        cal.year = next_year;
        cal.month = next_month;
        set_cursor_to_day(cal, target_day as u32);
    } else {
        let target_day = new_day_idx + 1;
        set_cursor_to_day(cal, target_day as u32);
    }
}

/// Moving the cursor from a day of the shown month by `dcol` days and `drow` weeks lands on
/// the date exactly `dcol + 7 * drow` days later, in this month or the one before or after.
pub proof fn law_cursor_moves_by_days(year: int, month: int, row: int, col: int, dcol: int, drow: int)
    requires
        MIN_YEAR + 2 <= year <= MAX_YEAR - 2,
        1 <= month <= 12,
        0 <= row <= 5,
        0 <= col <= 6,
        -1 <= dcol <= 1,
        -1 <= drow <= 1,
        day_for_cursor_spec(year, month, row, col) is Some,
    ensures
        ({
            let m = moved_to(year, month, row, col, dcol, drow);
            &&& valid_ymd(m.0, m.1, m.2)
            &&& civil_days(m.0, m.1, m.2) == civil_days(year, month, day_for_cursor_spec(year, month, row, col)->0)
                + dcol + 7 * drow
        }),
{
    let cd = day_for_cursor_spec(year, month, row, col)->0;
    let (py, pm) = prev_month_spec(year, month);
    let (ny, nm) = next_month_spec(year, month);
    lemma_month_days(year, month);
    lemma_month_days(py, pm);
    lemma_month_days(ny, nm);
    assert(next_month_spec(py, pm) == (year, month));
}

} // verus!
