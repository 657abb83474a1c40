//! Reading a due date the way people type one: `2026-07-01`, `today`, `+3`, `+2w`, `fri`,
//! `12-25`, `25`.
use vstd::prelude::*;
use crate::dates::{
    add_months_ymd, civil_days, date_add_months, date_from_ymd, date_ymd, days_in_range,
    parse_date_format, parsed_date, valid_ymd, weekday, weekday_of, ymd_of, Date, MAX_DAYS,
};
use crate::text::{
    all_digits, chars_of, digits_value, lowercase, parse_unsigned, parse_unsigned_spec, string_of,
    text_eq, to_lowercase, to_owned_string, trim, trim_spec,
};

verus! {

pub open spec fn empty_input_msg() -> Seq<char> {
    "Empty input"@
}

pub open spec fn invalid_date_msg() -> Seq<char> {
    "Invalid date format. Use YYYY-MM-DD, today, tomorrow, +N, +Nw, weekday, MM-DD, or DD"@
}

/// `s` without its leading `+` signs.
pub open spec fn strip_pluses(s: Seq<char>) -> Seq<char>
    decreases s.len(),
{
    if s.len() > 0 && s[0] == '+' {
        strip_pluses(s.drop_first())
    } else {
        s
    }
}

/// `n` days after `today`; `None` where chrono's `+ Days` panics (out of its range).
pub open spec fn plus_days(today: int, n: int) -> Option<Result<int, Seq<char>>> {
    if days_in_range(today + n) {
        Some(Ok(today + n))
    } else {
        None
    }
}

/// The weekday a name stands for, Monday = 0.
pub open spec fn weekday_named(s: Seq<char>) -> Option<int> {
    if s == "mon"@ || s == "monday"@ {
        Some(0)
    } else if s == "tue"@ || s == "tuesday"@ {
        Some(1)
    } else if s == "wed"@ || s == "wednesday"@ {
        Some(2)
    } else if s == "thu"@ || s == "thursday"@ {
        Some(3)
    } else if s == "fri"@ || s == "friday"@ {
        Some(4)
    } else if s == "sat"@ || s == "saturday"@ {
        Some(5)
    } else if s == "sun"@ || s == "sunday"@ {
        Some(6)
    } else {
        None
    }
}

/// Stepping forward to the next day with weekday `wd` takes 1 to 7 days and lands on it.
proof fn lemma_next_weekday(today: int, wd: int)
    requires
        0 <= wd <= 6,
    ensures
        1 <= (wd - weekday_of(today) + 6) % 7 + 1 <= 7,
        weekday_of(today + (wd - weekday_of(today) + 6) % 7 + 1) == wd,
{
    let w = weekday_of(today);
    assert(0 <= w < 7);
    let k = (wd - w + 6) % 7 + 1;
    assert(w == (today + 3) % 7);
    assert((today + k + 3) % 7 == wd) by (nonlinear_arith)
        requires
            0 <= wd <= 6,
            0 <= w < 7,
            w == (today + 3) % 7,
            k == (wd - w + 6) % 7 + 1,
    ;
}

/// A weekday name gives the first day strictly after today with that weekday: one to
/// seven days later, on Monday for `mon`/`monday` through Sunday for `sun`/`sunday`.
pub proof fn law_weekday_names(s: Seq<char>, today: int)
    requires
        s == "mon"@ || s == "monday"@ || s == "tue"@ || s == "tuesday"@ || s == "wed"@ || s == "wednesday"@
            || s == "thu"@ || s == "thursday"@ || s == "fri"@ || s == "friday"@ || s == "sat"@ || s == "saturday"@
            || s == "sun"@ || s == "sunday"@,
        days_in_range(today),
        days_in_range(today + 7),
    ensures
        due_date_result(s, today, None, None) matches Some(Ok(d)) && {
            &&& today < d <= today + 7
            &&& (s == "mon"@ || s == "monday"@) ==> weekday_of(d) == 0
            &&& (s == "tue"@ || s == "tuesday"@) ==> weekday_of(d) == 1
            &&& (s == "wed"@ || s == "wednesday"@) ==> weekday_of(d) == 2
            &&& (s == "thu"@ || s == "thursday"@) ==> weekday_of(d) == 3
            &&& (s == "fri"@ || s == "friday"@) ==> weekday_of(d) == 4
            &&& (s == "sat"@ || s == "saturday"@) ==> weekday_of(d) == 5
            &&& (s == "sun"@ || s == "sunday"@) ==> weekday_of(d) == 6
        },
{
    reveal_strlit("mon");
    reveal_strlit("monday");
    reveal_strlit("tue");
    reveal_strlit("tuesday");
    reveal_strlit("wed");
    reveal_strlit("wednesday");
    reveal_strlit("thu");
    reveal_strlit("thursday");
    reveal_strlit("fri");
    reveal_strlit("friday");
    reveal_strlit("sat");
    reveal_strlit("saturday");
    reveal_strlit("sun");
    reveal_strlit("sunday");
    reveal_strlit("today");
    reveal_strlit("tod");
    reveal_strlit("t");
    reveal_strlit("tomorrow");
    reveal_strlit("tom");
    reveal_strlit("tm");
    assert(s.len() > 0);
    assert(s[0] != '+');
    let wd = weekday_named(s)->0;
    assert(weekday_named(s) is Some);
    lemma_next_weekday(today, wd);
}

/// The two sides of `s` around `c`, where `c` occurs exactly once.
pub open spec fn two_parts(s: Seq<char>, c: char) -> Option<(Seq<char>, Seq<char>)> {
    if exists|i: int| 0 <= i < s.len() && s[i] == c && forall|j: int| 0 <= j < s.len() && s[j] == c ==> j == i {
        let i = choose|i: int| 0 <= i < s.len() && s[i] == c && forall|j: int| 0 <= j < s.len() && s[j] == c ==> j == i;
        Some((s.take(i), s.skip(i + 1)))
    } else {
        None
    }
}

/// `+N`, `+Nd`, `+Nw`, `+Nm` (after the `+` signs): `Some` of the outcome, or `None` when
/// the text is none of these and the later forms are tried.
pub open spec fn due_relative(suffix: Seq<char>, today: int) -> Option<Option<Result<int, Seq<char>>>> {
    if suffix.len() > 0 && suffix.last() == 'w' {
        match parse_unsigned_spec(suffix.drop_last(), u64::MAX as nat) {
            Some(n) => Some(
                if n * 7 > u64::MAX {
                    None
                } else {
                    plus_days(today, (n * 7) as int)
                },
            ),
            None => None,
        }
    } else if suffix.len() > 0 && suffix.last() == 'm' {
        match parse_unsigned_spec(suffix.drop_last(), u32::MAX as nat) {
            Some(n) => {
                let t = ymd_of(today);
                match add_months_ymd(t.0, t.1, t.2, n as int) {
                    Some(d) => Some(Some(Ok(d))),
                    None => None,
                }
            },
            None => None,
        }
    } else if suffix.len() > 0 && suffix.last() == 'd' {
        match parse_unsigned_spec(suffix.drop_last(), u64::MAX as nat) {
            Some(n) => Some(plus_days(today, n as int)),
            None => None,
        }
    } else {
        match parse_unsigned_spec(suffix, u64::MAX as nat) {
            Some(n) => Some(plus_days(today, n as int)),
            None => None,
        }
    }
}

/// A month and day `MM-DD` or `MM/DD` in the current year.
pub open spec fn month_day(s: Seq<char>, today: int) -> Option<int> {
    let parts = if s.contains('-') {
        two_parts(s, '-')
    } else if s.contains('/') {
        two_parts(s, '/')
    } else {
        None
    };
    let y = ymd_of(today).0;
    match parts {
        Some((a, b)) => match (parse_unsigned_spec(a, u32::MAX as nat), parse_unsigned_spec(b, u32::MAX as nat)) {
            (Some(m), Some(d)) => if valid_ymd(y, m as int, d as int) {
                Some(civil_days(y, m as int, d as int))
            } else {
                None
            },
            _ => None,
        },
        None => None,
    }
}

/// A day of the month: this month if it is not before today, else next month.
pub open spec fn day_of_month(s: Seq<char>, today: int) -> Option<int> {
    let t = ymd_of(today);
    match parse_unsigned_spec(s, u32::MAX as nat) {
        Some(d) => {
            let (y, m) = if d >= t.2 {
                (t.0, t.1)
            } else if t.1 + 1 > 12 {
                (t.0 + 1, 1)
            } else {
                (t.0, t.1 + 1)
            };
            if valid_ymd(y, m, d as int) {
                Some(civil_days(y, m, d as int))
            } else {
                None
            }
        },
        None => None,
    }
}

/// The forms after the relative offsets: a weekday (strictly after today), `MM-DD`, `DD`.
pub open spec fn due_from_calendar(s: Seq<char>, today: int) -> Option<Result<int, Seq<char>>> {
    match weekday_named(s) {
        Some(wd) => plus_days(today, (wd - weekday_of(today) + 6) % 7 + 1),
        None => match month_day(s, today) {
            Some(d) => Some(Ok(d)),
            None => match day_of_month(s, today) {
                Some(d) => Some(Ok(d)),
                None => Some(Err(invalid_date_msg())),
            },
        },
    }
}

/// What a normalized (trimmed, lower-case) text `s` reads as, given what chrono's
/// `parse_from_str` made of it with `%Y-%m-%d` (`iso`) and `%Y/%m/%d` (`slashed`): a day
/// number or an error message. `None` where chrono panics (a date beyond its range).
pub open spec fn due_date_result(s: Seq<char>, today: int, iso: Option<int>, slashed: Option<int>) -> Option<Result<int, Seq<char>>> {
    if s.len() == 0 {
        Some(Err(empty_input_msg()))
    } else if iso is Some {
        Some(Ok(iso->0))
    } else if slashed is Some {
        Some(Ok(slashed->0))
    } else if s == "today"@ || s == "tod"@ || s == "t"@ {
        Some(Ok(today))
    } else if s == "tomorrow"@ || s == "tom"@ || s == "tm"@ {
        plus_days(today, 1)
    } else if s[0] == '+' && due_relative(strip_pluses(s), today) is Some {
        due_relative(strip_pluses(s), today)->0
    } else {
        due_from_calendar(s, today)
    }
}

/// The text `parse_due_date` works on: trimmed, then lower-cased.
pub open spec fn normalized(input: Seq<char>) -> Seq<char> {
    lowercase(trim_spec(input))
}

/// What `parse_due_date` gives for an input.
pub open spec fn parse_due_date_spec(input: Seq<char>, today: int) -> Option<Result<int, Seq<char>>> {
    let s = normalized(input);
    due_date_result(s, today, parsed_date(s, "%Y-%m-%d"@), parsed_date(s, "%Y/%m/%d"@))
}

pub open spec fn opt_day(d: Option<Date>) -> Option<int> {
    match d {
        Some(x) => Some(x.days as int),
        None => None,
    }
}

pub open spec fn date_result(r: Result<Date, String>) -> Result<int, Seq<char>> {
    match r {
        Ok(d) => Ok(d.days as int),
        Err(m) => Err(m@),
    }
}

fn plus_days_exec(today: Date, n: u64) -> (r: Option<Result<Date, String>>)
    requires
        days_in_range(today.days as int),
    ensures
        match r {
            Some(x) => Some(date_result(x)),
            None => None::<Result<int, Seq<char>>>,
        } == plus_days(today.days as int, n as int),
        r matches Some(Ok(d)) ==> days_in_range(d.days as int),
{
    let room: i64 = MAX_DAYS as i64 - today.days as i64;
    if n > room as u64 {
        None
    } else {
        Some(Ok(Date { days: (today.days as i64 + n as i64) as i32 }))
    }
}

fn strip_pluses_exec(v: &Vec<char>) -> (r: usize)
    ensures
        r <= v@.len(),
        v@.skip(r as int) == strip_pluses(v@),
{
    let mut i: usize = 0;
    proof {
        assert(v@.skip(0) =~= v@);
    }
    while i < v.len() && v[i] == '+'
        invariant
            i <= v@.len(),
            strip_pluses(v@.skip(i as int)) == strip_pluses(v@),
        decreases v@.len() - i,
    {
        proof {
            assert(v@.skip(i as int).drop_first() =~= v@.skip(i + 1));
        }
        i = i + 1;
    }
    proof {
        if i < v@.len() {
            assert(v@.skip(i as int)[0] == v@[i as int]);
        }
    }
    i
}

fn weekday_named_exec(s: &str) -> (r: Option<u32>)
    ensures
        match r {
            Some(w) => Some(w as int),
            None => None::<int>,
        } == weekday_named(s@),
{
    if text_eq(s, "mon") || text_eq(s, "monday") {
        Some(0)
    } else if text_eq(s, "tue") || text_eq(s, "tuesday") {
        Some(1)
    } else if text_eq(s, "wed") || text_eq(s, "wednesday") {
        Some(2)
    } else if text_eq(s, "thu") || text_eq(s, "thursday") {
        Some(3)
    } else if text_eq(s, "fri") || text_eq(s, "friday") {
        Some(4)
    } else if text_eq(s, "sat") || text_eq(s, "saturday") {
        Some(5)
    } else if text_eq(s, "sun") || text_eq(s, "sunday") {
        Some(6)
    } else {
        None
    }
}

fn contains_char(v: &Vec<char>, c: char) -> (r: bool)
    ensures
        r == v@.contains(c),
{
    let mut i: usize = 0;
    while i < v.len()
        invariant
            i <= v@.len(),
            forall|j: int| 0 <= j < i ==> v@[j] != c,
        decreases v@.len() - i,
    {
        if v[i] == c {
            assert(v@[i as int] == c);
            return true;
        }
        i = i + 1;
    }
    false
}

pub(crate) fn two_parts_exec(v: &Vec<char>, c: char) -> (r: Option<(String, String)>)
    ensures
        match r {
            Some((a, b)) => Some((a@, b@)),
            None => None::<(Seq<char>, Seq<char>)>,
        } == two_parts(v@, c),
{
    let mut count: usize = 0;
    let mut at: usize = 0;
    let mut i: usize = 0;
    while i < v.len()
        invariant
            i <= v@.len(),
            count <= i,
            count == 0 ==> forall|j: int| 0 <= j < i ==> v@[j] != c,
            count == 1 ==> at < i && v@[at as int] == c && forall|j: int| 0 <= j < i && v@[j] == c ==> j == at,
            count >= 2 ==> at < i && v@[at as int] == c && exists|j: int| 0 <= j < i && j != at && v@[j] == c,
        decreases v@.len() - i,
    {
        if v[i] == c {
            if count == 0 {
                at = i;
            } else {
                assert(v@[i as int] == c && i != at);
            }
            count = count + 1;
        }
        i = i + 1;
    }
    if count == 1 {
        proof {
            let s = v@;
            assert(0 <= at < s.len() && s[at as int] == c && forall|j: int| 0 <= j < s.len() && s[j] == c ==> j == at);
            let k = choose|i: int| 0 <= i < s.len() && s[i] == c && forall|j: int| 0 <= j < s.len() && s[j] == c ==> j == i;
            assert(k == at);
        }
        Some((string_of(v, 0, at), string_of(v, at + 1, v.len())))
    } else {
        proof {
            if count >= 2 {
                let j = choose|j: int| 0 <= j < v@.len() && j != at && v@[j] == c;
                assert forall|k: int| !(0 <= k < v@.len() && v@[k] == c && forall|m: int| 0 <= m < v@.len() && v@[m] == c ==> m == k) by {
                    if 0 <= k < v@.len() && v@[k] == c {
                        if k == at {
                            assert(v@[j] == c && j != k);
                        } else {
                            assert(v@[at as int] == c && at != k);
                        }
                    }
                }
            }
        }
        None
    }
}

/// `+N`, `+Nd`, `+Nw`, `+Nm` over the text after the `+` signs.
fn due_relative_exec(v: &Vec<char>, from: usize, today: Date) -> (r: Option<Option<Result<Date, String>>>)
    requires
        from <= v@.len(),
        days_in_range(today.days as int),
    ensures
        match r {
            Some(Some(x)) => Some(Some(date_result(x))),
            Some(None) => Some(None::<Result<int, Seq<char>>>),
            None => None,
        } == due_relative(v@.skip(from as int), today.days as int),
        r matches Some(Some(Ok(d))) ==> days_in_range(d.days as int),
{
    let ghost suffix = v@.skip(from as int);
    let n = v.len();
    if n > from && (v[n - 1] == 'w' || v[n - 1] == 'm' || v[n - 1] == 'd') {
        let last = v[n - 1];
        let body = string_of(v, from, n - 1);
        proof {
            assert(suffix.last() == last);
            assert(body@ =~= suffix.drop_last());
        }
        if last == 'w' {
            match parse_unsigned(body.as_str(), u64::MAX) {
                Some(k) => {
                    if k > u64::MAX / 7 {
                        Some(None)
                    } else {
                        Some(plus_days_exec(today, k * 7))
                    }
                },
                None => None,
            }
        } else if last == 'm' {
            match parse_unsigned(body.as_str(), 0xffff_ffff) {
                Some(k) => {
                    match date_add_months(today, k as u32) {
                        Some(d) => Some(Some(Ok(d))),
                        None => None,
                    }
                },
                None => None,
            }
        } else {
            match parse_unsigned(body.as_str(), u64::MAX) {
                Some(k) => Some(plus_days_exec(today, k)),
                None => None,
            }
        }
    } else {
        let body = string_of(v, from, n);
        proof {
            assert(body@ =~= suffix);
        }
        match parse_unsigned(body.as_str(), u64::MAX) {
            Some(k) => Some(plus_days_exec(today, k)),
            None => None,
        }
    }
}

fn month_day_exec(s: &str, today: Date) -> (r: Option<Date>)
    requires
        days_in_range(today.days as int),
    ensures
        opt_day(r) == month_day(s@, today.days as int),
        r matches Some(d) ==> days_in_range(d.days as int),
{
    let v = chars_of(s);
    let parts = if contains_char(&v, '-') {
        two_parts_exec(&v, '-')
    } else if contains_char(&v, '/') {
        two_parts_exec(&v, '/')
    } else {
        None
    };
    let (y, _m, _d) = date_ymd(today);
    match parts {
        Some((a, b)) => match (parse_unsigned(a.as_str(), 0xffff_ffff), parse_unsigned(b.as_str(), 0xffff_ffff)) {
            (Some(m), Some(d)) => date_from_ymd(y, m as u32, d as u32),
            _ => None,
        },
        None => None,
    }
}

fn day_of_month_exec(s: &str, today: Date) -> (r: Option<Date>)
    requires
        days_in_range(today.days as int),
    ensures
        opt_day(r) == day_of_month(s@, today.days as int),
        r matches Some(d) ==> days_in_range(d.days as int),
{
    let (y, m, day) = date_ymd(today);
    match parse_unsigned(s, 0xffff_ffff) {
        Some(d) => {
            let d = d as u32;
            if d >= day {
                date_from_ymd(y, m, d)
            } else if m + 1 > 12 {
                date_from_ymd(y + 1, 1, d)
            } else {
                date_from_ymd(y, m + 1, d)
            }
        },
        None => None,
    }
}

/// What a normalized text reads as, given chrono's readings of it as `%Y-%m-%d` and
/// `%Y/%m/%d`; `None` where chrono would panic.
#[verifier::rlimit(40)]
pub fn due_date_from(s: &str, today: Date, iso: Option<Date>, slashed: Option<Date>) -> (r: Option<Result<Date, String>>)
    requires
        days_in_range(today.days as int),
        iso matches Some(d) ==> days_in_range(d.days as int),
        slashed matches Some(d) ==> days_in_range(d.days as int),
    ensures
        r matches Some(Ok(d)) ==> days_in_range(d.days as int),
        match r {
            Some(x) => Some(date_result(x)),
            None => None::<Result<int, Seq<char>>>,
        } == due_date_result(s@, today.days as int, opt_day(iso), opt_day(slashed)),
{
    let v = chars_of(s);
    if v.len() == 0 {
        return Some(Err(to_owned_string("Empty input")));
    }
    if let Some(d) = iso {
        return Some(Ok(d));
    }
    if let Some(d) = slashed {
        return Some(Ok(d));
    }
    if text_eq(s, "today") || text_eq(s, "tod") || text_eq(s, "t") {
        return Some(Ok(today));
    }
    if text_eq(s, "tomorrow") || text_eq(s, "tom") || text_eq(s, "tm") {
        return plus_days_exec(today, 1);
    }
    if v[0] == '+' {
        let from = strip_pluses_exec(&v);
        if let Some(r) = due_relative_exec(&v, from, today) {
            return r;
        }
    }
    if let Some(wd) = weekday_named_exec(s) {
        let tw = weekday(today);
        let k: u64 = ((wd + 6 - tw) % 7 + 1) as u64;
        proof {
            assert(((wd + 6 - tw) % 7 + 1) as int == (wd - weekday_of(today.days as int) + 6) % 7 + 1) by (nonlinear_arith)
                requires
                    tw == weekday_of(today.days as int),
                    0 <= wd < 7,
                    0 <= tw < 7,
            ;
        }
        return plus_days_exec(today, k);
    }
    if let Some(d) = month_day_exec(s, today) {
        return Some(Ok(d));
    }
    if let Some(d) = day_of_month_exec(s, today) {
        return Some(Ok(d));
    }
    Some(Err(to_owned_string("Invalid date format. Use YYYY-MM-DD, today, tomorrow, +N, +Nw, weekday, MM-DD, or DD")))
}

/// The normalized text and chrono's two readings of it.
fn readings(input: &str) -> (r: (String, Option<Date>, Option<Date>))
    ensures
        r.0@ == normalized(input@),
        opt_day(r.1) == parsed_date(normalized(input@), "%Y-%m-%d"@),
        opt_day(r.2) == parsed_date(normalized(input@), "%Y/%m/%d"@),
        r.1 matches Some(d) ==> days_in_range(d.days as int),
        r.2 matches Some(d) ==> days_in_range(d.days as int),
{
    let t = trim(input);
    let s = to_lowercase(t.as_str());
    let iso = parse_date_format(s.as_str(), "%Y-%m-%d");
    let slashed = parse_date_format(s.as_str(), "%Y/%m/%d");
    proof {
        assert(opt_day(iso) == parsed_date(s@, "%Y-%m-%d"@));
        assert(opt_day(slashed) == parsed_date(s@, "%Y/%m/%d"@));
    }
    (s, iso, slashed)
}

/// Reads a due date relative to `today`.
pub fn parse_due_date(input: &str, today: Date) -> (r: Result<Date, String>)
    requires
        days_in_range(today.days as int),
        parse_due_date_spec(input@, today.days as int) is Some,
    ensures
        Some(date_result(r)) == parse_due_date_spec(input@, today.days as int),
        r matches Ok(d) ==> days_in_range(d.days as int),
{
    let (s, iso, slashed) = readings(input);
    match due_date_from(s.as_str(), today, iso, slashed) {
        Some(r) => r,
        None => Err(String::new()),
    }
}

/// `parse_due_date` where it is defined; `None` for the inputs on which chrono would panic
/// (an offset beyond the last date it represents).
pub fn try_parse_due_date(input: &str, today: Date) -> (r: Option<Result<Date, String>>)
    requires
        days_in_range(today.days as int),
    ensures
        match r {
            Some(x) => Some(date_result(x)),
            None => None::<Result<int, Seq<char>>>,
        } == parse_due_date_spec(input@, today.days as int),
        r matches Some(Ok(d)) ==> days_in_range(d.days as int),
{
    let (s, iso, slashed) = readings(input);
    match due_date_from(s.as_str(), today, iso, slashed) {
        Some(_) => Some(parse_due_date(input, today)),
        None => None,
    }
}

/// `today`, `tod` and `t` give today; `tomorrow`, `tom` and `tm` the day after; `+N` and
/// `+Nd` the day `N` days later; `+Nw` the day `7 N` days later (where those days are ones
/// chrono represents).
pub proof fn law_typed_offsets(today: int, digits: Seq<char>)
    requires
        days_in_range(today),
        digits.len() > 0,
        all_digits(digits),
    ensures
        due_date_result("today"@, today, None, None) == Some(Ok::<int, Seq<char>>(today)),
        due_date_result("tod"@, today, None, None) == Some(Ok::<int, Seq<char>>(today)),
        due_date_result("t"@, today, None, None) == Some(Ok::<int, Seq<char>>(today)),
        days_in_range(today + 1) ==> due_date_result("tomorrow"@, today, None, None) == Some(Ok::<int, Seq<char>>(today + 1)),
        days_in_range(today + 1) ==> due_date_result("tom"@, today, None, None) == Some(Ok::<int, Seq<char>>(today + 1)),
        days_in_range(today + 1) ==> due_date_result("tm"@, today, None, None) == Some(Ok::<int, Seq<char>>(today + 1)),
        digits_value(digits) <= u64::MAX && days_in_range(today + digits_value(digits)) ==> due_date_result(
            seq!['+'] + digits,
            today,
            None,
            None,
        ) == Some(Ok::<int, Seq<char>>(today + digits_value(digits))),
        digits_value(digits) <= u64::MAX && days_in_range(today + digits_value(digits)) ==> due_date_result(
            seq!['+'] + digits + seq!['d'],
            today,
            None,
            None,
        ) == Some(Ok::<int, Seq<char>>(today + digits_value(digits))),
        7 * digits_value(digits) <= u64::MAX && days_in_range(today + 7 * digits_value(digits)) ==> due_date_result(
            seq!['+'] + digits + seq!['w'],
            today,
            None,
            None,
        ) == Some(Ok::<int, Seq<char>>(today + 7 * digits_value(digits))),
{
    reveal_strlit("today");
    reveal_strlit("tod");
    reveal_strlit("t");
    reveal_strlit("tomorrow");
    reveal_strlit("tom");
    reveal_strlit("tm");
    let n = digits_value(digits);
    assert(crate::text::is_digit(digits[0]));
    assert(crate::text::is_digit(digits.last()));
    let p = seq!['+'] + digits;
    assert(p.drop_first() =~= digits);
    assert(strip_pluses(digits) == digits);
    assert(strip_pluses(p) == digits);
    let pd = seq!['+'] + digits + seq!['d'];
    assert(pd.drop_first() =~= digits + seq!['d']);
    assert((digits + seq!['d'])[0] == digits[0]);
    assert(strip_pluses(digits + seq!['d']) == digits + seq!['d']);
    assert(strip_pluses(pd) == digits + seq!['d']);
    assert((digits + seq!['d']).drop_last() =~= digits);
    let pw = seq!['+'] + digits + seq!['w'];
    assert(pw.drop_first() =~= digits + seq!['w']);
    assert((digits + seq!['w'])[0] == digits[0]);
    assert(strip_pluses(digits + seq!['w']) == digits + seq!['w']);
    assert(strip_pluses(pw) == digits + seq!['w']);
    assert((digits + seq!['w']).drop_last() =~= digits);
    assert(p.len() > 1 && p != "today"@ && p != "tod"@ && p != "t"@ && p != "tomorrow"@ && p != "tom"@ && p != "tm"@) by {
        assert(p[0] == '+');
    }
    assert(pd != "today"@ && pd != "tod"@ && pd != "t"@ && pd != "tomorrow"@ && pd != "tom"@ && pd != "tm"@) by {
        assert(pd[0] == '+');
    }
    assert(pw != "today"@ && pw != "tod"@ && pw != "t"@ && pw != "tomorrow"@ && pw != "tom"@ && pw != "tm"@) by {
        assert(pw[0] == '+');
    }
}

} // verus!
