//! Colours of the screen: built-in defaults, overridden by the `key = "#rrggbb"` lines of a
//! theme file.
use vstd::prelude::*;
use crate::text::{chars_of, string_of, text_eq, trim, trim_spec, unsigned_digits};
use super::date_parser::{two_parts, two_parts_exec};
use super::wrap::blen;
use crate::engine::model::{first_index, lemma_first_index};

verus! {

/// A colour: one of the terminal's named colours, or an RGB triple.
#[derive(Clone, Copy, PartialEq, Eq, Structural, Debug)]
pub enum Color {
    Cyan,
    DarkGray,
    Yellow,
    White,
    LightCyan,
    Magenta,
    Rgb(u8, u8, u8),
}

/// The colour of each part of the screen.
#[derive(Clone, Copy, PartialEq, Eq, Structural, Debug)]
pub struct Theme {
    pub border_active: Color,
    pub border_inactive: Color,
    pub primary_accent: Color,
    pub secondary_accent: Color,
    pub highlight: Color,
    pub status_done: Color,
    pub status_pending: Color,
    pub status_overdue: Color,
    pub label: Color,
    pub value: Color,
    pub tag: Color,
}

pub open spec fn default_theme() -> Theme {
    Theme {
        border_active: Color::Cyan,
        border_inactive: Color::DarkGray,
        primary_accent: Color::Cyan,
        secondary_accent: Color::Yellow,
        highlight: Color::White,
        status_done: Color::Rgb(166, 227, 161),
        status_pending: Color::Rgb(249, 226, 175),
        status_overdue: Color::Rgb(243, 139, 168),
        label: Color::DarkGray,
        value: Color::LightCyan,
        tag: Color::Magenta,
    }
}

/// The built-in theme.
pub fn theme_default() -> (t: Theme)
    ensures
        t == default_theme(),
{
    Theme {
        border_active: Color::Cyan,
        border_inactive: Color::DarkGray,
        primary_accent: Color::Cyan,
        secondary_accent: Color::Yellow,
        highlight: Color::White,
        status_done: Color::Rgb(166, 227, 161),
        status_pending: Color::Rgb(249, 226, 175),
        status_overdue: Color::Rgb(243, 139, 168),
        label: Color::DarkGray,
        value: Color::LightCyan,
        tag: Color::Magenta,
    }
}

pub open spec fn is_newline() -> spec_fn(char) -> bool {
    |c: char| c == '\n'
}

/// `str::lines`: the text cut after each `\n`, which is dropped with a `\r` just before it;
/// a last line with no `\n` is kept as it is, and there is none after a final `\n`.
pub open spec fn text_lines(s: Seq<char>) -> Seq<Seq<char>>
    decreases s.len(),
{
    if s.len() == 0 {
        Seq::empty()
    } else {
        let i = first_index(s, is_newline());
        if i < 0 {
            seq![s]
        } else {
            proof {
                lemma_first_index(s, is_newline());
            }
            let line = s.take(i);
            let line = if line.len() > 0 && line.last() == '\r' {
                line.drop_last()
            } else {
                line
            };
            seq![line] + text_lines(s.skip(i + 1))
        }
    }
}

/// `s` without its leading and trailing `"` (`trim_matches('"')`), then without its leading
/// `#` (`trim_start_matches('#')`).
pub open spec fn strip_lead(s: Seq<char>, c: char) -> Seq<char>
    decreases s.len(),
{
    if s.len() > 0 && s[0] == c {
        strip_lead(s.drop_first(), c)
    } else {
        s
    }
}

pub open spec fn strip_trail(s: Seq<char>, c: char) -> Seq<char>
    decreases s.len(),
{
    if s.len() > 0 && s.last() == c {
        strip_trail(s.drop_last(), c)
    } else {
        s
    }
}

pub open spec fn hex_clean(v: Seq<char>) -> Seq<char> {
    strip_lead(strip_trail(strip_lead(trim_spec(v), '"'), '"'), '#')
}

pub open spec fn is_hex_digit(c: char) -> bool {
    ('0' <= c && c <= '9') || ('a' <= c && c <= 'f') || ('A' <= c && c <= 'F')
}

pub open spec fn hex_digit_value(c: char) -> int {
    if '0' <= c && c <= '9' {
        c as int - '0' as int
    } else if 'a' <= c && c <= 'f' {
        c as int - 'a' as int + 10
    } else {
        c as int - 'A' as int + 10
    }
}

pub open spec fn hex_value(d: Seq<char>) -> int
    decreases d.len(),
{
    if d.len() == 0 {
        0
    } else {
        hex_value(d.drop_last()) * 16 + hex_digit_value(d.last())
    }
}

pub open spec fn all_hex(d: Seq<char>) -> bool {
    forall|i: int| 0 <= i < d.len() ==> is_hex_digit(#[trigger] d[i])
}

/// `u8::from_str_radix(p, 16)`: an optional `+`, then hex digits, at most 255.
pub open spec fn hex_u8(p: Seq<char>) -> Option<u8> {
    let d = unsigned_digits(p);
    if d.len() > 0 && all_hex(d) && hex_value(d) <= 255 {
        Some(hex_value(d) as u8)
    } else {
        None
    }
}

/// The number of characters of `s` that make up its first `b` bytes, if `b` falls between
/// characters.
pub open spec fn char_boundary(s: Seq<char>, b: int) -> Option<int> {
    if exists|k: int| 0 <= k <= s.len() && blen(s.take(k)) == b {
        Some(choose|k: int| 0 <= k <= s.len() && blen(s.take(k)) == b)
    } else {
        None
    }
}

/// Cutting a six-byte value into its three byte pairs panics where a cut falls inside a
/// character (the red pair is cut, and read, before the green pair).
pub open spec fn hex_color_panics(v: Seq<char>) -> bool {
    let c = hex_clean(v);
    blen(c) == 6 && (char_boundary(c, 2) is None || (hex_u8(c.take(char_boundary(c, 2)->0)) is Some
        && char_boundary(c, 4) is None))
}

/// `parse_hex_color`: `"#rrggbb"`, quotes and `#` optional.
pub open spec fn hex_color(v: Seq<char>) -> Option<Color> {
    let c = hex_clean(v);
    if blen(c) != 6 {
        None
    } else {
        match char_boundary(c, 2) {
            None => None,
            Some(k2) => match hex_u8(c.take(k2)) {
                None => None,
                Some(r) => match char_boundary(c, 4) {
                    None => None,
                    Some(k4) => match (hex_u8(c.subrange(k2, k4)), hex_u8(c.skip(k4))) {
                        (Some(g), Some(b)) => Some(Color::Rgb(r, g, b)),
                        _ => None,
                    },
                },
            },
        }
    }
}

/// One theme line: `key = colour` sets the parts of the screen that key names.
pub open spec fn apply_line(t: Theme, line: Seq<char>) -> Theme {
    match two_parts(line, '=') {
        None => t,
        Some((k, v)) => match hex_color(trim_spec(v)) {
            None => t,
            Some(c) => {
                let key = trim_spec(k);
                if key == "accent"@ {
                    Theme { border_active: c, primary_accent: c, ..t }
                } else if key == "cursor"@ {
                    Theme { secondary_accent: c, ..t }
                } else if key == "color0"@ || key == "color8"@ {
                    Theme { border_inactive: c, ..t }
                } else if key == "color1"@ {
                    Theme { status_overdue: c, ..t }
                } else if key == "color2"@ {
                    Theme { status_done: c, ..t }
                } else if key == "color3"@ {
                    Theme { status_pending: c, ..t }
                } else if key == "color5"@ {
                    Theme { tag: c, ..t }
                } else {
                    t
                }
            },
        },
    }
}

pub open spec fn apply_lines(t: Theme, lines: Seq<Seq<char>>) -> Theme
    decreases lines.len(),
{
    if lines.len() == 0 {
        t
    } else {
        apply_lines(apply_line(t, lines[0]), lines.drop_first())
    }
}

/// The line holds a value on which the colour parser would panic.
pub open spec fn line_panics(line: Seq<char>) -> bool {
    match two_parts(line, '=') {
        Some((_k, v)) => hex_color_panics(trim_spec(v)),
        None => false,
    }
}

/// Some line of the file holds a value on which the colour parser would panic.
pub open spec fn config_panics(content: Seq<char>) -> bool {
    exists|i: int|
        0 <= i < text_lines(content).len() && line_panics(#[trigger] text_lines(content)[i])
}

/// The theme a theme file gives.
pub open spec fn theme_of(content: Seq<char>) -> Theme {
    apply_lines(default_theme(), text_lines(content))
}

fn strip_lead_at(v: &Vec<char>, from: usize, to: usize, c: char) -> (r: usize)
    requires
        from <= to <= v@.len(),
    ensures
        from <= r <= to,
        v@.subrange(r as int, to as int) == strip_lead(v@.subrange(from as int, to as int), c),
{
    let mut i = from;
    while i < to && v[i] == c
        invariant
            from <= i <= to <= v@.len(),
            strip_lead(v@.subrange(i as int, to as int), c) == strip_lead(v@.subrange(from as int, to as int), c),
        decreases to - i,
    {
        proof {
            assert(v@.subrange(i as int, to as int).drop_first() =~= v@.subrange(i + 1, to as int));
        }
        i = i + 1;
    }
    proof {
        if i < to {
            assert(v@.subrange(i as int, to as int)[0] == v@[i as int]);
        }
    }
    i
}

fn strip_trail_at(v: &Vec<char>, from: usize, to: usize, c: char) -> (r: usize)
    requires
        from <= to <= v@.len(),
    ensures
        from <= r <= to,
        v@.subrange(from as int, r as int) == strip_trail(v@.subrange(from as int, to as int), c),
{
    let mut j = to;
    while j > from && v[j - 1] == c
        invariant
            from <= j <= to <= v@.len(),
            strip_trail(v@.subrange(from as int, j as int), c) == strip_trail(v@.subrange(from as int, to as int), c),
        decreases j - from,
    {
        proof {
            assert(v@.subrange(from as int, j as int).drop_last() =~= v@.subrange(from as int, j - 1));
        }
        j = j - 1;
    }
    proof {
        if j > from {
            assert(v@.subrange(from as int, j as int).last() == v@[j - 1]);
        }
    }
    j
}

pub proof fn lemma_hex_prefix(d: Seq<char>, k: int)
    requires
        0 <= k <= d.len(),
        forall|i: int| 0 <= i < d.len() ==> is_hex_digit(#[trigger] d[i]),
    ensures
        hex_value(d.take(k)) <= hex_value(d),
        hex_value(d.take(k)) >= 0,
    decreases d.len() - k,
{
    if k < d.len() {
        lemma_hex_prefix(d, k + 1);
        assert(d.take(k + 1).drop_last() =~= d.take(k));
        assert(d.take(k + 1).last() == d[k]);
        assert(is_hex_digit(d[k]));
    } else {
        assert(d.take(k) =~= d);
    }
    if k > 0 {
        lemma_hex_nonneg(d.take(k));
    }
}

pub proof fn lemma_hex_nonneg(d: Seq<char>)
    requires
        forall|i: int| 0 <= i < d.len() ==> is_hex_digit(#[trigger] d[i]),
    ensures
        hex_value(d) >= 0,
    decreases d.len(),
{
    if d.len() > 0 {
        assert forall|i: int| 0 <= i < d.drop_last().len() implies is_hex_digit(#[trigger] d.drop_last()[i]) by {
            assert(d.drop_last()[i] == d[i]);
        }
        lemma_hex_nonneg(d.drop_last());
        assert(is_hex_digit(d.last()));
    }
}

/// `u8::from_str_radix(v[from..to], 16)`.
fn hex_u8_at(v: &Vec<char>, from: usize, to: usize) -> (r: Option<u8>)
    requires
        from <= to <= v@.len(),
    ensures
        r == hex_u8(v@.subrange(from as int, to as int)),
{
    let ghost p = v@.subrange(from as int, to as int);
    let start = if from < to && v[from] == '+' {
        from + 1
    } else {
        from
    };
    let ghost d = v@.subrange(start as int, to as int);
    proof {
        if from < to && v@[from as int] == '+' {
            assert(d =~= p.drop_first());
        } else {
            assert(d =~= p);
        }
    }
    if start == to {
        return None;
    }
    let mut acc: u32 = 0;
    let mut i = start;
    while i < to
        invariant
            from <= start <= i <= to <= v@.len(),
            d == v@.subrange(start as int, to as int),
            p == v@.subrange(from as int, to as int),
            d == unsigned_digits(p),
            d.len() > 0,
            forall|m: int| 0 <= m < i - start ==> is_hex_digit(#[trigger] d[m]),
            acc == hex_value(d.take(i - start)),
            acc <= 255,
        decreases to - i,
    {
        let c = v[i];
        assert(d[i - start] == c);
        let dv: u32 = if '0' <= c && c <= '9' {
            c as u32 - '0' as u32
        } else if 'a' <= c && c <= 'f' {
            c as u32 - 'a' as u32 + 10
        } else if 'A' <= c && c <= 'F' {
            c as u32 - 'A' as u32 + 10
        } else {
            proof {
                assert(!is_hex_digit(d[i - start]));
                assert(!all_hex(d));
                assert(hex_u8(p) is None);
            }
            return None;
        };
        proof {
            assert(d.take(i + 1 - start).drop_last() =~= d.take(i - start));
            assert(d.take(i + 1 - start).last() == c);
        }
        assert(dv == hex_digit_value(c));
        let next = acc * 16 + dv;
        assert(hex_value(d.take(i + 1 - start)) == next);
        if next > 255 {
            proof {
                if all_hex(d) {
                    lemma_hex_prefix(d, i + 1 - start);
                }
                assert(hex_u8(p) is None);
            }
            return None;
        }
        acc = next;
        i = i + 1;
    }
    proof {
        assert(d.take(i - start) =~= d);
    }
    Some(acc as u8)
}

pub proof fn lemma_blen_take_increasing(s: Seq<char>, j: int, k: int)
    requires
        0 <= j < k <= s.len(),
    ensures
        blen(s.take(j)) < blen(s.take(k)),
    decreases k - j,
{
    assert(s.take(k).drop_last() =~= s.take(k - 1));
    if j < k - 1 {
        lemma_blen_take_increasing(s, j, k - 1);
    }
}

/// The number of characters making up the first `b` bytes, if `b` falls between characters.
pub(crate) fn boundary_at(v: &Vec<char>, b: u128) -> (r: Option<usize>)
    ensures
        match char_boundary(v@, b as int) {
            Some(k) => r == Some(k as usize),
            None => r is None,
        },
{
    let mut acc: u128 = 0;
    let mut k: usize = 0;
    proof {
        assert(v@.take(0) =~= Seq::<char>::empty());
    }
    loop
        invariant
            k <= v@.len(),
            acc == blen(v@.take(k as int)),
            acc <= 4 * k,
            acc <= b,
            forall|j: int| 0 <= j < k ==> blen(v@.take(j)) != b,
        decreases v@.len() - k,
    {
        if acc == b {
            proof {
                let c = choose|c: int| 0 <= c <= v@.len() && blen(v@.take(c)) == b;
                if c < k {
                    assert(blen(v@.take(c)) != b);
                } else if c > k {
                    lemma_blen_take_increasing(v@, k as int, c);
                }
            }
            return Some(k);
        }
        if k == v.len() {
            proof {
                assert forall|c: int| 0 <= c <= v@.len() implies blen(v@.take(c)) != b by {
                    if c < k {
                    }
                }
            }
            return None;
        }
        proof {
            assert(v@.take(k + 1).drop_last() =~= v@.take(k as int));
            assert(v@.take(k + 1).last() == v@[k as int]);
        }
        let next = acc + (if (v[k] as u32) < 0x80 {
            1
        } else if (v[k] as u32) < 0x800 {
            2
        } else if (v[k] as u32) < 0x10000 {
            3
        } else {
            4
        });
        if next > b {
            proof {
                assert forall|c: int| 0 <= c <= v@.len() implies blen(v@.take(c)) != b by {
                    if c > k {
                        if c > k + 1 {
                            lemma_blen_take_increasing(v@, k + 1, c);
                        }
                    }
                }
            }
            return None;
        }
        acc = next;
        k = k + 1;
    }
}

/// Where the colour value starts and ends once its quotes and `#` are stripped.
fn clean_bounds(t: &Vec<char>) -> (r: (usize, usize))
    ensures
        r.0 <= r.1 <= t@.len(),
        t@.subrange(r.0 as int, r.1 as int) == strip_lead(strip_trail(strip_lead(t@, '"'), '"'), '#'),
{
    let a = strip_lead_at(t, 0, t.len(), '"');
    proof {
        assert(t@.subrange(0, t@.len() as int) =~= t@);
    }
    let b = strip_trail_at(t, a, t.len(), '"');
    let c = strip_lead_at(t, a, b, '#');
    (c, b)
}

fn cleaned(value: &str) -> (r: Vec<char>)
    ensures
        r@ == hex_clean(value@),
{
    let t = chars_of(trim(value).as_str());
    let (a, b) = clean_bounds(&t);
    let s = string_of(&t, a, b);
    chars_of(s.as_str())
}

/// Whether `parse_hex_color` would panic on this value.
pub fn hex_color_would_panic(value: &str) -> (r: bool)
    ensures
        r == hex_color_panics(value@),
{
    let c = cleaned(value);
    let total = super::wrap::blen_of_pub(&c);
    if total != 6 {
        return false;
    }
    match boundary_at(&c, 2) {
        None => true,
        Some(k2) => {
            proof {
                assert(c@.take(k2 as int) =~= c@.subrange(0, k2 as int));
            }
            match hex_u8_at(&c, 0, k2) {
                None => false,
                Some(_) => boundary_at(&c, 4).is_none(),
            }
        },
    }
}

/// `parse_hex_color`: a colour written `#rrggbb`, in quotes or not.
pub fn parse_hex_color(value: &str) -> (r: Option<Color>)
    requires
        !hex_color_panics(value@),
    ensures
        r == hex_color(value@),
{
    let c = cleaned(value);
    let total = super::wrap::blen_of_pub(&c);
    if total != 6 {
        return None;
    }
    let k2 = match boundary_at(&c, 2) {
        None => return None,
        Some(k) => k,
    };
    proof {
        assert(c@.take(k2 as int) =~= c@.subrange(0, k2 as int));
    }
    let r = match hex_u8_at(&c, 0, k2) {
        None => return None,
        Some(x) => x,
    };
    let k4 = match boundary_at(&c, 4) {
        None => return None,
        Some(k) => k,
    };
    proof {
        if k4 < k2 {
            lemma_blen_take_increasing(c@, k4 as int, k2 as int);
        }
        assert(c@.skip(k4 as int) =~= c@.subrange(k4 as int, c@.len() as int));
    }
    let g = hex_u8_at(&c, k2, k4);
    let b = hex_u8_at(&c, k4, c.len());
    match (g, b) {
        (Some(g), Some(b)) => Some(Color::Rgb(r, g, b)),
        _ => None,
    }
}

proof fn lemma_first_newline(s: Seq<char>, k: int)
    requires
        0 <= k < s.len(),
        s[k] == '\n',
        forall|j: int| 0 <= j < k ==> s[j] != '\n',
    ensures
        first_index(s, is_newline()) == k,
{
    lemma_first_index(s, is_newline());
    let f = first_index(s, is_newline());
    if f == -1 {
        assert(!is_newline()(s[k]));
    } else if f < k {
        assert(is_newline()(s[f]));
    } else if f > k {
        assert(!is_newline()(s[k]));
    }
}

proof fn lemma_no_newline(s: Seq<char>)
    requires
        s.len() > 0,
        forall|j: int| 0 <= j < s.len() ==> s[j] != '\n',
    ensures
        text_lines(s) == seq![s],
{
    lemma_first_index(s, is_newline());
    if first_index(s, is_newline()) >= 0 {
        assert(is_newline()(s[first_index(s, is_newline())]));
    }
}

/// The lines of a text, as `str::lines` cuts them.
pub fn text_lines_exec(content: &str) -> (r: Vec<String>)
    ensures
        r@.len() == text_lines(content@).len(),
        forall|j: int| 0 <= j < r@.len() ==> #[trigger] r@[j]@ == text_lines(content@)[j],
{
    let v = chars_of(content);
    let mut r: Vec<String> = Vec::new();
    let ghost mut acc: Seq<Seq<char>> = Seq::empty();
    let mut start: usize = 0;
    let mut i: usize = 0;
    assert(v@.skip(0) =~= v@);
    while i < v.len()
        invariant
            start <= i <= v@.len(),
            v@ == content@,
            r@.len() == acc.len(),
            forall|j: int| 0 <= j < r@.len() ==> #[trigger] r@[j]@ == acc[j],
            acc + text_lines(v@.skip(start as int)) == text_lines(v@),
            forall|j: int| start <= j < i ==> v@[j] != '\n',
        decreases v@.len() - i,
    {
        if v[i] == '\n' {
            let end = if i > start && v[i - 1] == '\r' {
                i - 1
            } else {
                i
            };
            let line = string_of(&v, start, end);
            proof {
                let s = v@.skip(start as int);
                assert forall|j: int| 0 <= j < i - start implies s[j] != '\n' by {
                    assert(s[j] == v@[start + j]);
                }
                lemma_first_newline(s, i - start);
                let l = s.take(i - start);
                let l2 = if l.len() > 0 && l.last() == '\r' {
                    l.drop_last()
                } else {
                    l
                };
                assert(s.skip(i - start + 1) =~= v@.skip(i + 1));
                if i > start {
                    assert(l.last() == v@[i - 1]);
                }
                assert(l2 =~= v@.subrange(start as int, end as int));
                assert(text_lines(s) == seq![l2] + text_lines(v@.skip(i + 1)));
                assert(acc.push(l2) + text_lines(v@.skip(i + 1)) =~= acc + text_lines(s));
                acc = acc.push(l2);
            }
            r.push(line);
            start = i + 1;
        }
        i = i + 1;
    }
    if start < v.len() {
        let line = string_of(&v, start, v.len());
        proof {
            let s = v@.skip(start as int);
            assert forall|j: int| 0 <= j < s.len() implies s[j] != '\n' by {
                assert(s[j] == v@[start + j]);
            }
            lemma_no_newline(s);
            assert(s =~= v@.subrange(start as int, v@.len() as int));
            acc = acc.push(s);
        }
        r.push(line);
    } else {
        proof {
            assert(v@.skip(start as int) =~= Seq::<char>::empty());
            assert(acc + Seq::<Seq<char>>::empty() =~= acc);
        }
    }
    proof {
        assert(acc =~= text_lines(v@));
    }
    r
}

/// Applies one theme line to a theme.
fn apply_line_exec(t: Theme, line: &str) -> (r: Theme)
    requires
        !line_panics(line@),
    ensures
        r == apply_line(t, line@),
{
    let v = chars_of(line);
    match two_parts_exec(&v, '=') {
        None => t,
        Some((k, val)) => {
            let tv = trim(val.as_str());
            match parse_hex_color(tv.as_str()) {
                None => t,
                Some(c) => {
                    let key = trim(k.as_str());
                    if text_eq(key.as_str(), "accent") {
                        Theme { border_active: c, primary_accent: c, ..t }
                    } else if text_eq(key.as_str(), "cursor") {
                        Theme { secondary_accent: c, ..t }
                    } else if text_eq(key.as_str(), "color0") || text_eq(key.as_str(), "color8") {
                        Theme { border_inactive: c, ..t }
                    } else if text_eq(key.as_str(), "color1") {
                        Theme { status_overdue: c, ..t }
                    } else if text_eq(key.as_str(), "color2") {
                        Theme { status_done: c, ..t }
                    } else if text_eq(key.as_str(), "color3") {
                        Theme { status_pending: c, ..t }
                    } else if text_eq(key.as_str(), "color5") {
                        Theme { tag: c, ..t }
                    } else {
                        t
                    }
                },
            }
        },
    }
}

/// The theme that the text of a theme file gives: the built-in theme, with each
/// `key = "#rrggbb"` line applied in order.
pub fn theme_from_config(content: &str) -> (t: Theme)
    requires
        !config_panics(content@),
    ensures
        t == theme_of(content@),
{
    let lines = text_lines_exec(content);
    let ghost ls = text_lines(content@);
    let mut t = theme_default();
    let mut i: usize = 0;
    assert(ls.skip(0) =~= ls);
    while i < lines.len()
        invariant
            i <= lines@.len(),
            lines@.len() == ls.len(),
            forall|j: int| 0 <= j < lines@.len() ==> #[trigger] lines@[j]@ == ls[j],
            ls == text_lines(content@),
            !config_panics(content@),
            apply_lines(t, ls.skip(i as int)) == apply_lines(default_theme(), ls),
        decreases lines@.len() - i,
    {
        proof {
            assert(lines@[i as int]@ == ls[i as int]);
            if line_panics(ls[i as int]) {
                assert(config_panics(content@));
            }
            assert(ls.skip(i as int).drop_first() =~= ls.skip(i + 1));
            assert(ls.skip(i as int)[0] == ls[i as int]);
        }
        t = apply_line_exec(t, lines[i].as_str());
        i = i + 1;
    }
    proof {
        assert(ls.skip(i as int) =~= Seq::<Seq<char>>::empty());
    }
    t
}

/// Whether reading this theme file would panic on one of its colour values.
pub fn config_would_panic(content: &str) -> (r: bool)
    ensures
        r == config_panics(content@),
{
    let lines = text_lines_exec(content);
    let ghost ls = text_lines(content@);
    let mut i: usize = 0;
    while i < lines.len()
        invariant
            i <= lines@.len(),
            lines@.len() == ls.len(),
            forall|j: int| 0 <= j < lines@.len() ==> #[trigger] lines@[j]@ == ls[j],
            ls == text_lines(content@),
            forall|j: int| 0 <= j < i ==> !line_panics(#[trigger] ls[j]),
        decreases lines@.len() - i,
    {
        let v = chars_of(lines[i].as_str());
        proof {
            assert(lines@[i as int]@ == ls[i as int]);
        }
        let bad = match two_parts_exec(&v, '=') {
            None => false,
            Some((_k, val)) => {
                let tv = trim(val.as_str());
                hex_color_would_panic(tv.as_str())
            },
        };
        if bad {
            return true;
        }
        i = i + 1;
    }
    false
}

} // verus!
