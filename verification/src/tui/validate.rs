//! Checking a form's answers before they are saved.
use vstd::prelude::*;
use crate::dates::{days_in_range, Date};
use crate::text::{
    chars_of, concat, parse_i64, parse_i64_spec, push_char, split_words, trim, trim_spec, words,
};
use super::date_parser::{invalid_date_msg, parse_due_date_spec, try_parse_due_date};
use super::state::{form_total_steps, form_total_steps_spec, FormKind};

verus! {

/// The characters a tag may hold after its `#`.
pub open spec fn tag_char_ok(c: char) -> bool {
    ('a' <= c && c <= 'z') || ('A' <= c && c <= 'Z') || ('0' <= c && c <= '9') || c == '_' || c == '-'
}

/// The first character of `s` a tag may not hold.
pub open spec fn first_bad_char(s: Seq<char>) -> Option<char>
    decreases s.len(),
{
    if s.len() == 0 {
        None
    } else if !tag_char_ok(s[0]) {
        Some(s[0])
    } else {
        first_bad_char(s.drop_first())
    }
}

/// What is wrong with one tag, if anything.
pub open spec fn tag_error(tag: Seq<char>) -> Option<Seq<char>> {
    if !(tag.len() > 0 && tag[0] == '#') {
        Some("Tag '"@ + tag + "' must start with '#'"@)
    } else if tag.len() == 1 {
        Some("Tag '"@ + tag + "' cannot be empty after '#'"@)
    } else {
        match first_bad_char(tag.drop_first()) {
            Some(c) => Some(
                "Tag '"@ + tag + "' contains invalid character '"@ + seq![c]
                    + "' (only alphanumeric, '_' and '-' are allowed)"@,
            ),
            None => None,
        }
    }
}

/// The error of the first bad tag.
pub open spec fn first_tag_error(ws: Seq<Seq<char>>) -> Option<Seq<char>>
    decreases ws.len(),
{
    if ws.len() == 0 {
        None
    } else {
        match tag_error(ws[0]) {
            Some(e) => Some(e),
            None => first_tag_error(ws.drop_first()),
        }
    }
}

/// Tags are whitespace-separated words, each `#` and then letters, digits, `_` or `-`.
pub open spec fn validate_tags_spec(s: Seq<char>) -> Result<(), Seq<char>> {
    if trim_spec(s).len() == 0 {
        Ok(())
    } else {
        match first_tag_error(words(s)) {
            Some(e) => Err(e),
            None => Ok(()),
        }
    }
}

/// A priority is empty, or a number from 1 to 3.
pub open spec fn validate_priority_spec(s: Seq<char>) -> Result<(), Seq<char>> {
    if s.len() == 0 {
        Ok(())
    } else {
        match parse_i64_spec(s) {
            Some(v) => if 1 <= v <= 3 {
                Ok(())
            } else {
                Err("Priority must be 1, 2, or 3"@)
            },
            None => Err("Priority must be a number (1, 2, or 3)"@),
        }
    }
}

/// A due date is empty or reads as a date (one beyond chrono's range counts as unreadable).
pub open spec fn validate_due_date_spec(s: Seq<char>, today: int) -> Result<(), Seq<char>> {
    if s.len() == 0 {
        Ok(())
    } else {
        match parse_due_date_spec(s, today) {
            Some(Ok(_)) => Ok(()),
            Some(Err(m)) => Err(m),
            None => Err(invalid_date_msg()),
        }
    }
}

pub open spec fn unit_result(r: Result<(), String>) -> Result<(), Seq<char>> {
    match r {
        Ok(_) => Ok(()),
        Err(m) => Err(m@),
    }
}

fn bad_char(v: &Vec<char>) -> (r: Option<char>)
    requires
        v@.len() >= 1,
    ensures
        r == first_bad_char(v@.drop_first()),
{
    let mut i: usize = 1;
    proof {
        assert(v@.skip(1) =~= v@.drop_first());
    }
    while i < v.len()
        invariant
            1 <= i <= v@.len(),
            first_bad_char(v@.skip(i as int)) == first_bad_char(v@.drop_first()),
        decreases v@.len() - i,
    {
        let c = v[i];
        proof {
            assert(v@.skip(i as int)[0] == c);
            assert(v@.skip(i as int).drop_first() =~= v@.skip(i + 1));
        }
        if !(('a' <= c && c <= 'z') || ('A' <= c && c <= 'Z') || ('0' <= c && c <= '9') || c == '_' || c == '-') {
            return Some(c);
        }
        i = i + 1;
    }
    proof {
        assert(v@.skip(i as int) =~= Seq::<char>::empty());
    }
    None
}

fn tag_message(tag: &str, middle: &str) -> (r: String)
    ensures
        r@ == "Tag '"@ + tag@ + middle@,
{
    let a = concat("Tag '", tag);
    concat(a.as_str(), middle)
}

fn tag_error_exec(tag: &String) -> (r: Option<String>)
    ensures
        match r {
            Some(e) => Some(e@),
            None => None::<Seq<char>>,
        } == tag_error(tag@),
{
    let v = chars_of(tag.as_str());
    if !(v.len() > 0 && v[0] == '#') {
        return Some(tag_message(tag.as_str(), "' must start with '#'"));
    }
    if v.len() == 1 {
        return Some(tag_message(tag.as_str(), "' cannot be empty after '#'"));
    }
    match bad_char(&v) {
        Some(c) => {
            let mut m = tag_message(tag.as_str(), "' contains invalid character '");
            push_char(&mut m, c);
            let r = concat(m.as_str(), "' (only alphanumeric, '_' and '-' are allowed)");
            proof {
                assert(r@ =~= "Tag '"@ + tag@ + "' contains invalid character '"@ + seq![c]
                    + "' (only alphanumeric, '_' and '-' are allowed)"@);
            }
            Some(r)
        },
        None => None,
    }
}

/// Checks the tags of a form: `#` then letters, digits, `_` or `-`, separated by whitespace.
pub fn validate_tags(tags_raw: &str) -> (r: Result<(), String>)
    ensures
        unit_result(r) == validate_tags_spec(tags_raw@),
{
    let t = trim(tags_raw);
    if t.as_str().unicode_len() == 0 {
        return Ok(());
    }
    let ws = split_words(&chars_of(tags_raw));
    let ghost wv = ws@.map_values(|w: String| w@);
    let mut i: usize = 0;
    proof {
        assert(wv.skip(0) =~= wv);
    }
    while i < ws.len()
        invariant
            i <= ws@.len(),
            wv == ws@.map_values(|w: String| w@),
            wv == words(tags_raw@),
            trim_spec(tags_raw@).len() > 0,
            first_tag_error(wv.skip(i as int)) == first_tag_error(wv),
        decreases ws@.len() - i,
    {
        proof {
            assert(wv.skip(i as int)[0] == ws@[i as int]@);
            assert(wv.skip(i as int).drop_first() =~= wv.skip(i + 1));
        }
        if let Some(e) = tag_error_exec(&ws[i]) {
            return Err(e);
        }
        i = i + 1;
    }
    proof {
        assert(wv.skip(i as int) =~= Seq::<Seq<char>>::empty());
    }
    Ok(())
}

/// Checks a priority: empty, or a number from 1 to 3.
pub fn validate_priority(prio_val: &str) -> (r: Result<(), String>)
    ensures
        unit_result(r) == validate_priority_spec(prio_val@),
{
    if prio_val.unicode_len() == 0 {
        return Ok(());
    }
    match parse_i64(prio_val) {
        Some(v) => {
            if !(1 <= v && v <= 3) {
                return Err(crate::text::to_owned_string("Priority must be 1, 2, or 3"));
            }
        },
        None => {
            return Err(crate::text::to_owned_string("Priority must be a number (1, 2, or 3)"));
        },
    }
    Ok(())
}

/// Checks a due date: empty, or something `parse_due_date` reads.
pub fn validate_due_date(due_val: &str, today: Date) -> (r: Result<(), String>)
    requires
        days_in_range(today.days as int),
    ensures
        unit_result(r) == validate_due_date_spec(due_val@, today.days as int),
{
    if due_val.unicode_len() == 0 {
        return Ok(());
    }
    match try_parse_due_date(due_val, today) {
        Some(Ok(_)) => Ok(()),
        Some(Err(m)) => Err(m),
        None => Err(crate::text::to_owned_string("Invalid date format. Use YYYY-MM-DD, today, tomorrow, +N, +Nw, weekday, MM-DD, or DD")),
    }
}

/// The value of a form field: the text being typed for the field being edited, else the
/// saved answer (empty if there is none).
pub open spec fn field_value(step: int, answers: Seq<Seq<char>>, current: Seq<char>, insert: bool, idx: int) -> Seq<char> {
    if idx == step && insert {
        current
    } else if 0 <= idx < answers.len() {
        answers[idx]
    } else {
        Seq::empty()
    }
}

/// The first problem of a form, with the step it is on: tags, then priority, then due date;
/// the field being typed in is not checked.
pub open spec fn form_error_spec(total: int, step: int, answers: Seq<Seq<char>>, current: Seq<char>, insert: bool, today: int) -> Option<(Seq<char>, int)> {
    if !(insert && step == 2) && validate_tags_spec(field_value(step, answers, current, insert, 2)) is Err {
        Some((validate_tags_spec(field_value(step, answers, current, insert, 2))->Err_0, 2))
    } else if total > 3 && !(insert && step == 3) && validate_priority_spec(
        field_value(step, answers, current, insert, 3),
    ) is Err {
        Some((validate_priority_spec(field_value(step, answers, current, insert, 3))->Err_0, 3))
    } else if total > 4 && !(insert && step == 4) && validate_due_date_spec(
        field_value(step, answers, current, insert, 4),
        today,
    ) is Err {
        Some((validate_due_date_spec(field_value(step, answers, current, insert, 4), today)->Err_0, 4))
    } else {
        None
    }
}

fn field_value_exec(step: usize, answers: &Vec<String>, current: &str, insert: bool, idx: usize) -> (r: String)
    ensures
        r@ == field_value(step as int, super::view::texts(answers@), current@, insert, idx as int),
{
    if idx == step && insert {
        crate::text::to_owned_string(current)
    } else if idx < answers.len() {
        proof {
            assert(super::view::texts(answers@)[idx as int] == answers@[idx as int]@);
        }
        answers[idx].clone()
    } else {
        String::new()
    }
}

/// The first problem of a form's answers, and the step to show it on.
pub fn get_form_error(
    form_kind: &FormKind,
    step: usize,
    answers: &Vec<String>,
    current_input: &str,
    in_insert_mode: bool,
    today: Date,
) -> (r: Option<(String, usize)>)
    requires
        days_in_range(today.days as int),
    ensures
        match r {
            Some((m, s)) => Some((m@, s as int)),
            None => None::<(Seq<char>, int)>,
        } == form_error_spec(
            form_total_steps_spec(*form_kind),
            step as int,
            super::view::texts(answers@),
            current_input@,
            in_insert_mode,
            today.days as int,
        ),
{
    if !(in_insert_mode && step == 2) {
        let tags_val = field_value_exec(step, answers, current_input, in_insert_mode, 2);
        if let Err(e) = validate_tags(tags_val.as_str()) {
            return Some((e, 2));
        }
    }
    let total = form_total_steps(form_kind);
    if total > 3 && !(in_insert_mode && step == 3) {
        let prio_val = field_value_exec(step, answers, current_input, in_insert_mode, 3);
        if let Err(e) = validate_priority(prio_val.as_str()) {
            return Some((e, 3));
        }
    }
    if total > 4 && !(in_insert_mode && step == 4) {
        let due_val = field_value_exec(step, answers, current_input, in_insert_mode, 4);
        if let Err(e) = validate_due_date(due_val.as_str(), today) {
            return Some((e, 4));
        }
    }
    None
}

} // verus!
