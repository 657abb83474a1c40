//! Keys in a form: moving between fields, typing into one, and saving the answers.
use vstd::prelude::*;
use crate::dates::{date_text, days_in_range, format_date, midnight, Date, NANOS_PER_DAY};
use crate::engine::Engine;
use crate::engine::model::{error_text, EngineV, ErrorV};
use crate::engine::tags::names_of;
use crate::models::{ts_in_range, ProjectPatch, StoreError, TaskPatch};
use crate::text::{
    chars_of, concat, parse_i64, parse_i64_spec, push_char, split_words, string_of, trim,
    trim_spec, words,
};
use super::date_parser::{parse_due_date_spec, try_parse_due_date};
use super::refresh::{indices, unit_err};
use super::search::pop_text;
use super::state::{all_indices, form_total_steps, AppMode, AppState, FormKind, Key};
use super::validate::{form_error_spec, get_form_error};
use super::view::{lemma_all_indices, texts, AppV, FormKindV, ModeV};

verus! {

/// A word without its leading `#` signs.
pub open spec fn strip_hashes(w: Seq<char>) -> Seq<char>
    decreases w.len(),
{
    if w.len() > 0 && w[0] == '#' {
        strip_hashes(w.drop_first())
    } else {
        w
    }
}

/// The tag names a form's tags field gives: its words without their `#`.
pub open spec fn tag_args(raw: Seq<char>) -> Seq<Seq<char>> {
    words(raw).map_values(|w: Seq<char>| strip_hashes(w))
}

/// An answer, or empty text where there is none.
pub open spec fn answer(answers: Seq<Seq<char>>, i: int) -> Seq<char> {
    if 0 <= i < answers.len() {
        answers[i]
    } else {
        Seq::empty()
    }
}

/// The priority a form gives: its number, or 3.
pub open spec fn priority_of(s: Seq<char>) -> int {
    match parse_i64_spec(s) {
        Some(v) => v,
        None => 3,
    }
}

/// The due date a form gives: midnight UTC of the day it reads as, if any.
pub open spec fn due_of(s: Seq<char>, today: int) -> Option<int> {
    if s.len() == 0 {
        None
    } else {
        match parse_due_date_spec(s, today) {
            Some(Ok(d)) => Some(d * NANOS_PER_DAY),
            _ => None,
        }
    }
}

pub open spec fn total_of(kind: FormKindV) -> int {
    if kind is CreateProject || kind is ModifyProject {
        3
    } else {
        5
    }
}

/// After a project form was saved: the projects read again, the form closed.
pub open spec fn projects_saved(a: AppV, e: EngineV) -> AppV {
    let ps = e.list_projects();
    AppV { projects: ps, filtered_projects: all_indices(ps.len() as int), mode: ModeV::Browsing, selected: 0, ..a }
}

/// After a task form was saved: the project's tasks read again, the form closed.
pub open spec fn tasks_saved(a: AppV, e: EngineV, pname: Seq<char>) -> (AppV, Result<(), ErrorV>) {
    match e.list_tasks(pname) {
        Err(x) => (a, Err(x)),
        Ok(ts) => (
            AppV { tasks: ts, filtered_tasks: all_indices(ts.len() as int), mode: ModeV::Browsing, selected: 0, ..a },
            Ok(()),
        ),
    }
}

/// A failed save closes the form and keeps the error for the screen.
pub open spec fn save_failed(a: AppV, what: Seq<char>, x: ErrorV) -> AppV {
    AppV { mode: ModeV::Browsing, last_error: Some(what + error_text(x)), ..a }
}

pub open spec fn submit_create_project(a: AppV, answers: Seq<Seq<char>>, e: EngineV, now: int) -> (AppV, EngineV, Result<(), ErrorV>) {
    let n = answer(answers, 0);
    let (e1, r) = e.create_project(n, answer(answers, 1), now);
    match r {
        Ok(_) => {
            let raw = answer(answers, 2);
            let e2 = if raw.len() > 0 {
                e1.add_tags_to_project(n, tag_args(raw)).0
            } else {
                e1
            };
            (projects_saved(a, e2), e2, Ok(()))
        },
        Err(x) => (save_failed(a, "error creating project: "@, x), e1, Ok(())),
    }
}

pub open spec fn submit_create_task(a: AppV, answers: Seq<Seq<char>>, pname: Seq<char>, e: EngineV, today: int, now: int) -> (AppV, EngineV, Result<(), ErrorV>) {
    let n = answer(answers, 0);
    let (e1, r) = e.create_task(
        pname,
        n,
        answer(answers, 1),
        priority_of(answer(answers, 3)),
        due_of(answer(answers, 4), today),
        None,
        now,
    );
    match r {
        Ok(_) => {
            let raw = answer(answers, 2);
            let e2 = if raw.len() > 0 {
                e1.add_tags_to_task(pname, n, tag_args(raw)).0
            } else {
                e1
            };
            let (a2, r2) = tasks_saved(a, e2, pname);
            (a2, e2, r2)
        },
        Err(x) => (save_failed(a, "error creating task: "@, x), e1, Ok(())),
    }
}

pub open spec fn submit_modify_project(a: AppV, answers: Seq<Seq<char>>, orig: Seq<char>, e: EngineV) -> (AppV, EngineV, Result<(), ErrorV>) {
    let n = answer(answers, 0);
    let (e1, r) = e.modify_project(orig, if n != orig {
        Some(n)
    } else {
        None
    }, Some(answer(answers, 1)));
    match r {
        Ok(_) => {
            let raw = answer(answers, 2);
            let lookup = if n != orig {
                n
            } else {
                orig
            };
            let e2 = if raw.len() > 0 {
                e1.add_tags_to_project(lookup, tag_args(raw)).0
            } else {
                e1
            };
            (projects_saved(a, e2), e2, Ok(()))
        },
        Err(x) => (save_failed(a, "error modifying project: "@, x), e1, Ok(())),
    }
}

/// The task an edit form saves to: the selected task, which stays selected while the form
/// is open; where no task is selected, the task of the form's name.
pub open spec fn edited_task(a: AppV, e: EngineV, orig: Seq<char>, pname: Seq<char>) -> Result<int, ErrorV> {
    if 0 <= a.selected < a.tasks.len() {
        Ok(a.tasks[a.selected].id)
    } else {
        match e.get_task_by_name(pname, orig) {
            Ok(t) => Ok(t.id),
            Err(x) => Err(x),
        }
    }
}

/// `modify_task_by_id` on the task `id` with the patch a task form makes.
pub open spec fn modify_from_form(e: EngineV, answers: Seq<Seq<char>>, orig: Seq<char>, id: int, today: int, now: int) -> (EngineV, Result<(), ErrorV>) {
    let n = answer(answers, 0);
    let (e1, r) = e.modify_task_by_id(
        id,
        if n != orig {
            Some(n)
        } else {
            None
        },
        Some(answer(answers, 1)),
        Some(priority_of(answer(answers, 3))),
        Some(due_of(answer(answers, 4), today)),
        None,
        None,
        now,
    );
    (e1, match r {
        Ok(_) => Ok(()),
        Err(x) => Err(x),
    })
}

/// Saving an edit form: the edited task is changed, then the tags typed are added to it.
pub open spec fn submit_modify_task(a: AppV, answers: Seq<Seq<char>>, orig: Seq<char>, pname: Seq<char>, e: EngineV, today: int, now: int) -> (AppV, EngineV, Result<(), ErrorV>) {
    match edited_task(a, e, orig, pname) {
        Err(x) => (save_failed(a, "error modifying task: "@, x), e, Ok(())),
        Ok(id) => {
            let (e1, r) = modify_from_form(e, answers, orig, id, today, now);
            match r {
                Ok(_) => {
                    let raw = answer(answers, 2);
                    let e2 = if raw.len() > 0 {
                        e1.add_task_tags(id, tag_args(raw)).0
                    } else {
                        e1
                    };
                    let (a2, r2) = tasks_saved(a, e2, pname);
                    (a2, e2, r2)
                },
                Err(x) => (save_failed(a, "error modifying task: "@, x), e1, Ok(())),
            }
        },
    }
}

/// A task changed without completing it or changing its recurrence is still there.
pub proof fn lemma_modified_task_exists(
    e: EngineV,
    id: int,
    name: Option<Seq<char>>,
    description: Option<Seq<char>>,
    priority: Option<int>,
    due: Option<Option<int>>,
    now: int,
)
    requires
        e.wf(),
        e.modify_task_by_id(id, name, description, priority, due, None, None, now).1 is Ok,
    ensures
        e.modify_task_by_id(id, name, description, priority, due, None, None, now).0.task_exists(id),
{
    let i = e.task_index(id);
    crate::engine::model::lemma_first_index(e.tasks, crate::engine::model::task_with_id(id));
    assert(crate::engine::model::task_with_id(id)(e.tasks[i]));
    let s1 = e.modify_task_by_id(id, name, description, priority, due, None, None, now).0;
    assert(s1.tasks[i].id == id);
}

/// Saving a form, by its kind.
pub open spec fn submit(a: AppV, kind: FormKindV, answers: Seq<Seq<char>>, name: Seq<char>, e: EngineV, today: int, now: int) -> (AppV, EngineV, Result<(), ErrorV>) {
    match kind {
        FormKindV::CreateProject => submit_create_project(a, answers, e, now),
        FormKindV::CreateTask => submit_create_task(a, answers, name, e, today, now),
        FormKindV::ModifyProject { original_name } => submit_modify_project(a, answers, original_name, e),
        FormKindV::ModifyTask { original_name } => submit_modify_task(a, answers, original_name, name, e, today, now),
    }
}

/// The form with new field values, its warning recomputed.
pub open spec fn form_with(a: AppV, kind: FormKindV, step: int, name: Seq<char>, answers: Seq<Seq<char>>, current: Seq<char>, insert: bool, today: int) -> AppV {
    AppV {
        mode: ModeV::Form {
            kind,
            step,
            name,
            answers,
            current,
            warning: match form_error_spec(total_of(kind), step, answers, current, insert, today) {
                Some((m, _)) => Some(m),
                None => None,
            },
            insert,
        },
        ..a
    }
}

/// Esc after typing: the typed text becomes the field's answer; a due date is first written
/// as `YYYY-MM-DD` when it reads as one.
pub open spec fn typed_value(step: int, current: Seq<char>, today: int) -> Seq<char> {
    if step == 4 && trim_spec(current).len() > 0 {
        match parse_due_date_spec(current, today) {
            Some(Ok(d)) => date_text(d),
            _ => current,
        }
    } else {
        current
    }
}

/// What a key does in a form.
pub open spec fn form_key(a: AppV, key: Key, e: EngineV, today: int, now: int) -> (AppV, EngineV, Result<(), ErrorV>) {
    let kind = a.mode->Form_kind;
    let step = a.mode->Form_step;
    let name = a.mode->Form_name;
    let answers = a.mode->Form_answers;
    let current = a.mode->Form_current;
    let total = total_of(kind);
    if a.mode->Form_insert {
        match key {
            Key::Esc => {
                let val = typed_value(step, current, today);
                let answers2 = if step < answers.len() {
                    answers.update(step, val)
                } else {
                    answers.push(val)
                };
                (form_with(a, kind, step, name, answers2, val, false, today), e, Ok(()))
            },
            Key::Char(c) => (form_with(a, kind, step, name, answers, current.push(c), true, today), e, Ok(())),
            Key::Backspace => (form_with(a, kind, step, name, answers, pop_text(current), true, today), e, Ok(())),
            _ => (form_with(a, kind, step, name, answers, current, true, today), e, Ok(())),
        }
    } else {
        match key {
            Key::Esc => (
                AppV {
                    mode: ModeV::Browsing,
                    filtered_projects: all_indices(a.projects.len() as int),
                    filtered_tasks: all_indices(a.tasks.len() as int),
                    ..a
                },
                e,
                Ok(()),
            ),
            Key::Char('j') | Key::Down => (form_with(a, kind, (step + 1) % total, name, answers, current, false, today), e, Ok(())),
            Key::Char('k') | Key::Up => (
                form_with(a, kind, if step == 0 {
                    total - 1
                } else {
                    step - 1
                }, name, answers, current, false, today),
                e,
                Ok(()),
            ),
            Key::Char('i') => (form_with(a, kind, step, name, answers, answer(answers, step), true, today), e, Ok(())),
            Key::Enter => match form_error_spec(total, step, answers, current, false, today) {
                Some((m, s)) => (
                    AppV {
                        mode: ModeV::Form { kind, step: s, name, answers, current, warning: Some(m), insert: false },
                        ..a
                    },
                    e,
                    Ok(()),
                ),
                None => submit(
                    AppV { mode: ModeV::Form { kind, step, name, answers, current, warning: None, insert: false }, ..a },
                    kind,
                    answers,
                    name,
                    e,
                    today,
                    now,
                ),
            },
            _ => (form_with(a, kind, step, name, answers, current, false, today), e, Ok(())),
        }
    }
}

fn strip_hashes_exec(w: &String) -> (r: String)
    ensures
        r@ == strip_hashes(w@),
{
    let v = chars_of(w.as_str());
    let mut i: usize = 0;
    proof {
        assert(v@.skip(0) =~= v@);
    }
    while i < v.len() && v[i] == '#'
        invariant
            i <= v@.len(),
            v@ == w@,
            strip_hashes(v@.skip(i as int)) == strip_hashes(w@),
        decreases v@.len() - i,
    {
        proof {
            assert(v@.skip(i as int).drop_first() =~= v@.skip(i + 1));
        }
        i = i + 1;
    }
    proof {
        assert(v@.subrange(i as int, v@.len() as int) =~= v@.skip(i as int));
    }
    string_of(&v, i, v.len())
}

/// The tag names of a tags field.
fn tag_arg_strings(raw: &str) -> (r: Vec<String>)
    ensures
        texts(r@) == tag_args(raw@),
{
    let ws = split_words(&chars_of(raw));
    let mut r: Vec<String> = Vec::new();
    let mut i: usize = 0;
    while i < ws.len()
        invariant
            i <= ws@.len(),
            texts(ws@) == words(raw@),
            texts(r@) == tag_args(raw@).take(i as int),
        decreases ws@.len() - i,
    {
        let t = strip_hashes_exec(&ws[i]);
        proof {
            assert(texts(ws@)[i as int] == ws@[i as int]@);
            assert(texts(r@.push(t)) =~= texts(r@).push(t@));
            assert(tag_args(raw@).take(i + 1) =~= tag_args(raw@).take(i as int).push(t@));
        }
        r.push(t);
        i = i + 1;
    }
    proof {
        assert(tag_args(raw@).take(ws@.len() as int) =~= tag_args(raw@));
    }
    r
}

/// Borrowed views of some strings.
fn str_refs(v: &Vec<String>) -> (r: Vec<&str>)
    ensures
        names_of(r@) == texts(v@),
{
    let mut r: Vec<&str> = Vec::new();
    let mut i: usize = 0;
    while i < v.len()
        invariant
            i <= v@.len(),
            names_of(r@) == texts(v@).take(i as int),
        decreases v@.len() - i,
    {
        let s = v[i].as_str();
        proof {
            assert(names_of(r@.push(s)) =~= names_of(r@).push(s@));
            assert(texts(v@).take(i + 1) =~= texts(v@).take(i as int).push(v@[i as int]@));
        }
        r.push(s);
        i = i + 1;
    }
    proof {
        assert(texts(v@).take(v@.len() as int) =~= texts(v@));
    }
    r
}

fn answer_at(answers: &Vec<String>, i: usize) -> (r: String)
    ensures
        r@ == answer(texts(answers@), i as int),
{
    if i < answers.len() {
        answers[i].clone()
    } else {
        let r = String::new();
        proof {
            assert(r@ =~= Seq::<char>::empty());
        }
        r
    }
}

fn priority_from(s: &String) -> (r: i64)
    ensures
        r == priority_of(s@),
{
    match parse_i64(s.as_str()) {
        Some(v) => v,
        None => 3,
    }
}

fn due_from(s: &String, today: Date) -> (r: Option<i128>)
    requires
        days_in_range(today.days as int),
    ensures
        crate::engine::tasks::opt_int_of(r) == due_of(s@, today.days as int),
{
    if s.unicode_len() == 0 {
        return None;
    }
    match try_parse_due_date(s.as_str(), today) {
        Some(Ok(d)) => Some(midnight(d)),
        _ => None,
    }
}

fn error_line(what: &str, e: &StoreError) -> (r: Option<String>)
    ensures
        r matches Some(m) && m@ == what@ + error_text(e@),
{
    let m = e.message();
    Some(concat(what, m.as_str()))
}

fn save_projects(state: &mut AppState, engine: &Engine)
    requires
        old(state)@.wf(),
    ensures
        final(state)@ == projects_saved(old(state)@, engine@),
        final(state)@.wf(),
{
    let ps = match engine.list_projects() {
        Ok(ps) => ps,
        Err(_) => Vec::new(),
    };
    let n = ps.len();
    state.projects = ps;
    state.filtered_projects = indices(n);
    state.mode = AppMode::Browsing;
    state.selected = 0;
    proof {
        lemma_all_indices(n as int);
    }
}

fn save_tasks(state: &mut AppState, engine: &Engine, pname: &String) -> (r: Result<(), StoreError>)
    requires
        old(state)@.wf(),
    ensures
        (final(state)@, unit_err(r)) == tasks_saved(old(state)@, engine@, pname@),
        final(state)@.wf(),
{
    let ts = match engine.list_tasks(pname.as_str()) {
        Ok(ts) => ts,
        Err(x) => return Err(x),
    };
    let n = ts.len();
    state.tasks = ts;
    state.filtered_tasks = indices(n);
    state.mode = AppMode::Browsing;
    state.selected = 0;
    proof {
        lemma_all_indices(n as int);
    }
    Ok(())
}

fn create_project_from(state: &mut AppState, engine: &mut Engine, answers: &Vec<String>, now: i128) -> (r: Result<(), StoreError>)
    requires
        old(engine)@.wf(),
        old(state)@.wf(),
        ts_in_range(now as int),
    ensures
        final(engine)@.wf(),
        (final(state)@, final(engine)@, unit_err(r)) == submit_create_project(old(state)@, texts(answers@), old(engine)@, now as int),
        final(state)@.wf(),
{
    let name = answer_at(answers, 0);
    let description = answer_at(answers, 1);
    let raw = answer_at(answers, 2);
    match engine.create_project(name.as_str(), description.as_str(), now) {
        Ok(_) => {
            if raw.unicode_len() > 0 {
                let tags = tag_arg_strings(raw.as_str());
                let refs = str_refs(&tags);
                let _ = engine.add_tags_to_project(name.as_str(), refs.as_slice());
            }
            save_projects(state, engine);
        },
        Err(e) => {
            state.mode = AppMode::Browsing;
            state.last_error = error_line("error creating project: ", &e);
        },
    }
    Ok(())
}

fn create_task_from(state: &mut AppState, engine: &mut Engine, answers: &Vec<String>, pname: &String, today: Date, now: i128) -> (r: Result<(), StoreError>)
    requires
        old(engine)@.wf(),
        old(state)@.wf(),
        ts_in_range(now as int),
        days_in_range(today.days as int),
    ensures
        final(engine)@.wf(),
        (final(state)@, final(engine)@, unit_err(r)) == submit_create_task(old(state)@, texts(answers@), pname@, old(engine)@, today.days as int, now as int),
        final(state)@.wf(),
{
    let name = answer_at(answers, 0);
    let description = answer_at(answers, 1);
    let raw = answer_at(answers, 2);
    let priority = priority_from(&answer_at(answers, 3));
    let due = due_from(&answer_at(answers, 4), today);
    match engine.create_task(pname.as_str(), name.as_str(), description.as_str(), priority, due, None, now) {
        Ok(_) => {
            if raw.unicode_len() > 0 {
                let tags = tag_arg_strings(raw.as_str());
                let refs = str_refs(&tags);
                let _ = engine.add_tags_to_task(pname.as_str(), name.as_str(), refs.as_slice());
            }
            save_tasks(state, engine, pname)
        },
        Err(e) => {
            state.mode = AppMode::Browsing;
            state.last_error = error_line("error creating task: ", &e);
            Ok(())
        },
    }
}

fn modify_project_from(state: &mut AppState, engine: &mut Engine, answers: &Vec<String>, orig: &String) -> (r: Result<(), StoreError>)
    requires
        old(engine)@.wf(),
        old(state)@.wf(),
    ensures
        final(engine)@.wf(),
        (final(state)@, final(engine)@, unit_err(r)) == submit_modify_project(old(state)@, texts(answers@), orig@, old(engine)@),
        final(state)@.wf(),
{
    let name = answer_at(answers, 0);
    let description = answer_at(answers, 1);
    let raw = answer_at(answers, 2);
    let renamed = name != *orig;
    let patch = ProjectPatch {
        name: if renamed {
            Some(name.clone())
        } else {
            None
        },
        description: Some(description),
    };
    match engine.modify_project(orig.as_str(), patch) {
        Ok(_) => {
            if raw.unicode_len() > 0 {
                let lookup = if renamed {
                    name
                } else {
                    orig.clone()
                };
                let tags = tag_arg_strings(raw.as_str());
                let refs = str_refs(&tags);
                let _ = engine.add_tags_to_project(lookup.as_str(), refs.as_slice());
            }
            save_projects(state, engine);
        },
        Err(e) => {
            state.mode = AppMode::Browsing;
            state.last_error = error_line("error modifying project: ", &e);
        },
    }
    Ok(())
}

fn modify_task_from(state: &mut AppState, engine: &mut Engine, answers: &Vec<String>, orig: &String, pname: &String, today: Date, now: i128) -> (r: Result<(), StoreError>)
    requires
        old(engine)@.wf(),
        old(state)@.wf(),
        ts_in_range(now as int),
        days_in_range(today.days as int),
    ensures
        final(engine)@.wf(),
        (final(state)@, final(engine)@, unit_err(r)) == submit_modify_task(old(state)@, texts(answers@), orig@, pname@, old(engine)@, today.days as int, now as int),
        final(state)@.wf(),
{
    let name = answer_at(answers, 0);
    let description = answer_at(answers, 1);
    let raw = answer_at(answers, 2);
    let priority = priority_from(&answer_at(answers, 3));
    let due = due_from(&answer_at(answers, 4), today);
    let renamed = name != *orig;
    let patch = TaskPatch {
        name: if renamed {
            Some(name.clone())
        } else {
            None
        },
        description: Some(description),
        priority: Some(priority),
        due_date: Some(due),
        recurrence: None,
        done: None,
    };
    let target: Result<i64, StoreError> = if state.selected < state.tasks.len() {
        Ok(state.tasks[state.selected].id)
    } else {
        match engine.get_task_by_name(pname.as_str(), orig.as_str()) {
            Ok(t) => Ok(t.id),
            Err(e) => Err(e),
        }
    };
    let id = match target {
        Ok(id) => id,
        Err(e) => {
            state.mode = AppMode::Browsing;
            state.last_error = error_line("error modifying task: ", &e);
            return Ok(());
        },
    };
    let ghost e0 = engine@;
    match engine.modify_task_by_id(id, patch, now) {
        Ok(_) => {
            if raw.unicode_len() > 0 {
                proof {
                    lemma_modified_task_exists(
                        e0,
                        id as int,
                        if renamed { Some(name@) } else { None },
                        Some(answer(texts(answers@), 1)),
                        Some(priority as int),
                        Some(crate::engine::tasks::opt_int_of(due)),
                        now as int,
                    );
                }
                let tags = tag_arg_strings(raw.as_str());
                let refs = str_refs(&tags);
                let _ = engine.add_task_tags(id, refs.as_slice());
            }
            save_tasks(state, engine, pname)
        },
        Err(e) => {
            state.mode = AppMode::Browsing;
            state.last_error = error_line("error modifying task: ", &e);
            Ok(())
        },
    }
}

fn copy_strings(v: &Vec<String>) -> (r: Vec<String>)
    ensures
        r@ == v@,
{
    let mut r: Vec<String> = Vec::new();
    let mut i: usize = 0;
    while i < v.len()
        invariant
            i <= v@.len(),
            r@ == v@.take(i as int),
        decreases v@.len() - i,
    {
        r.push(v[i].clone());
        proof {
            assert(r@ =~= v@.take(i + 1));
        }
        i = i + 1;
    }
    proof {
        assert(v@.take(v@.len() as int) =~= v@);
    }
    r
}

/// Writes the form back with new field values and its warning recomputed.
fn set_form(
    state: &mut AppState,
    kind: FormKind,
    step: usize,
    name: String,
    answers: Vec<String>,
    current: String,
    insert: bool,
    today: Date,
)
    requires
        old(state)@.wf(),
        days_in_range(today.days as int),
        step < total_of(kind@),
    ensures
        final(state)@ == form_with(old(state)@, kind@, step as int, name@, texts(answers@), current@, insert, today.days as int),
        final(state)@.wf(),
{
    let warning = match get_form_error(&kind, step, &answers, current.as_str(), insert, today) {
        Some((m, _)) => Some(m),
        None => None,
    };
    state.mode = AppMode::MultiStepForm { kind, step, name, answers, current_input: current, warning, in_insert_mode: insert };
}

/// Handles a key in a form.
#[verifier::rlimit(60)]
pub fn handle_form(state: &mut AppState, key: Key, engine: &mut Engine, today: Date, now: i128) -> (r: Result<(), StoreError>)
    requires
        old(engine)@.wf(),
        old(state)@.wf(),
        old(state)@.mode is Form,
        days_in_range(today.days as int),
        ts_in_range(now as int),
    ensures
        final(engine)@.wf(),
        (final(state)@, final(engine)@, unit_err(r)) == form_key(old(state)@, key, old(engine)@, today.days as int, now as int),
        final(state)@.wf(),
{
    let ghost a = state@;
    let (kind, step, name, answers, current, insert) = match &state.mode {
        AppMode::MultiStepForm { kind, step, name, answers, current_input, in_insert_mode, .. } => (
            kind.copy(),
            *step,
            name.clone(),
            copy_strings(answers),
            current_input.clone(),
            *in_insert_mode,
        ),
        _ => {
            return Ok(());
        },
    };
    let total = form_total_steps(&kind);
    if insert {
        match key {
            Key::Esc => {
                let mut val = current.clone();
                if step == 4 && trim(val.as_str()).unicode_len() > 0 {
                    if let Some(Ok(d)) = try_parse_due_date(val.as_str(), today) {
                        val = format_date(d);
                    }
                }
                let mut answers2 = answers;
                let ghost before = texts(answers2@);
                if step < answers2.len() {
                    answers2.set(step, val.clone());
                    proof {
                        assert(texts(answers2@) =~= before.update(step as int, val@));
                    }
                } else {
                    answers2.push(val.clone());
                    proof {
                        assert(texts(answers2@) =~= before.push(val@));
                    }
                }
                set_form(state, kind, step, name, answers2, val, false, today);
            },
            Key::Char(c) => {
                let mut cur = current;
                push_char(&mut cur, c);
                set_form(state, kind, step, name, answers, cur, true, today);
            },
            Key::Backspace => {
                let cur = super::search::pop_string(&current);
                set_form(state, kind, step, name, answers, cur, true, today);
            },
            _ => {
                set_form(state, kind, step, name, answers, current, true, today);
            },
        }
        return Ok(());
    }
    match key {
        Key::Esc => {
            let np = state.projects.len();
            let nt = state.tasks.len();
            state.mode = AppMode::Browsing;
            state.filtered_projects = indices(np);
            state.filtered_tasks = indices(nt);
            proof {
                lemma_all_indices(np as int);
                lemma_all_indices(nt as int);
            }
            Ok(())
        },
        Key::Char('j') | Key::Down => {
            set_form(state, kind, (step + 1) % total, name, answers, current, false, today);
            Ok(())
        },
        Key::Char('k') | Key::Up => {
            let s = if step == 0 {
                total - 1
            } else {
                step - 1
            };
            set_form(state, kind, s, name, answers, current, false, today);
            Ok(())
        },
        Key::Char('i') => {
            let initial = answer_at(&answers, step);
            set_form(state, kind, step, name, answers, initial, true, today);
            Ok(())
        },
        Key::Enter => {
            match get_form_error(&kind, step, &answers, current.as_str(), false, today) {
                Some((m, s)) => {
                    state.mode = AppMode::MultiStepForm {
                        kind,
                        step: s,
                        name,
                        answers,
                        current_input: current,
                        warning: Some(m),
                        in_insert_mode: false,
                    };
                    Ok(())
                },
                None => {
                    let k2 = kind.copy();
                    let answers2 = copy_strings(&answers);
                    let name2 = name.clone();
                    state.mode = AppMode::MultiStepForm {
                        kind,
                        step,
                        name,
                        answers,
                        current_input: current,
                        warning: None,
                        in_insert_mode: false,
                    };
                    match k2 {
                        FormKind::CreateProject => create_project_from(state, engine, &answers2, now),
                        FormKind::CreateTask => create_task_from(state, engine, &answers2, &name2, today, now),
                        FormKind::ModifyProject { original_name } => modify_project_from(state, engine, &answers2, &original_name),
                        FormKind::ModifyTask { original_name } => modify_task_from(state, engine, &answers2, &original_name, &name2, today, now),
                    }
                },
            }
        },
        _ => {
            set_form(state, kind, step, name, answers, current, false, today);
            Ok(())
        },
    }
}

} // verus!
