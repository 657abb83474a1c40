//! Keys while searching, and while a deletion waits for confirmation.
use vstd::prelude::*;
use crate::dates::Date;
use crate::engine::Engine;
use crate::engine::model::{EngineV, ErrorV, ProjectV, TaskV};
use crate::models::StoreError;
use crate::text::{chars_of, push_char, string_of};
use super::browsing::{lemma_matching_bound, next_index, prev_index};
use super::refresh::{indices, unit_err, update_stats};
use super::state::{all_indices, recompute_filter, AppContext, AppMode, AppState, FormKind, Key};
use super::view::{lemma_all_indices, refilter, refresh, texts, AppV, ContextV, FormKindV, ModeV};

verus! {

/// The text without its last character.
pub open spec fn pop_text(s: Seq<char>) -> Seq<char> {
    if s.len() > 0 {
        s.drop_last()
    } else {
        s
    }
}

/// The length of the filtered list of the current context.
pub open spec fn filtered_len(a: AppV) -> int {
    match a.context {
        ContextV::Home => a.filtered_projects.len() as int,
        ContextV::Project { .. } => a.filtered_tasks.len() as int,
    }
}

/// Enter in a search: opens the selected match, or, when nothing matches, starts the form
/// that creates a project (or task) with the searched name.
pub open spec fn search_enter(a: AppV, buffer: Seq<char>, e: EngineV, today: int) -> (AppV, Result<(), ErrorV>) {
    match a.context {
        ContextV::Home => if a.filtered_projects.len() > 0 {
            let p = a.projects[a.filtered_projects[a.selected] as int];
            let (a2, r) = refresh(AppV { context: ContextV::Project { name: p.name, id: p.id }, ..a }, e, today);
            match r {
                Err(x) => (a2, Err(x)),
                Ok(_) => (AppV { mode: ModeV::Browsing, selected: 0, ..a2 }, Ok(())),
            }
        } else if buffer.len() > 0 {
            (
                AppV {
                    mode: ModeV::Form {
                        kind: FormKindV::CreateProject,
                        step: 0,
                        name: buffer,
                        answers: seq![buffer, Seq::empty(), Seq::empty()],
                        current: Seq::empty(),
                        warning: None,
                        insert: false,
                    },
                    ..a
                },
                Ok(()),
            )
        } else {
            (a, Ok(()))
        },
        ContextV::Project { name, .. } => if a.filtered_tasks.len() > 0 {
            (
                AppV {
                    selected: a.filtered_tasks[a.selected] as int,
                    filtered_tasks: all_indices(a.tasks.len() as int),
                    mode: ModeV::Browsing,
                    ..a
                },
                Ok(()),
            )
        } else if buffer.len() > 0 {
            (
                AppV {
                    mode: ModeV::Form {
                        kind: FormKindV::CreateTask,
                        step: 0,
                        name,
                        answers: seq![buffer, Seq::empty(), Seq::empty(), "3"@, Seq::empty(), Seq::empty()],
                        current: Seq::empty(),
                        warning: None,
                        insert: false,
                    },
                    ..a
                },
                Ok(()),
            )
        } else {
            (a, Ok(()))
        },
    }
}

/// What a key does while searching: typing narrows the list, arrows move in it, Enter opens
/// or creates, Esc ends the search.
pub open spec fn search_key(a: AppV, key: Key, e: EngineV, today: int) -> (AppV, Result<(), ErrorV>) {
    let buffer = a.mode->Search_buffer;
    match key {
        Key::Esc => (
            AppV {
                mode: ModeV::Browsing,
                filtered_projects: all_indices(a.projects.len() as int),
                filtered_tasks: all_indices(a.tasks.len() as int),
                selected: 0,
                ..a
            },
            Ok(()),
        ),
        Key::Backspace => (refilter(AppV { mode: ModeV::Search { buffer: pop_text(buffer) }, ..a }), Ok(())),
        Key::Down => (AppV { selected: next_index(a.selected, filtered_len(a)), ..a }, Ok(())),
        Key::Up => (AppV { selected: prev_index(a.selected, filtered_len(a)), ..a }, Ok(())),
        Key::Enter => search_enter(a, buffer, e, today),
        Key::Char(c) => (refilter(AppV { mode: ModeV::Search { buffer: buffer.push(c) }, ..a }), Ok(())),
        _ => (a, Ok(())),
    }
}

/// What a key does while a deletion waits: `y` deletes, `n` or Esc cancels.
pub open spec fn confirm_key(a: AppV, key: Key, e: EngineV, today: int) -> (AppV, EngineV, Result<(), ErrorV>) {
    let target = a.mode->Confirm_target;
    match key {
        Key::Char('y') => match a.context {
            ContextV::Home => {
                let e1 = e.delete_project(target).0;
                let ps = e1.list_projects();
                let last = if ps.len() > 0 {
                    ps.len() - 1
                } else {
                    0
                };
                (
                    AppV {
                        projects: ps,
                        filtered_projects: all_indices(ps.len() as int),
                        selected: if a.selected < last {
                            a.selected
                        } else {
                            last
                        },
                        mode: ModeV::Browsing,
                        ..a
                    },
                    e1,
                    Ok(()),
                )
            },
            ContextV::Project { .. } => {
                let e1 = if 0 <= a.selected < a.tasks.len() {
                    e.delete_task_by_id(a.tasks[a.selected].id).0
                } else {
                    e
                };
                let (a1, r) = refresh(a, e1, today);
                match r {
                    Err(x) => (a1, e1, Err(x)),
                    Ok(_) => {
                        let last = if a1.tasks.len() > 0 {
                            a1.tasks.len() - 1
                        } else {
                            0
                        };
                        (
                            AppV {
                                selected: if a1.selected < last {
                                    a1.selected
                                } else {
                                    last
                                },
                                mode: ModeV::Browsing,
                                ..a1
                            },
                            e1,
                            Ok(()),
                        )
                    },
                }
            },
        },
        Key::Char('n') | Key::Esc => (AppV { mode: ModeV::Browsing, ..a }, e, Ok(())),
        _ => (a, e, Ok(())),
    }
}

pub(crate) fn pop_string(s: &String) -> (r: String)
    ensures
        r@ == pop_text(s@),
{
    let v = chars_of(s.as_str());
    if v.len() > 0 {
        string_of(&v, 0, v.len() - 1)
    } else {
        s.clone()
    }
}

/// Sets the search text and filters again.
fn set_search(state: &mut AppState, buffer: String)
    requires
        old(state)@.wf(),
    ensures
        final(state)@ == refilter(AppV { mode: ModeV::Search { buffer: buffer@ }, ..old(state)@ }),
        final(state)@.wf(),
{
    state.mode = AppMode::Search { buffer };
    recompute_filter(state);
    proof {
        lemma_matching_bound(state@.projects.map_values(|p: ProjectV| p.name), crate::text::lowercase(buffer@), state@.projects.len() as int);
        lemma_matching_bound(state@.tasks.map_values(|t: TaskV| t.name), crate::text::lowercase(buffer@), state@.tasks.len() as int);
        assert(super::state::project_names_of(state.projects@) =~= state@.projects.map_values(|p: ProjectV| p.name));
        assert(super::state::task_names_of(state.tasks@) =~= state@.tasks.map_values(|t: TaskV| t.name));
    }
}

fn search_enter_exec(state: &mut AppState, buffer: String, engine: &Engine, today: Date) -> (r: Result<(), StoreError>)
    requires
        engine@.wf(),
        old(state)@.wf(),
        old(state)@.mode is Search,
    ensures
        (final(state)@, unit_err(r)) == search_enter(old(state)@, buffer@, engine@, today.days as int),
        r is Ok ==> final(state)@.wf(),
{
    let ghost a = state@;
    let pname: Option<String> = match &state.context {
        AppContext::Home => None,
        AppContext::Project { name, .. } => Some(name.clone()),
    };
    match pname {
        None => {
            if state.filtered_projects.len() > 0 {
                let idx = state.filtered_projects[state.selected];
                let name = state.projects[idx].name.clone();
                let id = state.projects[idx].id;
                state.context = AppContext::Project { name, id };
                match update_stats(state, engine, today) {
                    Ok(_) => {},
                    Err(x) => return Err(x),
                }
                state.mode = AppMode::Browsing;
                state.selected = 0;
            } else if buffer.unicode_len() > 0 {
                let empty = String::new();
                proof {
                    assert(empty@ =~= Seq::<char>::empty());
                }
                let answers = vec![buffer.clone(), empty.clone(), empty.clone()];
                proof {
                    assert(texts(answers@) =~= seq![buffer@, Seq::<char>::empty(), Seq::<char>::empty()]);
                }
                state.mode = AppMode::MultiStepForm {
                    kind: FormKind::CreateProject,
                    step: 0,
                    name: buffer,
                    answers,
                    current_input: empty,
                    warning: None,
                    in_insert_mode: false,
                };
            }
        },
        Some(name) => {
            if state.filtered_tasks.len() > 0 {
                let n = state.tasks.len();
                state.selected = state.filtered_tasks[state.selected];
                state.filtered_tasks = indices(n);
                state.mode = AppMode::Browsing;
                proof {
                    lemma_all_indices(n as int);
                }
            } else if buffer.unicode_len() > 0 {
                let empty = String::new();
                proof {
                    assert(empty@ =~= Seq::<char>::empty());
                }
                let answers = vec![buffer.clone(), empty.clone(), empty.clone(), crate::text::to_owned_string("3"), empty.clone(), empty.clone()];
                proof {
                    assert(texts(answers@) =~= seq![buffer@, Seq::<char>::empty(), Seq::<char>::empty(), "3"@, Seq::<char>::empty(), Seq::<char>::empty()]);
                }
                state.mode = AppMode::MultiStepForm {
                    kind: FormKind::CreateTask,
                    step: 0,
                    name,
                    answers,
                    current_input: empty,
                    warning: None,
                    in_insert_mode: false,
                };
            }
        },
    }
    Ok(())
}

/// Handles a key while searching.
pub fn handle_search(state: &mut AppState, key: Key, engine: &Engine, today: Date) -> (r: Result<(), StoreError>)
    requires
        engine@.wf(),
        old(state)@.wf(),
        old(state)@.mode is Search,
    ensures
        (final(state)@, unit_err(r)) == search_key(old(state)@, key, engine@, today.days as int),
        r is Ok ==> final(state)@.wf(),
{
    let buffer = match &state.mode {
        AppMode::Search { buffer } => buffer.clone(),
        _ => String::new(),
    };
    match key {
        Key::Esc => {
            let np = state.projects.len();
            let nt = state.tasks.len();
            state.mode = AppMode::Browsing;
            state.filtered_projects = indices(np);
            state.filtered_tasks = indices(nt);
            state.selected = 0;
            proof {
                lemma_all_indices(np as int);
                lemma_all_indices(nt as int);
            }
        },
        Key::Backspace => {
            let b = pop_string(&buffer);
            set_search(state, b);
        },
        Key::Down | Key::Up => {
            let len = match &state.context {
                AppContext::Home => state.filtered_projects.len(),
                AppContext::Project { .. } => state.filtered_tasks.len(),
            };
            if len > 0 {
                if key == Key::Down {
                    state.selected = (state.selected + 1) % len;
                } else if state.selected > 0 {
                    state.selected = state.selected - 1;
                }
            }
        },
        Key::Enter => {
            return search_enter_exec(state, buffer, engine, today);
        },
        Key::Char(c) => {
            let mut b = buffer;
            push_char(&mut b, c);
            set_search(state, b);
        },
        _ => {},
    }
    Ok(())
}

/// Handles a key while a deletion waits for confirmation.
pub fn handle_confirm(state: &mut AppState, key: Key, engine: &mut Engine, today: Date) -> (r: Result<(), StoreError>)
    requires
        old(engine)@.wf(),
        old(state)@.wf(),
        old(state)@.mode is Confirm,
    ensures
        final(engine)@.wf(),
        (final(state)@, final(engine)@, unit_err(r)) == confirm_key(old(state)@, key, old(engine)@, today.days as int),
        r is Ok ==> final(state)@.wf(),
{
    let target = match &state.mode {
        AppMode::ConfirmPrompt { target_name, .. } => target_name.clone(),
        _ => String::new(),
    };
    let in_home = match &state.context {
        AppContext::Home => true,
        AppContext::Project { .. } => false,
    };
    match key {
        Key::Char('y') => {
            if in_home {
                let _ = engine.delete_project(target.as_str());
                let ps = match engine.list_projects() {
                    Ok(ps) => ps,
                    Err(x) => return Err(x),
                };
                let n = ps.len();
                state.projects = ps;
                state.filtered_projects = indices(n);
                let last = if n > 0 {
                    n - 1
                } else {
                    0
                };
                if state.selected > last {
                    state.selected = last;
                }
                proof {
                    lemma_all_indices(n as int);
                }
            } else {
                if state.selected < state.tasks.len() {
                    let id = state.tasks[state.selected].id;
                    let _ = engine.delete_task_by_id(id);
                }
                match update_stats(state, engine, today) {
                    Ok(_) => {},
                    Err(x) => return Err(x),
                }
                let n = state.tasks.len();
                let last = if n > 0 {
                    n - 1
                } else {
                    0
                };
                if state.selected > last {
                    state.selected = last;
                }
            }
            state.mode = AppMode::Browsing;
        },
        Key::Char('n') | Key::Esc => {
            state.mode = AppMode::Browsing;
        },
        _ => {},
    }
    Ok(())
}

} // verus!
