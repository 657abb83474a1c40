//! Reading the screen's derived data again from the store.
use vstd::prelude::*;
use crate::dates::Date;
use crate::engine::Engine;
use crate::engine::agenda::stats_of;
use crate::engine::model::{lemma_map_push, ErrorV, TaskV};
use crate::models::{Project, Stats, StoreError, Tag};

use super::state::{all_indices, AppContext, AppState};
use super::view::{
    counts_view, filtered_project, refresh, refresh_day, rows_view, stats_value, tag_names,
    task_counts, texts, AppV,
};

verus! {

pub open spec fn unit_err(r: Result<(), StoreError>) -> Result<(), ErrorV> {
    match r {
        Ok(_) => Ok(()),
        Err(e) => Err(e@),
    }
}

pub proof fn lemma_stats_value(st: Stats, ts: Seq<TaskV>, today: int)
    requires
        stats_of(st, ts, today),
    ensures
        st == stats_value(ts, today),
{
}

/// The indices `0..n`.
pub fn indices(n: usize) -> (r: Vec<usize>)
    ensures
        r@ == all_indices(n as int),
{
    let mut r: Vec<usize> = Vec::new();
    let mut i: usize = 0;
    while i < n
        invariant
            i <= n,
            r@ == all_indices(i as int),
        decreases n - i,
    {
        r.push(i);
        proof {
            assert(r@ =~= all_indices(i + 1));
        }
        i = i + 1;
    }
    r
}

/// The names of some tags.
pub fn tag_name_list(tags: &Vec<Tag>) -> (r: Vec<String>)
    ensures
        texts(r@) == tag_names(tags@.map_values(|t: Tag| t@)),
{
    let mut r: Vec<String> = Vec::new();
    let mut i: usize = 0;
    while i < tags.len()
        invariant
            i <= tags@.len(),
            texts(r@) == tag_names(tags@.map_values(|t: Tag| t@)).take(i as int),
        decreases tags@.len() - i,
    {
        let c = tags[i].name.clone();
        proof {
            lemma_map_push(r@, c, |s: String| s@);
            assert(tag_names(tags@.map_values(|t: Tag| t@)).take(i + 1) =~= tag_names(tags@.map_values(|t: Tag| t@)).take(i as int).push(c@));
        }
        r.push(c);
        i = i + 1;
    }
    proof {
        assert(tag_names(tags@.map_values(|t: Tag| t@)).take(tags@.len() as int) =~= tag_names(tags@.map_values(|t: Tag| t@)));
    }
    r
}

pub(crate) fn project_counts(engine: &Engine, projects: &Vec<Project>, today: Date) -> (r: Vec<(String, i64)>)
    requires
        engine@.wf(),
    ensures
        counts_view(r@) == task_counts(engine@, projects@.map_values(|p: Project| p@)),
{
    let ghost ps = projects@.map_values(|p: Project| p@);
    let mut r: Vec<(String, i64)> = Vec::new();
    let mut i: usize = 0;
    while i < projects.len()
        invariant
            i <= projects@.len(),
            engine@.wf(),
            ps == projects@.map_values(|p: Project| p@),
            counts_view(r@) == task_counts(engine@, ps.take(i as int)),
        decreases projects@.len() - i,
    {
        let st = match engine.project_stats(projects[i].name.as_str(), today) {
            Ok(st) => st,
            Err(_) => Stats::zero(),
        };
        let c = (projects[i].name.clone(), st.total);
        proof {
            lemma_map_push(r@, c, |c: (String, i64)| (c.0@, c.1 as int));
            assert(ps[i as int] == projects@[i as int]@);
            assert(task_counts(engine@, ps.take(i + 1)) =~= task_counts(engine@, ps.take(i as int)).push((c.0@, c.1 as int)));
        }
        r.push(c);
        i = i + 1;
    }
    proof {
        assert(ps.take(projects@.len() as int) =~= ps);
    }
    r
}

/// Reads again the counts, the agenda and what describes the selected entry; on the home
/// screen also the tasks of the selected project.
pub fn update_stats(state: &mut AppState, engine: &Engine, today: Date) -> (r: Result<(), StoreError>)
    requires
        engine@.wf(),
    ensures
        (final(state)@, unit_err(r)) == refresh(old(state)@, engine@, today.days as int),
        old(state)@.wf() ==> final(state)@.wf(),
{
    let ghost a = state@;
    let ghost e = engine@;
    let st = match engine.global_stats(today) {
        Ok(st) => st,
        Err(x) => return Err(x),
    };
    proof {
        lemma_stats_value(st, e.tasks, today.days as int);
    }
    state.stats = st;
    state.projects_task_counts = project_counts(engine, &state.projects, today);
    state.pending_today = match engine.list_pending_today_tasks(today) {
        Ok(v) => v,
        Err(x) => return Err(x),
    };
    let ghost a1 = state@;
    assert(a1 == AppV {
        stats: stats_value(e.tasks, today.days as int),
        projects_task_counts: task_counts(e, a.projects),
        pending_today: e.list_pending_today_tasks(today.days as int),
        ..a
    });
    let ctx_name: Option<String> = match &state.context {
        AppContext::Home => None,
        AppContext::Project { name, .. } => Some(name.clone()),
    };
    match ctx_name {
        None => {
            let sel = state.selected;
            if sel < state.filtered_projects.len() && state.filtered_projects[sel] < state.projects.len() {
                let name = state.projects[state.filtered_projects[sel]].name.clone();
                proof {
                    assert(filtered_project(a) == Some(a.projects[a.filtered_projects[a.selected] as int]));
                }
                let pst = match engine.project_stats(name.as_str(), today) {
                    Ok(s) => s,
                    Err(x) => return Err(x),
                };
                proof {
                    lemma_stats_value(pst, e.project_tasks(name@), today.days as int);
                }
                state.project_stats = pst;
                let tasks = match engine.list_tasks(name.as_str()) {
                    Ok(ts) => ts,
                    Err(x) => return Err(x),
                };
                let n = tasks.len();
                state.tasks = tasks;
                state.filtered_tasks = indices(n);
                proof {
                    super::view::lemma_all_indices(n as int);
                }
                let tags = match engine.get_tags_for_project(name.as_str()) {
                    Ok(t) => t,
                    Err(x) => return Err(x),
                };
                state.selected_item_tags = tag_name_list(&tags);
            } else {
                proof {
                    assert(filtered_project(a) is None);
                }
                state.project_stats = Stats::zero();
                state.tasks = Vec::new();
                state.filtered_tasks = Vec::new();
                state.selected_item_tags = Vec::new();
                proof {
                    assert(state@.tasks =~= Seq::<TaskV>::empty());
                    assert(state@.filtered_tasks =~= Seq::<usize>::empty());
                    assert(state@.selected_item_tags =~= Seq::<Seq<char>>::empty());
                }
            }
        },
        Some(name) => {
            let pst = match engine.project_stats(name.as_str(), today) {
                Ok(s) => s,
                Err(x) => return Err(x),
            };
            proof {
                lemma_stats_value(pst, e.project_tasks(name@), today.days as int);
            }
            state.project_stats = pst;
            let sel = state.selected;
            if sel < state.filtered_tasks.len() && state.filtered_tasks[sel] < state.tasks.len() {
                let tname = state.tasks[state.filtered_tasks[sel]].name.clone();
                let tags = match engine.get_tags_for_task(name.as_str(), tname.as_str()) {
                    Ok(t) => t,
                    Err(x) => return Err(x),
                };
                state.selected_item_tags = tag_name_list(&tags);
            } else {
                state.selected_item_tags = Vec::new();
                proof {
                    assert(state@.selected_item_tags =~= Seq::<Seq<char>>::empty());
                }
            }
        },
    }
    Ok(())
}

/// Reads the tasks due on the day under the calendar's cursor.
pub fn refresh_calendar_day(state: &mut AppState, engine: &Engine) -> (r: Result<(), StoreError>)
    requires
        engine@.wf(),
    ensures
        r is Ok,
        final(state)@ == refresh_day(old(state)@, engine@),
{
    let (year, month, day) = (state.calendar.year, state.calendar.month, state.calendar.cursor_day);
    if day == 0 {
        state.calendar.day_tasks = Some(Vec::new());
        proof {
            assert(rows_view(Seq::empty()) =~= Seq::empty());
        }
        return Ok(());
    }
    let tasks = match engine.list_tasks_due_on(year, month, day) {
        Ok(t) => t,
        Err(x) => return Err(x),
    };
    state.calendar.day_tasks = Some(tasks);
    Ok(())
}

} // verus!
