//! Texts the screen shows: how soon something is due, the hint line, the calendar's rows.
use vstd::prelude::*;
use crate::dates::{day_of, Date, NANOS_PER_DAY};
use crate::text::{concat, i128_to_string, int_text, to_owned_string};
use super::calendar::{days_in_month, month_days, month_offset, month_ok};
use super::state::{AppContext, AppMode, AppState, FormKind, RightPane};

verus! {

/// How soon a due date is, counted in days from `today` to its UTC date.
pub open spec fn due_label_spec(due: Option<int>, today: int) -> Seq<char> {
    match due {
        None => "no due date"@,
        Some(ts) => {
            let diff = ts / (NANOS_PER_DAY as int) - today;
            if diff < 0 {
                "overdue "@ + int_text(-diff) + "d"@
            } else if diff == 0 {
                "due today"@
            } else {
                "due in "@ + int_text(diff) + "d"@
            }
        },
    }
}

/// How soon a due date is: `overdue 2d`, `due today`, `due in 3d`, or `no due date`.
pub fn due_label(due: Option<i128>, today: Date) -> (r: String)
    ensures
        r@ == due_label_spec(crate::engine::tasks::opt_int_of(due), today.days as int),
{
    match due {
        None => to_owned_string("no due date"),
        Some(ts) => {
            let d = day_of(ts);
            let diff: i128 = d - today.days as i128;
            if diff < 0 {
                let n = i128_to_string(-diff);
                let a = concat("overdue ", n.as_str());
                concat(a.as_str(), "d")
            } else if diff == 0 {
                to_owned_string("due today")
            } else {
                let n = i128_to_string(diff);
                let a = concat("due in ", n.as_str());
                concat(a.as_str(), "d")
            }
        },
    }
}

pub open spec fn calendar_hint() -> Seq<char> {
    "  h/\u{2190}/l/\u{2192}: prev/next day  \u{b7}  j/\u{2193}/k/\u{2191}: prev/next week  \u{b7}  Tab: tasks pane  \u{b7}  Esc: focus list  \u{b7}  q quit"@
}

pub open spec fn home_hint() -> Seq<char> {
    "  j/\u{2193}/k/\u{2191} move  \u{b7}  enter open  \u{b7}  / search  \u{b7}  d delete  \u{b7}  Tab: calendar  \u{b7}  q quit"@
}

pub open spec fn project_hint() -> Seq<char> {
    "  j/\u{2193}/k/\u{2191} move  \u{b7}  space toggle  \u{b7}  s subtask  \u{b7}  d delete  \u{b7}  esc back  \u{b7}  Tab: calendar  \u{b7}  q quit"@
}

pub open spec fn due_date_hint() -> Seq<char> {
    "  [DUE DATE]  e.g. today, tomorrow, +3 (days), +1w (weeks), mon, 07-04, 15"@
}

pub open spec fn insert_hint() -> Seq<char> {
    "  [INSERT]  Press ESC to finish editing this field"@
}

pub open spec fn normal_hint() -> Seq<char> {
    "  [NORMAL]  j/\u{2193}/k/\u{2191}: navigate  \u{b7}  i: edit field  \u{b7}  enter: save  \u{b7}  esc: cancel"@
}

/// The hint line for the state: keys for the current mode, the search text (with an offer
/// to create when nothing matches), or the question being asked.
pub open spec fn hint_spec(s: AppState) -> Seq<char> {
    match s.mode {
        AppMode::Browsing => if s.right_pane == RightPane::Calendar {
            calendar_hint()
        } else {
            match s.context {
                AppContext::Home => home_hint(),
                AppContext::Project { .. } => project_hint(),
            }
        },
        AppMode::Search { buffer } => {
            let no_match = buffer@.len() > 0 && match s.context {
                AppContext::Home => s.filtered_projects@.len() == 0,
                AppContext::Project { .. } => s.filtered_tasks@.len() == 0,
            };
            if no_match {
                " / "@ + buffer@ + "  \u{2014}  hit enter to create"@
            } else {
                " / "@ + buffer@
            }
        },
        AppMode::ConfirmPrompt { message, .. } => message@,
        AppMode::MultiStepForm { kind, step, in_insert_mode, .. } => {
            if (kind is CreateTask || kind is ModifyTask) && step == 4 {
                due_date_hint()
            } else if in_insert_mode {
                insert_hint()
            } else {
                normal_hint()
            }
        },
    }
}

/// The hint line for the state.
pub fn hint_text(state: &AppState) -> (r: String)
    ensures
        r@ == hint_spec(*state),
{
    match &state.mode {
        AppMode::Browsing => {
            if state.right_pane == RightPane::Calendar {
                to_owned_string("  h/\u{2190}/l/\u{2192}: prev/next day  \u{b7}  j/\u{2193}/k/\u{2191}: prev/next week  \u{b7}  Tab: tasks pane  \u{b7}  Esc: focus list  \u{b7}  q quit")
            } else {
                match &state.context {
                    AppContext::Home => to_owned_string("  j/\u{2193}/k/\u{2191} move  \u{b7}  enter open  \u{b7}  / search  \u{b7}  d delete  \u{b7}  Tab: calendar  \u{b7}  q quit"),
                    AppContext::Project { .. } => to_owned_string("  j/\u{2193}/k/\u{2191} move  \u{b7}  space toggle  \u{b7}  s subtask  \u{b7}  d delete  \u{b7}  esc back  \u{b7}  Tab: calendar  \u{b7}  q quit"),
                }
            }
        },
        AppMode::Search { buffer } => {
            let empty_list = match &state.context {
                AppContext::Home => state.filtered_projects.len() == 0,
                AppContext::Project { .. } => state.filtered_tasks.len() == 0,
            };
            let shown = concat(" / ", buffer.as_str());
            if buffer.unicode_len() > 0 && empty_list {
                concat(shown.as_str(), "  \u{2014}  hit enter to create")
            } else {
                shown
            }
        },
        AppMode::ConfirmPrompt { message, .. } => message.clone(),
        AppMode::MultiStepForm { kind, step, in_insert_mode, .. } => {
            let task_form = match kind {
                FormKind::CreateTask | FormKind::ModifyTask { .. } => true,
                _ => false,
            };
            if task_form && *step == 4 {
                to_owned_string("  [DUE DATE]  e.g. today, tomorrow, +3 (days), +1w (weeks), mon, 07-04, 15")
            } else if *in_insert_mode {
                to_owned_string("  [INSERT]  Press ESC to finish editing this field")
            } else {
                to_owned_string("  [NORMAL]  j/\u{2193}/k/\u{2191}: navigate  \u{b7}  i: edit field  \u{b7}  enter: save  \u{b7}  esc: cancel")
            }
        },
    }
}

/// Rows of the month grid: enough weeks for the empty cells before the first and every day.
pub fn grid_rows(year: i32, month: u32) -> (r: u32)
    requires
        month_ok(year as int, month as int),
    ensures
        r == (month_offset(year as int, month as int) + month_days(year as int, month as int) + 6) / 7,
{
    let first = match crate::dates::date_from_ymd(year, month, 1) {
        Some(d) => d,
        None => {
            proof {
                assert(crate::dates::valid_ymd(year as int, month as int, 1));
            }
            return 0;
        },
    };
    let offset = crate::dates::weekday(first);
    (offset + days_in_month(year, month) + 6) / 7
}

} // verus!
