//! What each pane of the screen shows: its lines, each a list of pieces of text with the
//! tone of the theme they are drawn in.
use vstd::prelude::*;
use crate::dates::{date_ymd, days_in_range, ymd_of, Date};
use crate::engine::agenda::NextTaskV;
use crate::engine::model::TaskV;
use crate::models::{NextTask, Stats, Task};
use crate::text::{chars_of, concat, i64_to_string, int_text, push_char, string_of, to_owned_string};
use super::browsing::{due_text, due_text_exec};
use super::calendar::{day_for_cursor, day_for_cursor_spec, days_in_month, month_days, month_offset};
use super::display::{due_label, due_label_spec, grid_rows};
use super::state::{
    form_prompt, form_prompt_spec, form_total_steps, form_total_steps_spec, AppContext, AppMode,
    AppState, FormKind, RightPane,
};
use super::theme::{boundary_at, char_boundary};
use super::view::{counts_view, AppV, ContextV};
use super::wrap::{blen, blen_of_pub, lemma_wrap_nonempty, wrap_text, wrap_text_spec};

verus! {

/// How a piece of text is drawn: a colour of the theme and a modifier.
#[derive(Clone, Copy, PartialEq, Eq, Structural, Debug)]
pub enum Tone {
    /// The terminal's default style.
    Plain,
    Label,
    LabelDim,
    Accent,
    AccentBold,
    AccentDim,
    Secondary,
    SecondaryBold,
    SecondaryDim,
    Highlight,
    HighlightBold,
    Value,
    Tag,
    Done,
    Pending,
    Overdue,
    OverdueBold,
    /// A finished item: the label colour, crossed out.
    Struck,
    /// The calendar's cursor: highlight, bold and reversed.
    Cursor,
    /// Today in the calendar: accent, bold and underlined.
    Today,
}

/// A piece of text and its tone.
pub struct Piece {
    pub text: String,
    pub tone: Tone,
}

impl View for Piece {
    type V = (Seq<char>, Tone);

    open spec fn view(&self) -> (Seq<char>, Tone) {
        (self.text@, self.tone)
    }
}

pub open spec fn line_view(l: Vec<Piece>) -> Seq<(Seq<char>, Tone)> {
    l@.map_values(|p: Piece| p@)
}

pub open spec fn lines_view(ls: Seq<Vec<Piece>>) -> Seq<Seq<(Seq<char>, Tone)>> {
    ls.map_values(|l: Vec<Piece>| line_view(l))
}

/// A line of one piece.
pub open spec fn single(text: Seq<char>, tone: Tone) -> Seq<(Seq<char>, Tone)> {
    seq![(text, tone)]
}

/// An empty line.
pub open spec fn blank() -> Seq<(Seq<char>, Tone)> {
    single(Seq::empty(), Tone::Plain)
}

pub fn piece(text: &str, tone: Tone) -> (r: Piece)
    ensures
        r@ == (text@, tone),
{
    Piece { text: to_owned_string(text), tone }
}

/// Appends a piece to a line.
pub fn push_piece(l: &mut Vec<Piece>, p: Piece)
    ensures
        line_view(*final(l)) == line_view(*old(l)).push(p@),
{
    let ghost pv = p@;
    l.push(p);
    proof {
        assert(line_view(*l) =~= line_view(*old(l)).push(pv));
    }
}

/// Appends a line.
pub fn push_line(ls: &mut Vec<Vec<Piece>>, l: Vec<Piece>)
    ensures
        lines_view(final(ls)@) == lines_view(old(ls)@).push(line_view(l)),
{
    let ghost lv = line_view(l);
    ls.push(l);
    proof {
        assert(lines_view(ls@) =~= lines_view(old(ls)@).push(lv));
    }
}

/// A line of one piece.
pub fn line_of(text: &str, tone: Tone) -> (r: Vec<Piece>)
    ensures
        line_view(r) == single(text@, tone),
{
    let mut l: Vec<Piece> = Vec::new();
    push_piece(&mut l, piece(text, tone));
    proof {
        assert(line_view(l) =~= single(text@, tone));
    }
    l
}

pub fn blank_line() -> (r: Vec<Piece>)
    ensures
        line_view(r) == blank(),
{
    let r = line_of("", Tone::Plain);
    proof {
        assert(""@ =~= Seq::<char>::empty()) by {
            reveal_strlit("");
        }
    }
    r
}

/// The breadcrumb at the top of the screen.
pub open spec fn header_spec(a: AppV) -> Seq<char> {
    match a.context {
        ContextV::Home => " tdo  ~  home"@,
        ContextV::Project { name, .. } => " tdo  ~  home  /  "@ + name,
    }
}

/// The breadcrumb at the top of the screen.
pub fn header_text(state: &AppState) -> (r: String)
    ensures
        r@ == header_spec(state@),
{
    match &state.context {
        AppContext::Home => to_owned_string(" tdo  ~  home"),
        AppContext::Project { name, .. } => concat(" tdo  ~  home  /  ", name.as_str()),
    }
}

/// A description, or a note that there is none.
pub open spec fn description_line(d: Seq<char>) -> Seq<(Seq<char>, Tone)> {
    if d.len() == 0 {
        single("No description."@, Tone::Label)
    } else {
        single(d, Tone::Plain)
    }
}

/// The tags of the selected item, each as `#name `.
pub open spec fn tag_pieces(tags: Seq<Seq<char>>) -> Seq<(Seq<char>, Tone)> {
    tags.map_values(|t: Seq<char>| (seq!['#'] + t + seq![' '], Tone::Tag))
}

pub open spec fn tags_line(tags: Seq<Seq<char>>) -> Seq<(Seq<char>, Tone)> {
    if tags.len() == 0 {
        single("No tags."@, Tone::Label)
    } else {
        tag_pieces(tags)
    }
}

/// A priority as the details pane names it.
pub open spec fn priority_long(p: int) -> (Seq<char>, Tone) {
    if p == 1 {
        ("P1 (High)"@, Tone::Overdue)
    } else if p == 2 {
        ("P2 (Medium)"@, Tone::Pending)
    } else if p == 3 {
        ("P3 (Low)"@, Tone::Done)
    } else {
        ("P?"@, Tone::Label)
    }
}

/// A due date as the details pane shows it.
pub open spec fn due_or_none(due: Option<int>) -> Seq<char> {
    match due {
        None => "None"@,
        Some(_) => due_text(due),
    }
}

/// The details pane: the selected project, or the selected task, with its tags.
pub open spec fn metadata_spec(a: AppV) -> Seq<Seq<(Seq<char>, Tone)>> {
    match a.context {
        ContextV::Home => if 0 <= a.selected < a.filtered_projects.len() {
            let p = a.projects[a.filtered_projects[a.selected] as int];
            seq![
                single("PROJECT"@, Tone::LabelDim),
                single(p.name, Tone::AccentBold),
                blank(),
                single("DESCRIPTION"@, Tone::LabelDim),
                description_line(p.description),
                blank(),
                single("TAGS"@, Tone::LabelDim),
                tags_line(a.selected_item_tags),
                blank(),
            ]
        } else {
            seq![single("No project selected."@, Tone::Plain)]
        },
        ContextV::Project { name, .. } => if 0 <= a.selected < a.filtered_tasks.len() {
            let t = a.tasks[a.filtered_tasks[a.selected] as int];
            seq![
                seq![("PROJECT: "@, Tone::LabelDim), (name, Tone::Accent)],
                blank(),
                single("TASK"@, Tone::LabelDim),
                single(t.name, Tone::SecondaryBold),
                blank(),
                single("DESCRIPTION"@, Tone::LabelDim),
                description_line(t.description),
                blank(),
                seq![("PRIORITY: "@, Tone::LabelDim), priority_long(t.priority)],
                blank(),
                seq![("DUE DATE: "@, Tone::LabelDim), (due_or_none(t.due_date), Tone::Plain)],
                blank(),
                single("TAGS"@, Tone::LabelDim),
                tags_line(a.selected_item_tags),
                blank(),
            ]
        } else {
            seq![single("No task selected."@, Tone::Plain)]
        },
    }
}

fn description_exec(d: &String) -> (r: Vec<Piece>)
    ensures
        line_view(r) == description_line(d@),
{
    if d.unicode_len() == 0 {
        line_of("No description.", Tone::Label)
    } else {
        line_of(d.as_str(), Tone::Plain)
    }
}

fn tags_exec(tags: &Vec<String>) -> (r: Vec<Piece>)
    ensures
        line_view(r) == tags_line(super::view::texts(tags@)),
{
    let ghost tv = super::view::texts(tags@);
    if tags.len() == 0 {
        return line_of("No tags.", Tone::Label);
    }
    let mut l: Vec<Piece> = Vec::new();
    let mut i: usize = 0;
    while i < tags.len()
        invariant
            i <= tags@.len(),
            tv == super::view::texts(tags@),
            tags@.len() > 0,
            line_view(l) == tag_pieces(tv.take(i as int)),
        decreases tags@.len() - i,
    {
        let a = concat("#", tags[i].as_str());
        let b = concat(a.as_str(), " ");
        proof {
            reveal_strlit("#");
            reveal_strlit(" ");
        }
        push_piece(&mut l, Piece { text: b, tone: Tone::Tag });
        proof {
            assert(tag_pieces(tv.take(i + 1)) =~= tag_pieces(tv.take(i as int)).push(
                (seq!['#'] + tv[i as int] + seq![' '], Tone::Tag),
            ));
            assert(b@ =~= seq!['#'] + tv[i as int] + seq![' ']);
        }
        i = i + 1;
    }
    proof {
        assert(tv.take(i as int) =~= tv);
    }
    l
}

fn priority_long_exec(p: i64) -> (r: Piece)
    ensures
        r@ == priority_long(p as int),
{
    if p == 1 {
        piece("P1 (High)", Tone::Overdue)
    } else if p == 2 {
        piece("P2 (Medium)", Tone::Pending)
    } else if p == 3 {
        piece("P3 (Low)", Tone::Done)
    } else {
        piece("P?", Tone::Label)
    }
}

fn task_details(lines: &mut Vec<Vec<Piece>>, name: &String, t: &Task, tags: &Vec<String>)
    ensures
        lines_view(final(lines)@) == lines_view(old(lines)@) + seq![
            seq![("PROJECT: "@, Tone::LabelDim), (name@, Tone::Accent)],
            blank(),
            single("TASK"@, Tone::LabelDim),
            single(t@.name, Tone::SecondaryBold),
            blank(),
            single("DESCRIPTION"@, Tone::LabelDim),
            description_line(t@.description),
            blank(),
            seq![("PRIORITY: "@, Tone::LabelDim), priority_long(t@.priority)],
            blank(),
            seq![("DUE DATE: "@, Tone::LabelDim), (due_or_none(t@.due_date), Tone::Plain)],
            blank(),
            single("TAGS"@, Tone::LabelDim),
            tags_line(super::view::texts(tags@)),
            blank(),
        ],
{
    let ghost start = lines_view(lines@);
    let mut l0: Vec<Piece> = Vec::new();
    push_piece(&mut l0, piece("PROJECT: ", Tone::LabelDim));
    push_piece(&mut l0, Piece { text: name.clone(), tone: Tone::Accent });
    proof {
        assert(line_view(l0) =~= seq![("PROJECT: "@, Tone::LabelDim), (name@, Tone::Accent)]);
    }
    push_line(lines, l0);
    push_line(lines, blank_line());
    push_line(lines, line_of("TASK", Tone::LabelDim));
    push_line(lines, line_of(t.name.as_str(), Tone::SecondaryBold));
    push_line(lines, blank_line());
    push_line(lines, line_of("DESCRIPTION", Tone::LabelDim));
    push_line(lines, description_exec(&t.description));
    push_line(lines, blank_line());
    let mut lp: Vec<Piece> = Vec::new();
    push_piece(&mut lp, piece("PRIORITY: ", Tone::LabelDim));
    push_piece(&mut lp, priority_long_exec(t.priority));
    proof {
        assert(line_view(lp) =~= seq![("PRIORITY: "@, Tone::LabelDim), priority_long(t@.priority)]);
    }
    push_line(lines, lp);
    push_line(lines, blank_line());
    let due = match t.due_date {
        None => to_owned_string("None"),
        Some(_) => due_text_exec(t.due_date),
    };
    let mut ld: Vec<Piece> = Vec::new();
    push_piece(&mut ld, piece("DUE DATE: ", Tone::LabelDim));
    push_piece(&mut ld, Piece { text: due, tone: Tone::Plain });
    proof {
        assert(line_view(ld) =~= seq![("DUE DATE: "@, Tone::LabelDim), (due_or_none(t@.due_date), Tone::Plain)]);
    }
    push_line(lines, ld);
    push_line(lines, blank_line());
    push_line(lines, line_of("TAGS", Tone::LabelDim));
    push_line(lines, tags_exec(tags));
    push_line(lines, blank_line());
    proof {
        assert(lines_view(lines@) =~= start + seq![
            seq![("PROJECT: "@, Tone::LabelDim), (name@, Tone::Accent)],
            blank(),
            single("TASK"@, Tone::LabelDim),
            single(t@.name, Tone::SecondaryBold),
            blank(),
            single("DESCRIPTION"@, Tone::LabelDim),
            description_line(t@.description),
            blank(),
            seq![("PRIORITY: "@, Tone::LabelDim), priority_long(t@.priority)],
            blank(),
            seq![("DUE DATE: "@, Tone::LabelDim), (due_or_none(t@.due_date), Tone::Plain)],
            blank(),
            single("TAGS"@, Tone::LabelDim),
            tags_line(super::view::texts(tags@)),
            blank(),
        ]);
    }
}

/// The details pane: the selected project, or the selected task, with its tags.
pub fn metadata_lines(state: &AppState) -> (r: Vec<Vec<Piece>>)
    requires
        state@.wf(),
    ensures
        lines_view(r@) == metadata_spec(state@),
{
    let mut lines: Vec<Vec<Piece>> = Vec::new();
    match &state.context {
        AppContext::Home => {
            if state.selected < state.filtered_projects.len() {
                proof {
                    assert(state@.filtered_projects[state.selected as int] < state@.projects.len());
                }
                let p = &state.projects[state.filtered_projects[state.selected]];
                push_line(&mut lines, line_of("PROJECT", Tone::LabelDim));
                push_line(&mut lines, line_of(p.name.as_str(), Tone::AccentBold));
                push_line(&mut lines, blank_line());
                push_line(&mut lines, line_of("DESCRIPTION", Tone::LabelDim));
                push_line(&mut lines, description_exec(&p.description));
                push_line(&mut lines, blank_line());
                push_line(&mut lines, line_of("TAGS", Tone::LabelDim));
                push_line(&mut lines, tags_exec(&state.selected_item_tags));
                push_line(&mut lines, blank_line());
            } else {
                push_line(&mut lines, line_of("No project selected.", Tone::Plain));
            }
        },
        AppContext::Project { name, .. } => {
            if state.selected < state.filtered_tasks.len() {
                proof {
                    assert(state@.filtered_tasks[state.selected as int] < state@.tasks.len());
                }
                let t = &state.tasks[state.filtered_tasks[state.selected]];
                task_details(&mut lines, name, t, &state.selected_item_tags);
                proof {
                    assert(lines_view(Seq::<Vec<Piece>>::empty()) =~= Seq::empty());
                }
            } else {
                push_line(&mut lines, line_of("No task selected.", Tone::Plain));
            }
        },
    }
    proof {
        assert(lines_view(lines@) =~= metadata_spec(state@));
    }
    lines
}

/// The mark of the selected row.
pub open spec fn marker(selected: bool) -> Seq<char> {
    if selected {
        "\u{25b6} "@
    } else {
        "  "@
    }
}

fn marker_exec(selected: bool) -> (r: String)
    ensures
        r@ == marker(selected),
{
    if selected {
        to_owned_string("\u{25b6} ")
    } else {
        to_owned_string("  ")
    }
}

/// One row of the projects list: the selected one (or, inside a project, the open one) is
/// highlighted, and marked while the list has the focus.
pub open spec fn project_row(a: AppV, i: int) -> Seq<(Seq<char>, Tone)> {
    let p = a.projects[a.filtered_projects[i] as int];
    let focused = a.context is Home;
    let lit = if focused {
        i == a.selected
    } else {
        a.context matches ContextV::Project { name, .. } && name == p.name
    };
    single(marker(focused && lit) + p.name, if lit { Tone::HighlightBold } else { Tone::Label })
}

pub open spec fn project_rows_spec(a: AppV) -> Seq<Seq<(Seq<char>, Tone)>> {
    Seq::new(a.filtered_projects.len(), |i: int| project_row(a, i))
}

/// The rows of the projects list, one per project that the filter keeps.
pub fn project_rows(state: &AppState) -> (r: Vec<Vec<Piece>>)
    requires
        state@.wf(),
    ensures
        lines_view(r@) == project_rows_spec(state@),
{
    let ghost a = state@;
    let focused = match &state.context {
        AppContext::Home => true,
        AppContext::Project { .. } => false,
    };
    let mut rows: Vec<Vec<Piece>> = Vec::new();
    let mut i: usize = 0;
    while i < state.filtered_projects.len()
        invariant
            a == state@,
            a.wf(),
            i <= a.filtered_projects.len(),
            focused == (a.context is Home),
            lines_view(rows@) == project_rows_spec(a).take(i as int),
        decreases a.filtered_projects.len() - i,
    {
        proof {
            assert(a.filtered_projects[i as int] < a.projects.len());
        }
        let p = &state.projects[state.filtered_projects[i]];
        let lit = if focused {
            i == state.selected
        } else {
            match &state.context {
                AppContext::Project { name, .. } => crate::text::text_eq(name.as_str(), p.name.as_str()),
                AppContext::Home => false,
            }
        };
        let m = marker_exec(focused && lit);
        let text = concat(m.as_str(), p.name.as_str());
        let tone = if lit {
            Tone::HighlightBold
        } else {
            Tone::Label
        };
        let mut l: Vec<Piece> = Vec::new();
        push_piece(&mut l, Piece { text, tone });
        proof {
            assert(line_view(l) =~= project_row(a, i as int));
        }
        push_line(&mut rows, l);
        proof {
            assert(project_rows_spec(a).take(i + 1) =~= project_rows_spec(a).take(i as int).push(
                project_row(a, i as int),
            ));
        }
        i = i + 1;
    }
    proof {
        assert(project_rows_spec(a).take(i as int) =~= project_rows_spec(a));
    }
    rows
}

/// A priority as the lists show it.
pub open spec fn priority_short(p: int) -> (Seq<char>, Tone) {
    if p == 1 {
        ("P1"@, Tone::Overdue)
    } else if p == 2 {
        ("P2"@, Tone::Pending)
    } else if p == 3 {
        ("P3"@, Tone::Done)
    } else {
        ("P?"@, Tone::Label)
    }
}

/// The recurrence note after a task's name.
pub open spec fn recurrence_note(r: Option<Seq<char>>) -> Seq<char> {
    match r {
        Some(x) => " \u{1f504} ("@ + x + ")"@,
        None => Seq::empty(),
    }
}

/// One row of the tasks list: mark, check box, name and recurrence; priority; how soon it
/// is due. A finished task is crossed out.
pub open spec fn task_row(t: TaskV, selected: bool, today: int) -> Seq<(Seq<char>, Tone)> {
    let tone = if t.done {
        Tone::Struck
    } else if selected {
        Tone::HighlightBold
    } else {
        Tone::Plain
    };
    let check = if t.done {
        "[x] "@
    } else {
        "[ ] "@
    };
    seq![
        (marker(selected) + check + t.name + recurrence_note(t.recurrence), tone),
        ("  "@, Tone::Plain),
        priority_short(t.priority),
        ("  "@, Tone::Plain),
        (due_label_spec(t.due_date, today), Tone::Label),
    ]
}

pub open spec fn task_rows_spec(a: AppV, today: int) -> Seq<Seq<(Seq<char>, Tone)>> {
    Seq::new(
        a.filtered_tasks.len(),
        |i: int| task_row(a.tasks[a.filtered_tasks[i] as int], a.context is Project && i == a.selected, today),
    )
}

fn priority_short_exec(p: i64) -> (r: Piece)
    ensures
        r@ == priority_short(p as int),
{
    if p == 1 {
        piece("P1", Tone::Overdue)
    } else if p == 2 {
        piece("P2", Tone::Pending)
    } else if p == 3 {
        piece("P3", Tone::Done)
    } else {
        piece("P?", Tone::Label)
    }
}

fn task_row_exec(t: &Task, selected: bool, today: Date) -> (r: Vec<Piece>)
    ensures
        line_view(r) == task_row(t@, selected, today.days as int),
{
    let tone = if t.done {
        Tone::Struck
    } else if selected {
        Tone::HighlightBold
    } else {
        Tone::Plain
    };
    let m = marker_exec(selected);
    let check = if t.done {
        to_owned_string("[x] ")
    } else {
        to_owned_string("[ ] ")
    };
    let a = concat(m.as_str(), check.as_str());
    let b = concat(a.as_str(), t.name.as_str());
    let note = match &t.recurrence {
        Some(x) => {
            let c = concat(" \u{1f504} (", x.as_str());
            concat(c.as_str(), ")")
        },
        None => {
            let e = String::new();
            proof {
                assert(e@ =~= Seq::<char>::empty());
            }
            e
        },
    };
    let text = concat(b.as_str(), note.as_str());
    let mut l: Vec<Piece> = Vec::new();
    push_piece(&mut l, Piece { text, tone });
    push_piece(&mut l, piece("  ", Tone::Plain));
    push_piece(&mut l, priority_short_exec(t.priority));
    push_piece(&mut l, piece("  ", Tone::Plain));
    push_piece(&mut l, Piece { text: due_label(t.due_date, today), tone: Tone::Label });
    proof {
        assert(recurrence_note(t@.recurrence) == note@);
        assert(line_view(l) =~= task_row(t@, selected, today.days as int));
    }
    l
}

/// The rows of the tasks list, one per task that the filter keeps.
pub fn task_rows(state: &AppState, today: Date) -> (r: Vec<Vec<Piece>>)
    requires
        state@.wf(),
    ensures
        lines_view(r@) == task_rows_spec(state@, today.days as int),
{
    let ghost a = state@;
    let focused = match &state.context {
        AppContext::Home => false,
        AppContext::Project { .. } => true,
    };
    let mut rows: Vec<Vec<Piece>> = Vec::new();
    let mut i: usize = 0;
    while i < state.filtered_tasks.len()
        invariant
            a == state@,
            a.wf(),
            i <= a.filtered_tasks.len(),
            focused == (a.context is Project),
            lines_view(rows@) == task_rows_spec(a, today.days as int).take(i as int),
        decreases a.filtered_tasks.len() - i,
    {
        proof {
            assert(a.filtered_tasks[i as int] < a.tasks.len());
        }
        let t = &state.tasks[state.filtered_tasks[i]];
        let l = task_row_exec(t, focused && i == state.selected, today);
        push_line(&mut rows, l);
        proof {
            assert(task_rows_spec(a, today.days as int).take(i + 1) =~= task_rows_spec(a, today.days as int).take(i as int).push(
                task_row(a.tasks[a.filtered_tasks[i as int] as int], a.context is Project && i == a.selected, today.days as int),
            ));
        }
        i = i + 1;
    }
    proof {
        assert(task_rows_spec(a, today.days as int).take(i as int) =~= task_rows_spec(a, today.days as int));
    }
    rows
}

/// The title of the tasks pane: the open project, else the selected one, else `none`.
pub open spec fn tasks_title_spec(a: AppV) -> Seq<char> {
    let name = match a.context {
        ContextV::Project { name, .. } => name,
        ContextV::Home => if 0 <= a.selected < a.filtered_projects.len() {
            a.projects[a.filtered_projects[a.selected] as int].name
        } else {
            "none"@
        },
    };
    " tasks \u{2014} "@ + name + " "@
}

pub fn tasks_title(state: &AppState) -> (r: String)
    requires
        state@.wf(),
    ensures
        r@ == tasks_title_spec(state@),
{
    let name = match &state.context {
        AppContext::Project { name, .. } => name.clone(),
        AppContext::Home => {
            if state.selected < state.filtered_projects.len() {
                proof {
                    assert(state@.filtered_projects[state.selected as int] < state@.projects.len());
                }
                state.projects[state.filtered_projects[state.selected]].name.clone()
            } else {
                to_owned_string("none")
            }
        },
    };
    let a = concat(" tasks \u{2014} ", name.as_str());
    concat(a.as_str(), " ")
}

/// `n` copies of `c`.
pub open spec fn repeated(c: char, n: nat) -> Seq<char> {
    Seq::new(n, |_i: int| c)
}

pub fn repeat_char(c: char, n: usize) -> (r: String)
    ensures
        r@ == repeated(c, n as nat),
{
    let mut r = String::new();
    let mut i: usize = 0;
    while i < n
        invariant
            i <= n,
            r@ == repeated(c, i as nat),
        decreases n - i,
    {
        push_char(&mut r, c);
        assert(repeated(c, (i + 1) as nat) =~= repeated(c, i as nat).push(c));
        i = i + 1;
    }
    r
}

/// `s` padded with spaces on the right to `n` characters (`{:<n}`).
pub open spec fn pad_right(s: Seq<char>, n: nat) -> Seq<char> {
    if s.len() < n {
        s + repeated(' ', (n - s.len()) as nat)
    } else {
        s
    }
}

pub fn pad_right_exec(s: &str, n: usize) -> (r: String)
    ensures
        r@ == pad_right(s@, n as nat),
{
    let k = s.unicode_len();
    if k < n {
        let sp = repeat_char(' ', n - k);
        concat(s, sp.as_str())
    } else {
        to_owned_string(s)
    }
}

/// The width inside the form's frame: at most 64 columns, less 4 for its border and margin.
pub open spec fn form_inner_width(frame_width: int) -> nat {
    let w = if frame_width < 64 {
        frame_width
    } else {
        64
    };
    if w >= 4 {
        (w - 4) as nat
    } else {
        0
    }
}

pub open spec fn form_heading(kind: FormKind) -> Seq<char> {
    match kind {
        FormKind::CreateProject => "\u{2726}  CREATE NEW PROJECT  \u{2726}"@,
        FormKind::CreateTask => "\u{2726}  CREATE NEW TASK  \u{2726}"@,
        FormKind::ModifyProject { original_name } => "\u{2726}  EDIT PROJECT: "@ + original_name@ + "  \u{2726}"@,
        FormKind::ModifyTask { original_name } => "\u{2726}  EDIT TASK: "@ + original_name@ + "  \u{2726}"@,
    }
}

/// The value shown in a field: what is being typed (with a cursor) in the field being
/// edited, else the answer given so far.
pub open spec fn field_value(answers: Seq<String>, current: Seq<char>, step: int, insert: bool, idx: int) -> Seq<char> {
    if idx == step && insert {
        current + "\u{258c}"@
    } else if 0 <= idx < answers.len() {
        answers[idx]@
    } else {
        Seq::empty()
    }
}

/// The lines of one field of a form: its label and value, the value wrapped to the room
/// that is left.
pub open spec fn field_lines(kind: FormKind, answers: Seq<String>, current: Seq<char>, step: int, insert: bool, width: nat, idx: int) -> Seq<Seq<(Seq<char>, Tone)>> {
    let selected = idx == step;
    let field_tone = if selected {
        if insert {
            Tone::SecondaryBold
        } else {
            Tone::HighlightBold
        }
    } else {
        Tone::Label
    };
    let value_tone = if selected && insert {
        Tone::Secondary
    } else {
        Tone::Value
    };
    let room: nat = if width >= 19 {
        (width - 19) as nat
    } else {
        0
    };
    let wrapped = wrap_text_spec(field_value(answers, current, step, insert, idx), room);
    seq![seq![
        (marker(selected), field_tone),
        (pad_right(form_prompt_spec(kind, idx), 15) + ": "@, field_tone),
        (wrapped[0], value_tone),
    ]] + wrapped.skip(1).map_values(|l: Seq<char>| seq![(repeated(' ', 19), field_tone), (l, value_tone)])
}

/// The lines of the form's first `n` fields.
pub open spec fn fields_lines(kind: FormKind, answers: Seq<String>, current: Seq<char>, step: int, insert: bool, width: nat, n: int) -> Seq<Seq<(Seq<char>, Tone)>>
    decreases n,
{
    if n <= 0 {
        Seq::empty()
    } else {
        fields_lines(kind, answers, current, step, insert, width, n - 1) + field_lines(kind, answers, current, step, insert, width, n - 1)
    }
}

/// The key help at the bottom of a form.
pub open spec fn form_footer(kind: FormKind, step: int, insert: bool) -> Seq<char> {
    if insert {
        if step == 2 {
            "[Insert]  Esc: accept  \u{b7}  Enter tags starting with #, separated by space"@
        } else if !kind.is_project_form() && step == 3 {
            "[Insert]  Esc: accept  \u{b7}  Enter priority (1, 2, or 3)"@
        } else if !kind.is_project_form() && step == 4 {
            "[Insert]  Esc: accept  \u{b7}  e.g. today, tomorrow, +3, +1w, mon, 07-04, 15"@
        } else {
            "[Insert Mode]  Esc: back to normal  \u{b7}  Type to edit"@
        }
    } else {
        "[Normal Mode]  j/k: navigate  \u{b7}  i: edit field  \u{b7}  Enter: save  \u{b7}  Esc: cancel"@
    }
}

/// The open form: heading, one entry per field, the warning if any, and the key help.
pub open spec fn form_lines_spec(s: AppState, frame_width: int) -> Option<Seq<Seq<(Seq<char>, Tone)>>> {
    match s.mode {
        AppMode::MultiStepForm { kind, step, answers, current_input, warning, in_insert_mode, .. } => {
            let w = form_inner_width(frame_width);
            let warning_line = match warning {
                Some(m) => single(" \u{26a0}\u{fe0f}  "@ + m@, Tone::OverdueBold),
                None => blank(),
            };
            Some(
                seq![single(form_heading(kind), Tone::AccentBold), single(repeated('\u{2500}', w), Tone::Plain), blank()]
                    + fields_lines(kind, answers@, current_input@, step as int, in_insert_mode, w, form_total_steps_spec(kind))
                    + seq![blank(), warning_line, single(repeated('\u{2500}', w), Tone::Plain), single(form_footer(kind, step as int, in_insert_mode), Tone::LabelDim)],
            )
        },
        _ => None,
    }
}

fn form_heading_exec(kind: &FormKind) -> (r: String)
    ensures
        r@ == form_heading(*kind),
{
    match kind {
        FormKind::CreateProject => to_owned_string("\u{2726}  CREATE NEW PROJECT  \u{2726}"),
        FormKind::CreateTask => to_owned_string("\u{2726}  CREATE NEW TASK  \u{2726}"),
        FormKind::ModifyProject { original_name } => {
            let a = concat("\u{2726}  EDIT PROJECT: ", original_name.as_str());
            concat(a.as_str(), "  \u{2726}")
        },
        FormKind::ModifyTask { original_name } => {
            let a = concat("\u{2726}  EDIT TASK: ", original_name.as_str());
            concat(a.as_str(), "  \u{2726}")
        },
    }
}

fn form_footer_exec(kind: &FormKind, step: usize, insert: bool) -> (r: &'static str)
    ensures
        r@ == form_footer(*kind, step as int, insert),
{
    let task_form = match kind {
        FormKind::CreateTask | FormKind::ModifyTask { .. } => true,
        _ => false,
    };
    if insert {
        if step == 2 {
            "[Insert]  Esc: accept  \u{b7}  Enter tags starting with #, separated by space"
        } else if task_form && step == 3 {
            "[Insert]  Esc: accept  \u{b7}  Enter priority (1, 2, or 3)"
        } else if task_form && step == 4 {
            "[Insert]  Esc: accept  \u{b7}  e.g. today, tomorrow, +3, +1w, mon, 07-04, 15"
        } else {
            "[Insert Mode]  Esc: back to normal  \u{b7}  Type to edit"
        }
    } else {
        "[Normal Mode]  j/k: navigate  \u{b7}  i: edit field  \u{b7}  Enter: save  \u{b7}  Esc: cancel"
    }
}

fn push_field_lines(
    lines: &mut Vec<Vec<Piece>>,
    kind: &FormKind,
    answers: &Vec<String>,
    current: &String,
    step: usize,
    insert: bool,
    width: usize,
    idx: usize,
)
    ensures
        lines_view(final(lines)@) == lines_view(old(lines)@) + field_lines(*kind, answers@, current@, step as int, insert, width as nat, idx as int),
{
    let ghost start = lines_view(lines@);
    let selected = idx == step;
    let field_tone = if selected {
        if insert {
            Tone::SecondaryBold
        } else {
            Tone::HighlightBold
        }
    } else {
        Tone::Label
    };
    let value_tone = if selected && insert {
        Tone::Secondary
    } else {
        Tone::Value
    };
    let value = if selected && insert {
        concat(current.as_str(), "\u{258c}")
    } else if idx < answers.len() {
        answers[idx].clone()
    } else {
        let e = String::new();
        proof {
            assert(e@ =~= Seq::<char>::empty());
        }
        e
    };
    let room = if width >= 19 {
        width - 19
    } else {
        0
    };
    let wrapped = wrap_text(value.as_str(), room);
    let ghost wv = wrap_text_spec(value@, room as nat);
    proof {
        lemma_wrap_nonempty(value@, room as nat);
        assert(super::wrap::lines_view(wrapped@)[0] == wrapped@[0]@);
    }
    let label = pad_right_exec(form_prompt(kind, idx), 15);
    let mut first: Vec<Piece> = Vec::new();
    push_piece(&mut first, Piece { text: marker_exec(selected), tone: field_tone });
    push_piece(&mut first, Piece { text: concat(label.as_str(), ": "), tone: field_tone });
    push_piece(&mut first, Piece { text: wrapped[0].clone(), tone: value_tone });
    let ghost head = seq![
        (marker(selected), field_tone),
        (pad_right(form_prompt_spec(*kind, idx as int), 15) + ": "@, field_tone),
        (wv[0], value_tone),
    ];
    proof {
        assert(line_view(first) =~= head);
    }
    push_line(lines, first);
    let ghost rest = wv.skip(1).map_values(|l: Seq<char>| seq![(repeated(' ', 19), field_tone), (l, value_tone)]);
    proof {
        assert(lines_view(lines@) =~= start + seq![head] + rest.take(0));
    }
    let mut k: usize = 1;
    while k < wrapped.len()
        invariant
            1 <= k <= wrapped@.len(),
            wv == super::wrap::lines_view(wrapped@),
            wv.len() >= 1,
            rest == wv.skip(1).map_values(|l: Seq<char>| seq![(repeated(' ', 19), field_tone), (l, value_tone)]),
            head == seq![
                (marker(selected), field_tone),
                (pad_right(form_prompt_spec(*kind, idx as int), 15) + ": "@, field_tone),
                (wv[0], value_tone),
            ],
            lines_view(lines@) == start + seq![head] + rest.take(k - 1),
        decreases wrapped@.len() - k,
    {
        let mut l: Vec<Piece> = Vec::new();
        push_piece(&mut l, Piece { text: repeat_char(' ', 19), tone: field_tone });
        push_piece(&mut l, Piece { text: wrapped[k].clone(), tone: value_tone });
        let ghost before = lines_view(lines@);
        proof {
            assert(wv[k as int] == wrapped@[k as int]@);
            assert(line_view(l) =~= seq![(repeated(' ', 19), field_tone), (wv[k as int], value_tone)]);
            assert(rest[k - 1] == seq![(repeated(' ', 19), field_tone), (wv[k as int], value_tone)]);
            assert(rest.take(k as int) =~= rest.take(k - 1).push(rest[k - 1]));
        }
        push_line(lines, l);
        proof {
            assert(lines_view(lines@) =~= start + seq![head] + rest.take(k as int));
        }
        k = k + 1;
    }
    proof {
        assert(rest.take(k - 1) =~= rest);
        assert(field_value(answers@, current@, step as int, insert, idx as int) == value@);
    }
}

/// The open form's lines, laid out for a screen `frame_width` columns wide; `None` outside a
/// form.
pub fn form_lines(state: &AppState, frame_width: u16) -> (r: Option<Vec<Vec<Piece>>>)
    ensures
        match r {
            Some(ls) => form_lines_spec(*state, frame_width as int) == Some(lines_view(ls@)),
            None => form_lines_spec(*state, frame_width as int) is None,
        },
{
    match &state.mode {
        AppMode::MultiStepForm { kind, step, answers, current_input, warning, in_insert_mode, .. } => {
            let aw: usize = if frame_width < 64 {
                frame_width as usize
            } else {
                64
            };
            let w: usize = if aw >= 4 {
                aw - 4
            } else {
                0
            };
            let mut lines: Vec<Vec<Piece>> = Vec::new();
            push_line(&mut lines, line_of(form_heading_exec(kind).as_str(), Tone::AccentBold));
            push_line(&mut lines, line_of(repeat_char('\u{2500}', w).as_str(), Tone::Plain));
            push_line(&mut lines, blank_line());
            let ghost head = lines_view(lines@);
            let total = form_total_steps(kind);
            let mut idx: usize = 0;
            proof {
                assert(head + fields_lines(*kind, answers@, current_input@, *step as int, *in_insert_mode, w as nat, 0) =~= head);
            }
            while idx < total
                invariant
                    idx <= total,
                    total == form_total_steps_spec(*kind),
                    lines_view(lines@) == head + fields_lines(*kind, answers@, current_input@, *step as int, *in_insert_mode, w as nat, idx as int),
                decreases total - idx,
            {
                push_field_lines(&mut lines, kind, answers, current_input, *step, *in_insert_mode, w, idx);
                proof {
                    assert(head + fields_lines(*kind, answers@, current_input@, *step as int, *in_insert_mode, w as nat, idx + 1) =~= head + fields_lines(*kind, answers@, current_input@, *step as int, *in_insert_mode, w as nat, idx as int) + field_lines(*kind, answers@, current_input@, *step as int, *in_insert_mode, w as nat, idx as int));
                }
                idx = idx + 1;
            }
            let ghost mid = lines_view(lines@);
            push_line(&mut lines, blank_line());
            match warning {
                Some(m) => {
                    push_line(&mut lines, line_of(concat(" \u{26a0}\u{fe0f}  ", m.as_str()).as_str(), Tone::OverdueBold));
                },
                None => {
                    push_line(&mut lines, blank_line());
                },
            }
            push_line(&mut lines, line_of(repeat_char('\u{2500}', w).as_str(), Tone::Plain));
            push_line(&mut lines, line_of(form_footer_exec(kind, *step, *in_insert_mode), Tone::LabelDim));
            proof {
                let warning_line = match warning {
                    Some(m) => single(" \u{26a0}\u{fe0f}  "@ + m@, Tone::OverdueBold),
                    None => blank(),
                };
                assert(lines_view(lines@) =~= mid + seq![blank(), warning_line, single(repeated('\u{2500}', w as nat), Tone::Plain), single(form_footer(*kind, *step as int, *in_insert_mode), Tone::LabelDim)]);
                assert(w as nat == form_inner_width(frame_width as int));
            }
            Some(lines)
        },
        _ => None,
    }
}

/// Where a box `width` by `height` stands when centred in the area at (`x`, `y`) of size
/// `w` by `h`: its corner and size, clipped to the area.
pub fn centered_rect_fixed(width: u16, height: u16, x: u16, y: u16, w: u16, h: u16) -> (r: (u16, u16, u16, u16))
    requires
        x + w <= u16::MAX,
        y + h <= u16::MAX,
    ensures
        r.0 == x + (if w > width { w - width } else { 0 }) / 2,
        r.1 == y + (if h > height { h - height } else { 0 }) / 2,
        r.2 == (if width < w { width } else { w }),
        r.3 == (if height < h { height } else { h }),
{
    let nx = x + w.saturating_sub(width) / 2;
    let ny = y + h.saturating_sub(height) / 2;
    let nw = if width < w {
        width
    } else {
        w
    };
    let nh = if height < h {
        height
    } else {
        h
    };
    (nx, ny, nw, nh)
}

/// A priority at the end of an agenda row; `other` for one outside 1 to 3.
pub open spec fn priority_tail(p: int, other: Seq<char>) -> (Seq<char>, Tone) {
    if p == 1 {
        (" P1"@, Tone::Overdue)
    } else if p == 2 {
        (" P2"@, Tone::Pending)
    } else if p == 3 {
        (" P3"@, Tone::Done)
    } else {
        (other, Tone::Label)
    }
}

/// An agenda row: the task, its project and its priority.
pub open spec fn agenda_row(nt: NextTaskV, other: Seq<char>) -> Seq<(Seq<char>, Tone)> {
    seq![
        ("\u{2022} "@, Tone::Label),
        (nt.task.name, Tone::Highlight),
        (" ("@ + nt.project_name + ")"@, Tone::Accent),
        priority_tail(nt.task.priority, other),
    ]
}

pub open spec fn agenda_rows(ts: Seq<NextTaskV>, other: Seq<char>, n: int) -> Seq<Seq<(Seq<char>, Tone)>> {
    Seq::new(n as nat, |i: int| agenda_row(ts[i], other))
}

fn agenda_row_exec(nt: &NextTask, other: &str) -> (r: Vec<Piece>)
    ensures
        line_view(r) == agenda_row(nt@, other@),
{
    let p = nt.task.priority;
    let tail = if p == 1 {
        piece(" P1", Tone::Overdue)
    } else if p == 2 {
        piece(" P2", Tone::Pending)
    } else if p == 3 {
        piece(" P3", Tone::Done)
    } else {
        piece(other, Tone::Label)
    };
    let a = concat(" (", nt.project_name.as_str());
    let b = concat(a.as_str(), ")");
    let mut l: Vec<Piece> = Vec::new();
    push_piece(&mut l, piece("\u{2022} ", Tone::Label));
    push_piece(&mut l, Piece { text: nt.task.name.clone(), tone: Tone::Highlight });
    push_piece(&mut l, Piece { text: b, tone: Tone::Accent });
    push_piece(&mut l, tail);
    proof {
        assert(line_view(l) =~= agenda_row(nt@, other@));
    }
    l
}

/// Appends the first `n` agenda rows of `ts`.
fn push_agenda_rows(lines: &mut Vec<Vec<Piece>>, ts: &Vec<NextTask>, other: &str, n: usize)
    requires
        n <= ts@.len(),
    ensures
        lines_view(final(lines)@) == lines_view(old(lines)@) + agenda_rows(super::view::rows_view(ts@), other@, n as int),
{
    let ghost start = lines_view(lines@);
    let ghost tv = super::view::rows_view(ts@);
    let mut i: usize = 0;
    proof {
        assert(start + agenda_rows(tv, other@, 0) =~= start);
    }
    while i < n
        invariant
            i <= n <= ts@.len(),
            tv == super::view::rows_view(ts@),
            lines_view(lines@) == start + agenda_rows(tv, other@, i as int),
        decreases n - i,
    {
        push_line(lines, agenda_row_exec(&ts[i], other));
        proof {
            assert(start + agenda_rows(tv, other@, i + 1) =~= (start + agenda_rows(tv, other@, i as int)).push(
                agenda_row(tv[i as int], other@),
            ));
        }
        i = i + 1;
    }
}

/// The agenda pane: today's pending tasks, or a note that there are none.
pub open spec fn pending_today_spec(a: AppV) -> Seq<Seq<(Seq<char>, Tone)>> {
    if a.pending_today.len() == 0 {
        seq![single("No pending tasks for today."@, Tone::Label)]
    } else {
        agenda_rows(a.pending_today, " P4"@, a.pending_today.len() as int)
    }
}

pub fn pending_today_lines(state: &AppState) -> (r: Vec<Vec<Piece>>)
    ensures
        lines_view(r@) == pending_today_spec(state@),
{
    let mut lines: Vec<Vec<Piece>> = Vec::new();
    if state.pending_today.len() == 0 {
        push_line(&mut lines, line_of("No pending tasks for today.", Tone::Label));
        proof {
            assert(lines_view(lines@) =~= pending_today_spec(state@));
        }
    } else {
        push_agenda_rows(&mut lines, &state.pending_today, " P4", state.pending_today.len());
        proof {
            assert(lines_view(lines@) =~= pending_today_spec(state@));
        }
    }
    lines
}

pub open spec fn month_name(m: int) -> Seq<char> {
    if m == 1 {
        "January"@
    } else if m == 2 {
        "February"@
    } else if m == 3 {
        "March"@
    } else if m == 4 {
        "April"@
    } else if m == 5 {
        "May"@
    } else if m == 6 {
        "June"@
    } else if m == 7 {
        "July"@
    } else if m == 8 {
        "August"@
    } else if m == 9 {
        "September"@
    } else if m == 10 {
        "October"@
    } else if m == 11 {
        "November"@
    } else {
        "December"@
    }
}

fn month_name_exec(m: u32) -> (r: &'static str)
    ensures
        r@ == month_name(m as int),
{
    if m == 1 {
        "January"
    } else if m == 2 {
        "February"
    } else if m == 3 {
        "March"
    } else if m == 4 {
        "April"
    } else if m == 5 {
        "May"
    } else if m == 6 {
        "June"
    } else if m == 7 {
        "July"
    } else if m == 8 {
        "August"
    } else if m == 9 {
        "September"
    } else if m == 10 {
        "October"
    } else if m == 11 {
        "November"
    } else {
        "December"
    }
}

/// The tasks due on the calendar's selected day, under a line naming the day; at most
/// `limit` rows of tasks.
pub open spec fn day_tasks_spec(a: AppV, limit: int) -> Seq<Seq<(Seq<char>, Tone)>> {
    let c = a.calendar;
    let label = if c.day > 0 {
        " "@ + month_name(c.month) + " "@ + int_text(c.day) + ", "@ + int_text(c.year) + " "@
    } else {
        " \u{2014} "@
    };
    let tone = if a.right_pane == RightPane::Calendar {
        Tone::AccentDim
    } else {
        Tone::LabelDim
    };
    seq![single(label, tone)] + match c.day_tasks {
        None => seq![single("\u{2014}"@, Tone::LabelDim)],
        Some(ts) => if ts.len() == 0 {
            seq![single(if c.day == 0 {
                "\u{2014}"@
            } else {
                "No pending tasks."@
            }, Tone::LabelDim)]
        } else {
            agenda_rows(ts, " P?"@, if limit < ts.len() {
                limit
            } else {
                ts.len() as int
            })
        },
    }
}

pub fn day_tasks_lines(state: &AppState, limit: usize) -> (r: Vec<Vec<Piece>>)
    ensures
        lines_view(r@) == day_tasks_spec(state@, limit as int),
{
    let c = &state.calendar;
    let label = if c.cursor_day > 0 {
        let a = concat(" ", month_name_exec(c.month));
        let b = concat(a.as_str(), " ");
        let d = i64_to_string(c.cursor_day as i64);
        let e = concat(b.as_str(), d.as_str());
        let f = concat(e.as_str(), ", ");
        let y = i64_to_string(c.year as i64);
        let g = concat(f.as_str(), y.as_str());
        concat(g.as_str(), " ")
    } else {
        to_owned_string(" \u{2014} ")
    };
    let tone = if state.right_pane == RightPane::Calendar {
        Tone::AccentDim
    } else {
        Tone::LabelDim
    };
    let mut lines: Vec<Vec<Piece>> = Vec::new();
    proof {
        assert(lines_view(lines@) =~= Seq::<Seq<(Seq<char>, Tone)>>::empty());
    }
    push_line(&mut lines, line_of(label.as_str(), tone));
    let ghost head = lines_view(lines@);
    match &c.day_tasks {
        None => {
            push_line(&mut lines, line_of("\u{2014}", Tone::LabelDim));
        },
        Some(ts) => {
            if ts.len() == 0 {
                if c.cursor_day == 0 {
                    push_line(&mut lines, line_of("\u{2014}", Tone::LabelDim));
                } else {
                    push_line(&mut lines, line_of("No pending tasks.", Tone::LabelDim));
                }
            } else {
                let n = if limit < ts.len() {
                    limit
                } else {
                    ts.len()
                };
                push_agenda_rows(&mut lines, ts, " P?", n);
            }
        },
    }
    proof {
        assert(lines_view(lines@) =~= day_tasks_spec(state@, limit as int));
    }
    lines
}

/// `s` padded with spaces on the left to `n` characters (`{:>n}`).
pub open spec fn pad_left(s: Seq<char>, n: nat) -> Seq<char> {
    if s.len() < n {
        repeated(' ', (n - s.len()) as nat) + s
    } else {
        s
    }
}

pub open spec fn weekday_short(i: int) -> Seq<char> {
    if i == 0 {
        "Mo"@
    } else if i == 1 {
        "Tu"@
    } else if i == 2 {
        "We"@
    } else if i == 3 {
        "Th"@
    } else if i == 4 {
        "Fr"@
    } else if i == 5 {
        "Sa"@
    } else {
        "Su"@
    }
}

fn weekday_short_exec(i: usize) -> (r: &'static str)
    ensures
        r@ == weekday_short(i as int),
{
    if i == 0 {
        "Mo"
    } else if i == 1 {
        "Tu"
    } else if i == 2 {
        "We"
    } else if i == 3 {
        "Th"
    } else if i == 4 {
        "Fr"
    } else if i == 5 {
        "Sa"
    } else {
        "Su"
    }
}

/// The weekend columns stand out.
pub open spec fn weekday_tone(col: int) -> Tone {
    if col >= 5 {
        Tone::SecondaryDim
    } else {
        Tone::LabelDim
    }
}

/// One cell of the month grid: blank outside the month; else the day, marked as the
/// cursor (while the calendar has the focus), as today, or as a weekend day.
pub open spec fn grid_cell(a: AppV, today: int, row: int, col: int) -> (Seq<char>, Tone) {
    let c = a.calendar;
    match day_for_cursor_spec(c.year, c.month, row, col) {
        None => ("   "@, Tone::Plain),
        Some(day) => {
            let t = ymd_of(today);
            let tone = if a.right_pane == RightPane::Calendar && row == c.row && col == c.col {
                Tone::Cursor
            } else if c.year == t.0 && c.month == t.1 && day == t.2 {
                Tone::Today
            } else if col >= 5 {
                Tone::SecondaryDim
            } else {
                Tone::Value
            };
            (pad_left(int_text(day), 3), tone)
        },
    }
}

/// The month grid: the month and year, the weekday names, and one row per week.
pub open spec fn grid_spec(a: AppV, today: int) -> Seq<Seq<(Seq<char>, Tone)>> {
    let c = a.calendar;
    let rows = (month_offset(c.year, c.month) + month_days(c.year, c.month) + 6) / 7;
    seq![
        single("  "@ + month_name(c.month) + "  "@ + int_text(c.year), Tone::AccentBold),
        Seq::new(7, |i: int| (pad_left(weekday_short(i), 3), weekday_tone(i))),
    ] + Seq::new(rows as nat, |r: int| Seq::new(7, |col: int| grid_cell(a, today, r, col)))
}

fn pad_left3(s: String) -> (r: String)
    ensures
        r@ == pad_left(s@, 3),
{
    let k = s.unicode_len();
    if k < 3 {
        let sp = repeat_char(' ', 3 - k);
        concat(sp.as_str(), s.as_str())
    } else {
        s
    }
}

fn grid_cell_exec(state: &AppState, ty: i32, tm: u32, td: u32, r: u32, col: u32) -> (p: Piece)
    requires
        state@.wf(),
        r <= 5,
        col <= 6,
    ensures
        forall|today: int| (ty as int, tm as int, td as int) == ymd_of(today) ==> p@ == grid_cell(state@, today, r as int, col as int),
{
    let c = &state.calendar;
    match day_for_cursor(c.year, c.month, r, col) {
        None => piece("   ", Tone::Plain),
        Some(day) => {
            let tone = if state.right_pane == RightPane::Calendar && r == c.cursor_row && col == c.cursor_col {
                Tone::Cursor
            } else if c.year == ty && c.month == tm && day == td {
                Tone::Today
            } else if col >= 5 {
                Tone::SecondaryDim
            } else {
                Tone::Value
            };
            Piece { text: pad_left3(i64_to_string(day as i64)), tone }
        },
    }
}

fn grid_row_exec(state: &AppState, today: Date, ty: i32, tm: u32, td: u32, r: u32) -> (l: Vec<Piece>)
    requires
        state@.wf(),
        r <= 5,
        (ty as int, tm as int, td as int) == ymd_of(today.days as int),
    ensures
        line_view(l) == Seq::new(7, |col: int| grid_cell(state@, today.days as int, r as int, col)),
{
    let ghost a = state@;
    let ghost t = today.days as int;
    let mut l: Vec<Piece> = Vec::new();
    let mut col: u32 = 0;
    proof {
        assert(line_view(l) =~= Seq::new(0, |k: int| grid_cell(a, t, r as int, k)));
    }
    while col < 7
        invariant
            a == state@,
            a.wf(),
            r <= 5,
            col <= 7,
            (ty as int, tm as int, td as int) == ymd_of(t),
            line_view(l) == Seq::new(col as nat, |k: int| grid_cell(a, t, r as int, k)),
        decreases 7 - col,
    {
        let p = grid_cell_exec(state, ty, tm, td, r, col);
        push_piece(&mut l, p);
        proof {
            assert(Seq::new((col + 1) as nat, |k: int| grid_cell(a, t, r as int, k)) =~= Seq::new(col as nat, |k: int| grid_cell(a, t, r as int, k)).push(grid_cell(a, t, r as int, col as int)));
        }
        col = col + 1;
    }
    l
}

/// The month grid of the calendar pane, with today marked.
pub fn grid_lines(state: &AppState, today: Date) -> (r: Vec<Vec<Piece>>)
    requires
        state@.wf(),
        days_in_range(today.days as int),
    ensures
        lines_view(r@) == grid_spec(state@, today.days as int),
{
    let ghost a = state@;
    let c = &state.calendar;
    let (ty, tm, td) = date_ymd(today);
    let mut lines: Vec<Vec<Piece>> = Vec::new();
    let a1 = concat("  ", month_name_exec(c.month));
    let a2 = concat(a1.as_str(), "  ");
    let a3 = concat(a2.as_str(), i64_to_string(c.year as i64).as_str());
    push_line(&mut lines, line_of(a3.as_str(), Tone::AccentBold));
    let mut wd: Vec<Piece> = Vec::new();
    let mut i: usize = 0;
    while i < 7
        invariant
            i <= 7,
            line_view(wd) == Seq::new(i as nat, |k: int| (pad_left(weekday_short(k), 3), weekday_tone(k))),
        decreases 7 - i,
    {
        let name = to_owned_string(weekday_short_exec(i));
        let tone = if i >= 5 {
            Tone::SecondaryDim
        } else {
            Tone::LabelDim
        };
        push_piece(&mut wd, Piece { text: pad_left3(name), tone });
        proof {
            assert(Seq::new((i + 1) as nat, |k: int| (pad_left(weekday_short(k), 3), weekday_tone(k))) =~= Seq::new(i as nat, |k: int| (pad_left(weekday_short(k), 3), weekday_tone(k))).push((pad_left(weekday_short(i as int), 3), weekday_tone(i as int))));
        }
        i = i + 1;
    }
    push_line(&mut lines, wd);
    let ghost head = lines_view(lines@);
    let rows = grid_rows(c.year, c.month);
    let month_len = days_in_month(c.year, c.month);
    proof {
        assert(0 <= month_offset(a.calendar.year, a.calendar.month) <= 6);
        assert(month_len <= 31);
        assert(rows <= 6);
    }
    let mut r: u32 = 0;
    proof {
        assert(head + Seq::new(0, |k: int| Seq::new(7, |col: int| grid_cell(a, today.days as int, k, col))) =~= head);
    }
    while r < rows
        invariant
            a == state@,
            a.wf(),
            rows <= 6,
            r <= rows,
            (ty as int, tm as int, td as int) == ymd_of(today.days as int),
            days_in_range(today.days as int),
            lines_view(lines@) == head + Seq::new(r as nat, |k: int| Seq::new(7, |col: int| grid_cell(a, today.days as int, k, col))),
        decreases rows - r,
    {
        let l = grid_row_exec(state, today, ty, tm, td, r);
        push_line(&mut lines, l);
        proof {
            assert(head + Seq::new((r + 1) as nat, |k: int| Seq::new(7, |col: int| grid_cell(a, today.days as int, k, col))) =~= (head + Seq::new(r as nat, |k: int| Seq::new(7, |col: int| grid_cell(a, today.days as int, k, col)))).push(Seq::new(7, |col: int| grid_cell(a, today.days as int, r as int, col))));
        }
        r = r + 1;
    }
    proof {
        assert(lines_view(lines@) =~= grid_spec(a, today.days as int));
    }
    lines
}

/// How the done / pending / overdue bar shares `width` cells, given the rounded shares of
/// done and pending tasks: overdue gets the rest, each kind that has tasks gets at least one
/// cell on a bar of three or more, and the done part absorbs the difference.
pub open spec fn bar_split(done: int, pending: int, overdue: int, width: int, done_r: int, pending_r: int) -> (int, int, int) {
    let o0 = if width > done_r {
        width - done_r
    } else {
        0
    };
    let o0 = if o0 > pending_r {
        o0 - pending_r
    } else {
        0
    };
    let d1 = if done > 0 && done_r == 0 && width >= 3 {
        1
    } else {
        done_r
    };
    let p1 = if pending > 0 && pending_r == 0 && width >= 3 {
        1
    } else {
        pending_r
    };
    let o1 = if overdue > 0 && o0 == 0 && width >= 3 {
        1
    } else {
        o0
    };
    let t = d1 + p1 + o1;
    let d2 = if t != width && d1 > 0 && t > width {
        if d1 > t - width {
            d1 - (t - width)
        } else {
            0
        }
    } else if t != width && t < width {
        d1 + (width - t)
    } else {
        d1
    };
    (d2, p1, o1)
}

/// The bar's cells, given the rounded shares of done and pending tasks.
pub fn bar_split_exec(done: i64, pending: i64, overdue: i64, width: usize, done_r: usize, pending_r: usize) -> (r: (usize, usize, usize))
    requires
        done_r + pending_r + width + 3 <= usize::MAX,
    ensures
        (r.0 as int, r.1 as int, r.2 as int) == bar_split(done as int, pending as int, overdue as int, width as int, done_r as int, pending_r as int),
{
    let overdue_r = width.saturating_sub(done_r).saturating_sub(pending_r);
    let mut d = done_r;
    let mut p = pending_r;
    let mut o = overdue_r;
    if done > 0 && d == 0 && width >= 3 {
        d = 1;
    }
    if pending > 0 && p == 0 && width >= 3 {
        p = 1;
    }
    if overdue > 0 && o == 0 && width >= 3 {
        o = 1;
    }
    let t = d + p + o;
    if t != width {
        if d > 0 && t > width {
            d = d.saturating_sub(t - width);
        } else if t < width {
            d = d + (width - t);
        }
    }
    (d, p, o)
}

/// The thin bar of done, pending and overdue tasks; a plain rule when there are none.
pub open spec fn progress_spec(st: Stats, width: int, done_r: int, pending_r: int) -> Seq<(Seq<char>, Tone)> {
    if st.done + st.pending + st.overdue == 0 {
        single(repeated('\u{2500}', width as nat), Tone::Label)
    } else {
        let b = bar_split(st.done as int, st.pending as int, st.overdue as int, width, done_r, pending_r);
        seq![
            (repeated('\u{2582}', b.0 as nat), Tone::Done),
            (repeated('\u{2582}', b.1 as nat), Tone::Pending),
            (repeated('\u{2582}', b.2 as nat), Tone::Overdue),
        ]
    }
}

/// A project's name in 12 columns: cut to 11 bytes and an ellipsis when longer than 12
/// bytes, else padded.
pub open spec fn name_label(name: Seq<char>) -> Seq<char> {
    if blen(name) > 12 {
        name.take(char_boundary(name, 11)->0) + "\u{2026}"@
    } else {
        pad_right(name, 12)
    }
}

/// Cutting the name at 11 bytes would split a character (the cut panics).
pub open spec fn name_label_panics(name: Seq<char>) -> bool {
    blen(name) > 12 && char_boundary(name, 11) is None
}

pub fn name_label_exec(name: &str) -> (r: Option<String>)
    ensures
        match r {
            Some(x) => !name_label_panics(name@) && x@ == name_label(name@),
            None => name_label_panics(name@),
        },
{
    let v = chars_of(name);
    if blen_of_pub(&v) > 12 {
        match boundary_at(&v, 11) {
            None => None,
            Some(k) => {
                let head = string_of(&v, 0, k);
                proof {
                    assert(v@.subrange(0, k as int) =~= v@.take(k as int));
                }
                Some(concat(head.as_str(), "\u{2026}"))
            },
        }
    } else {
        Some(pad_right_exec(name, 12))
    }
}

/// The largest task count (`0` for no projects).
pub open spec fn max_count(c: Seq<(Seq<char>, int)>) -> int
    decreases c.len(),
{
    if c.len() == 0 {
        0
    } else if c.len() == 1 {
        c[0].1
    } else {
        let m = max_count(c.drop_last());
        if c.last().1 > m {
            c.last().1
        } else {
            m
        }
    }
}

pub fn max_task_count(state: &AppState) -> (r: i64)
    ensures
        r as int == max_count(state@.projects_task_counts),
{
    let ghost cv = state@.projects_task_counts;
    let mut m: i64 = 0;
    let mut i: usize = 0;
    while i < state.projects_task_counts.len()
        invariant
            i <= state.projects_task_counts@.len(),
            cv == counts_view(state.projects_task_counts@),
            m as int == max_count(cv.take(i as int)),
        decreases state.projects_task_counts@.len() - i,
    {
        let c = state.projects_task_counts[i].1;
        proof {
            assert(cv.take(i + 1).drop_last() =~= cv.take(i as int));
            assert(cv.take(i + 1).last() == cv[i as int]);
        }
        if i == 0 || c > m {
            m = c;
        }
        i = i + 1;
    }
    proof {
        assert(cv.take(i as int) =~= cv);
    }
    m
}

/// The room for a project's bar: the width less 20 columns, at least 4.
pub fn bar_room(width: usize) -> (r: usize)
    ensures
        r == (if width >= 24 {
            width - 20
        } else {
            4
        }),
{
    let w = width.saturating_sub(20);
    if w > 4 {
        w
    } else {
        4
    }
}

/// A project's line: name, bar and count. `bar_len` is the project's share of the room,
/// rounded; a project with tasks gets at least one cell when some project has tasks.
pub open spec fn count_line(name: Seq<char>, count: int, max: int, bar_len: int) -> Seq<(Seq<char>, Tone)> {
    let bar = if max > 0 && count > 0 {
        repeated('\u{2588}', (if bar_len > 1 {
            bar_len
        } else {
            1
        }) as nat)
    } else {
        Seq::empty()
    };
    seq![
        (name_label(name), Tone::Accent),
        (" "@, Tone::Plain),
        (bar, Tone::Secondary),
        (" ("@ + int_text(count) + ")"@, Tone::Label),
    ]
}

/// The stats pane: the bar and counts of all tasks, then the tasks of each project.
pub open spec fn analytics_spec(a: AppV, width: int, done_r: int, pending_r: int, bars: Seq<usize>) -> Seq<Seq<(Seq<char>, Tone)>> {
    let st = a.stats;
    let c = a.projects_task_counts;
    seq![
        single("GLOBAL STATS"@, Tone::LabelDim),
        progress_spec(st, width, done_r, pending_r),
        seq![
            ("Done: "@ + int_text(st.done as int) + " "@, Tone::Done),
            ("Pend: "@ + int_text(st.pending as int) + " "@, Tone::Pending),
            ("Overdue: "@ + int_text(st.overdue as int), Tone::Overdue),
        ],
        seq![("Total Tasks: "@, Tone::Label), (int_text(st.total as int), Tone::AccentBold)],
        blank(),
        single("TASKS PER PROJECT"@, Tone::LabelDim),
    ] + if c.len() == 0 {
        seq![single("No projects found."@, Tone::Label)]
    } else {
        Seq::new(c.len(), |i: int| count_line(c[i].0, c[i].1, max_count(c), bars[i] as int))
    }
}

/// Some project's name would be cut inside a character.
pub open spec fn analytics_panics(a: AppV) -> bool {
    exists|i: int| 0 <= i < a.projects_task_counts.len() && name_label_panics(#[trigger] a.projects_task_counts[i].0)
}

/// Whether drawing the stats pane would cut a project's name inside a character.
pub fn analytics_would_panic(state: &AppState) -> (r: bool)
    ensures
        r == analytics_panics(state@),
{
    let ghost cv = state@.projects_task_counts;
    let mut i: usize = 0;
    while i < state.projects_task_counts.len()
        invariant
            i <= state.projects_task_counts@.len(),
            cv == counts_view(state.projects_task_counts@),
            forall|j: int| 0 <= j < i ==> !name_label_panics(#[trigger] cv[j].0),
        decreases state.projects_task_counts@.len() - i,
    {
        if name_label_exec(state.projects_task_counts[i].0.as_str()).is_none() {
            proof {
                assert(cv[i as int].0 == state.projects_task_counts@[i as int].0@);
                assert(name_label_panics(state@.projects_task_counts[i as int].0));
            }
            return true;
        }
        i = i + 1;
    }
    false
}

fn progress_exec(st: &Stats, width: usize, done_r: usize, pending_r: usize) -> (r: Vec<Piece>)
    requires
        i64::MIN <= st.done + st.pending <= i64::MAX,
        i64::MIN <= st.done + st.pending + st.overdue <= i64::MAX,
        done_r + pending_r + width + 3 <= usize::MAX,
    ensures
        line_view(r) == progress_spec(*st, width as int, done_r as int, pending_r as int),
{
    let total = st.done + st.pending + st.overdue;
    if total == 0 {
        line_of(repeat_char('\u{2500}', width).as_str(), Tone::Label)
    } else {
        let (d, p, o) = bar_split_exec(st.done, st.pending, st.overdue, width, done_r, pending_r);
        let mut l: Vec<Piece> = Vec::new();
        push_piece(&mut l, Piece { text: repeat_char('\u{2582}', d), tone: Tone::Done });
        push_piece(&mut l, Piece { text: repeat_char('\u{2582}', p), tone: Tone::Pending });
        push_piece(&mut l, Piece { text: repeat_char('\u{2582}', o), tone: Tone::Overdue });
        proof {
            assert(line_view(l) =~= progress_spec(*st, width as int, done_r as int, pending_r as int));
        }
        l
    }
}

fn count_line_exec(name: &String, count: i64, max: i64, bar_len: usize) -> (r: Vec<Piece>)
    requires
        !name_label_panics(name@),
    ensures
        line_view(r) == count_line(name@, count as int, max as int, bar_len as int),
{
    let label = match name_label_exec(name.as_str()) {
        Some(x) => x,
        None => String::new(),
    };
    let bar = if max > 0 && count > 0 {
        repeat_char('\u{2588}', if bar_len > 1 {
            bar_len
        } else {
            1
        })
    } else {
        let e = String::new();
        proof {
            assert(e@ =~= Seq::<char>::empty());
        }
        e
    };
    let a = concat(" (", i64_to_string(count).as_str());
    let b = concat(a.as_str(), ")");
    let mut l: Vec<Piece> = Vec::new();
    push_piece(&mut l, Piece { text: label, tone: Tone::Accent });
    push_piece(&mut l, piece(" ", Tone::Plain));
    push_piece(&mut l, Piece { text: bar, tone: Tone::Secondary });
    push_piece(&mut l, Piece { text: b, tone: Tone::Label });
    proof {
        assert(line_view(l) =~= count_line(name@, count as int, max as int, bar_len as int));
    }
    l
}

/// The stats pane, `width` columns wide. The rounded shares are computed by the caller:
/// `done_r` and `pending_r` of the bar's width, and `bars[i]` of the room for the `i`-th
/// project's bar.
pub fn analytics_lines(state: &AppState, width: usize, done_r: usize, pending_r: usize, bars: &Vec<usize>) -> (r: Vec<Vec<Piece>>)
    requires
        bars@.len() == state@.projects_task_counts.len(),
        i64::MIN <= state.stats.done + state.stats.pending <= i64::MAX,
        i64::MIN <= state.stats.done + state.stats.pending + state.stats.overdue <= i64::MAX,
        done_r + pending_r + width + 3 <= usize::MAX,
        !analytics_panics(state@),
    ensures
        lines_view(r@) == analytics_spec(state@, width as int, done_r as int, pending_r as int, bars@),
{
    let ghost a = state@;
    let st = &state.stats;
    let mut lines: Vec<Vec<Piece>> = Vec::new();
    proof {
        assert(lines_view(lines@) =~= Seq::<Seq<(Seq<char>, Tone)>>::empty());
    }
    push_line(&mut lines, line_of("GLOBAL STATS", Tone::LabelDim));
    push_line(&mut lines, progress_exec(st, width, done_r, pending_r));
    let mut l3: Vec<Piece> = Vec::new();
    let d1 = concat("Done: ", i64_to_string(st.done).as_str());
    push_piece(&mut l3, Piece { text: concat(d1.as_str(), " "), tone: Tone::Done });
    let p1 = concat("Pend: ", i64_to_string(st.pending).as_str());
    push_piece(&mut l3, Piece { text: concat(p1.as_str(), " "), tone: Tone::Pending });
    push_piece(&mut l3, Piece { text: concat("Overdue: ", i64_to_string(st.overdue).as_str()), tone: Tone::Overdue });
    proof {
        assert(line_view(l3) =~= seq![
            ("Done: "@ + int_text(st.done as int) + " "@, Tone::Done),
            ("Pend: "@ + int_text(st.pending as int) + " "@, Tone::Pending),
            ("Overdue: "@ + int_text(st.overdue as int), Tone::Overdue),
        ]);
    }
    push_line(&mut lines, l3);
    let mut l4: Vec<Piece> = Vec::new();
    push_piece(&mut l4, piece("Total Tasks: ", Tone::Label));
    push_piece(&mut l4, Piece { text: i64_to_string(st.total), tone: Tone::AccentBold });
    proof {
        assert(line_view(l4) =~= seq![("Total Tasks: "@, Tone::Label), (int_text(st.total as int), Tone::AccentBold)]);
    }
    push_line(&mut lines, l4);
    push_line(&mut lines, blank_line());
    push_line(&mut lines, line_of("TASKS PER PROJECT", Tone::LabelDim));
    let ghost head = lines_view(lines@);
    let ghost cv = a.projects_task_counts;
    if state.projects_task_counts.len() == 0 {
        push_line(&mut lines, line_of("No projects found.", Tone::Label));
    } else {
        let max = max_task_count(state);
        let mut i: usize = 0;
        proof {
            assert(head + Seq::new(0, |k: int| count_line(cv[k].0, cv[k].1, max_count(cv), bars@[k] as int)) =~= head);
        }
        while i < state.projects_task_counts.len()
            invariant
                a == state@,
                cv == a.projects_task_counts,
                cv.len() == state.projects_task_counts@.len(),
                bars@.len() == cv.len(),
                i <= cv.len(),
                max as int == max_count(cv),
                !analytics_panics(a),
                lines_view(lines@) == head + Seq::new(i as nat, |k: int| count_line(cv[k].0, cv[k].1, max_count(cv), bars@[k] as int)),
            decreases cv.len() - i,
        {
            proof {
                assert(cv[i as int].0 == state.projects_task_counts@[i as int].0@);
                assert(cv[i as int].1 == state.projects_task_counts@[i as int].1 as int);
                if name_label_panics(cv[i as int].0) {
                    assert(analytics_panics(a));
                }
            }
            let l = count_line_exec(&state.projects_task_counts[i].0, state.projects_task_counts[i].1, max, bars[i]);
            push_line(&mut lines, l);
            proof {
                assert(head + Seq::new((i + 1) as nat, |k: int| count_line(cv[k].0, cv[k].1, max_count(cv), bars@[k] as int)) =~= (head + Seq::new(i as nat, |k: int| count_line(cv[k].0, cv[k].1, max_count(cv), bars@[k] as int))).push(count_line(cv[i as int].0, cv[i as int].1, max_count(cv), bars@[i as int] as int)));
            }
            i = i + 1;
        }
    }
    proof {
        assert(lines_view(lines@) =~= analytics_spec(a, width as int, done_r as int, pending_r as int, bars@));
    }
    lines
}

} // verus!
