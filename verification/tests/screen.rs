use tdo::dates::Date;
use tdo::engine::Engine;
use tdo::models::{Project, Stats, Subtask, Tag, Task};
use tdo::tui::display::{due_label, hint_text};
use tdo::tui::keys::handle_key;
use tdo::tui::screen::{
    bar_split_exec, centered_rect_fixed, form_lines, grid_lines, header_text, metadata_lines,
    name_label_exec, pending_today_lines, project_rows, task_rows, tasks_title, Piece, Tone,
};
use tdo::tui::state::{AppContext, AppState, Key};
use tdo::tui::theme::{
    config_would_panic, hex_color_would_panic, parse_hex_color, text_lines_exec,
    theme_default, theme_from_config, Color,
};

const DAY: i128 = 86_400_000_000_000;

fn d(y: i32, m: u32, dd: u32) -> Date {
    Date { days: chrono::NaiveDate::from_ymd_opt(y, m, dd).unwrap().to_epoch_days() }
}

fn texts(line: &Vec<Piece>) -> Vec<(String, Tone)> {
    line.iter().map(|p| (p.text.clone(), p.tone)).collect()
}

fn joined(line: &Vec<Piece>) -> String {
    line.iter().map(|p| p.text.as_str()).collect::<Vec<_>>().join("")
}

#[test]
fn hex_colours_parse_with_or_without_quotes_and_hash() {
    assert_eq!(parse_hex_color("#ff0080"), Some(Color::Rgb(255, 0, 128)));
    assert_eq!(parse_hex_color("  \"#A6E3a1\" "), Some(Color::Rgb(166, 227, 161)));
    assert_eq!(parse_hex_color("010203"), Some(Color::Rgb(1, 2, 3)));
    assert_eq!(parse_hex_color("#12345"), None);
    assert_eq!(parse_hex_color("#gg0000"), None);
    assert_eq!(parse_hex_color("##+f+f+f"), Some(Color::Rgb(15, 15, 15)));
}

#[test]
fn hex_colour_cut_inside_a_character_is_flagged() {
    // "é" takes two bytes: the cut after two bytes falls inside it.
    assert!(hex_color_would_panic("aé123"));
    assert!(!hex_color_would_panic("#ff0080"));
    assert!(!hex_color_would_panic("toolong1"));
}

#[test]
fn theme_file_lines_override_the_defaults() {
    let content = "accent = \"#010203\"\ncursor=#040506\r\ncolor1 = #ff0000\ncolor8 = #101010\nother = #222222\nbad line\ncolor5 = nothex";
    assert!(!config_would_panic(content));
    let t = theme_from_config(content);
    let def = theme_default();
    assert_eq!(t.border_active, Color::Rgb(1, 2, 3));
    assert_eq!(t.primary_accent, Color::Rgb(1, 2, 3));
    assert_eq!(t.secondary_accent, Color::Rgb(4, 5, 6));
    assert_eq!(t.status_overdue, Color::Rgb(255, 0, 0));
    assert_eq!(t.border_inactive, Color::Rgb(16, 16, 16));
    assert_eq!(t.tag, def.tag);
    assert_eq!(t.status_done, def.status_done);
    assert_eq!(theme_from_config(""), def);
}

#[test]
fn theme_lines_split_like_str_lines() {
    let lines = text_lines_exec("a\r\nb\n\nc\r");
    assert_eq!(lines, vec!["a", "b", "", "c\r"]);
    assert_eq!(text_lines_exec("x\n"), vec!["x"]);
    assert!(text_lines_exec("").is_empty());
}

#[test]
fn a_theme_line_that_would_panic_is_flagged() {
    assert!(config_would_panic("accent = aé123\n"));
}

#[test]
fn due_labels_count_days() {
    let today = d(2026, 6, 10);
    let ts = |y, m, dd| d(y, m, dd).days as i128 * DAY + 3_600_000_000_000;
    assert_eq!(due_label(None, today), "no due date");
    assert_eq!(due_label(Some(ts(2026, 6, 10)), today), "due today");
    assert_eq!(due_label(Some(ts(2026, 6, 13)), today), "due in 3d");
    assert_eq!(due_label(Some(ts(2026, 6, 8)), today), "overdue 2d");
}

#[test]
fn progress_bar_split_fills_the_width() {
    assert_eq!(bar_split_exec(1, 1, 1, 9, 3, 3), (3, 3, 3));
    // A kind with tasks gets a cell; the done part gives way.
    assert_eq!(bar_split_exec(98, 1, 1, 10, 10, 0), (8, 1, 1));
    // Rounding over: the done part gives way.
    assert_eq!(bar_split_exec(1, 1, 0, 5, 3, 3), (2, 3, 0));
}

#[test]
fn project_names_take_twelve_columns() {
    assert_eq!(name_label_exec("home").unwrap(), "home        ");
    assert_eq!(name_label_exec("a-very-long-project").unwrap(), "a-very-long\u{2026}");
    // Byte 11 falls inside "é".
    assert_eq!(name_label_exec("abcdefghijé-x"), None);
}

#[test]
fn centered_box_is_clipped_to_the_area() {
    assert_eq!(centered_rect_fixed(64, 10, 0, 0, 100, 40), (18, 15, 64, 10));
    assert_eq!(centered_rect_fixed(64, 50, 2, 3, 40, 20), (2, 3, 40, 20));
}

fn sample() -> (Engine, AppState, Date) {
    let now = chrono::Utc::now().timestamp_nanos_opt().unwrap() as i128;
    let today = d(2026, 6, 10);
    let mut engine = Engine::new();
    engine.create_project("work", "", now).unwrap();
    engine.add_tags_to_project("work", &["a", "b"]).unwrap();
    let due = d(2026, 6, 12).days as i128 * DAY;
    engine
        .create_task("work", "write", "the report", 1, Some(due), Some("weekly".to_string()), now)
        .unwrap();
    let state = AppState::new(&engine, today).unwrap();
    (engine, state, today)
}

#[test]
fn header_and_metadata_of_the_selected_project() {
    let (_e, state, _t) = sample();
    assert_eq!(header_text(&state), " tdo  ~  home");
    let lines = metadata_lines(&state);
    assert_eq!(lines.len(), 9);
    assert_eq!(texts(&lines[0]), vec![("PROJECT".to_string(), Tone::LabelDim)]);
    assert_eq!(texts(&lines[1]), vec![("work".to_string(), Tone::AccentBold)]);
    assert_eq!(texts(&lines[4]), vec![("No description.".to_string(), Tone::Label)]);
    assert_eq!(joined(&lines[7]), "#a #b ");
    assert_eq!(tasks_title(&state), " tasks \u{2014} work ");
    let rows = project_rows(&state);
    assert_eq!(texts(&rows[0]), vec![("\u{25b6} work".to_string(), Tone::HighlightBold)]);
}

#[test]
fn task_rows_and_details_inside_a_project() {
    let (mut engine, mut state, today) = sample();
    handle_key(&mut state, Key::Enter, &mut engine, today, 0).unwrap();
    assert!(matches!(state.context, AppContext::Project { .. }));
    assert_eq!(header_text(&state), " tdo  ~  home  /  work");
    let rows = task_rows(&state, today);
    assert_eq!(rows.len(), 1);
    assert_eq!(
        texts(&rows[0]),
        vec![
            ("\u{25b6} [ ] write \u{1f504} (weekly)".to_string(), Tone::HighlightBold),
            ("  ".to_string(), Tone::Plain),
            ("P1".to_string(), Tone::Overdue),
            ("  ".to_string(), Tone::Plain),
            ("due in 2d".to_string(), Tone::Label),
        ]
    );
    let lines = metadata_lines(&state);
    assert_eq!(lines.len(), 15);
    assert_eq!(joined(&lines[0]), "PROJECT: work");
    assert_eq!(joined(&lines[8]), "PRIORITY: P1 (High)");
    assert_eq!(joined(&lines[10]), "DUE DATE: 2026-06-12");
}

#[test]
fn form_lines_show_fields_and_footer() {
    let (mut engine, mut state, today) = sample();
    assert!(form_lines(&state, 80).is_none());
    handle_key(&mut state, Key::Char('/'), &mut engine, today, 0).unwrap();
    for c in "new".chars() {
        handle_key(&mut state, Key::Char(c), &mut engine, today, 0).unwrap();
    }
    handle_key(&mut state, Key::Enter, &mut engine, today, 0).unwrap();
    let lines = form_lines(&state, 80).unwrap();
    assert_eq!(joined(&lines[0]), "\u{2726}  CREATE NEW PROJECT  \u{2726}");
    assert_eq!(joined(&lines[1]).chars().count(), 60);
    assert_eq!(joined(&lines[3]), "\u{25b6} name           : new");
    assert_eq!(joined(&lines[4]), "  description    : ");
    assert_eq!(
        joined(lines.last().unwrap()),
        "[Normal Mode]  j/k: navigate  \u{b7}  i: edit field  \u{b7}  Enter: save  \u{b7}  Esc: cancel"
    );
    assert_eq!(hint_text(&state).starts_with("  [NORMAL]"), true);
}

#[test]
fn calendar_grid_of_a_month() {
    let (mut engine, mut state, today) = sample();
    handle_key(&mut state, Key::Tab, &mut engine, today, 0).unwrap();
    let lines = grid_lines(&state, today);
    assert_eq!(joined(&lines[0]), "  June  2026");
    assert_eq!(joined(&lines[1]), " Mo Tu We Th Fr Sa Su");
    // June 2026 starts on a Monday: five weeks.
    assert_eq!(lines.len(), 7);
    assert_eq!(joined(&lines[2]), "  1  2  3  4  5  6  7");
    assert_eq!(lines[3][2].tone, Tone::Cursor);
    assert_eq!(lines[6][2].text, "   ");
}

#[test]
fn pending_today_pane_says_when_empty() {
    let (_e, state, _t) = sample();
    let lines = pending_today_lines(&state);
    assert_eq!(texts(&lines[0]), vec![("No pending tasks for today.".to_string(), Tone::Label)]);
}

#[test]
fn loaded_tables_are_checked_against_the_schema() {
    let p = Project { id: 1, name: "p".to_string(), description: String::new(), created_at: 0 };
    let t = Task {
        id: 1,
        project_id: 1,
        name: "t".to_string(),
        description: String::new(),
        priority: 2,
        due_date: None,
        recurrence: None,
        done: false,
        created_at: 0,
    };
    let s = Subtask { id: 1, task_id: 1, name: "s".to_string(), due_date: None, done: false, created_at: 0 };
    let g = Tag { id: 1, name: "x".to_string() };
    let e = Engine::from_tables(
        vec![p.copy()],
        vec![g.copy()],
        vec![(1, 1)],
        vec![t.copy()],
        vec![(1, 1)],
        vec![s.copy()],
    );
    let e = e.unwrap();
    assert_eq!(e.project_table().len(), 1);
    assert_eq!(e.task_tag_table(), &vec![(1, 1)]);
    // A task in a project that does not exist.
    let mut orphan = t.copy();
    orphan.project_id = 7;
    assert!(Engine::from_tables(vec![p.copy()], vec![], vec![], vec![orphan], vec![], vec![]).is_none());
    // Two projects of one name.
    let mut p2 = p.copy();
    p2.id = 2;
    assert!(Engine::from_tables(vec![p.copy(), p2], vec![], vec![], vec![], vec![], vec![]).is_none());
    // Ids out of order.
    let mut p3 = p.copy();
    p3.id = 0;
    p3.name = "q".to_string();
    assert!(Engine::from_tables(vec![p.copy(), p3], vec![], vec![], vec![], vec![], vec![]).is_none());
    // A repeated link.
    assert!(Engine::from_tables(vec![p], vec![g], vec![(1, 1), (1, 1)], vec![], vec![], vec![]).is_none());
    let _ = Stats::zero();
}

#[test]
fn a_store_rebuilt_from_its_tables_is_the_same() {
    let (engine, _state, _today) = sample();
    let again = Engine::from_tables(
        engine.project_table().iter().map(|p| p.copy()).collect(),
        engine.tag_table().iter().map(|t| t.copy()).collect(),
        engine.project_tag_table().clone(),
        engine.task_table().iter().map(|t| t.copy()).collect(),
        engine.task_tag_table().clone(),
        engine.subtask_table().iter().map(|s| s.copy()).collect(),
    )
    .unwrap();
    assert_eq!(again.project_names().unwrap(), engine.project_names().unwrap());
    assert_eq!(again.task_table().len(), engine.task_table().len());
    assert_eq!(again.project_tag_table(), engine.project_tag_table());
}
