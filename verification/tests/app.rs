use tdo::dates::Date;
use tdo::engine::Engine;
use tdo::tui::keys::handle_key;
use tdo::tui::refresh::update_stats;
use tdo::tui::state::{AppContext, AppMode, AppState, FormKind, Key};

fn now_ns() -> i128 {
    chrono::Utc::now().timestamp_nanos_opt().unwrap() as i128
}

fn today() -> Date {
    Date { days: chrono::Local::now().date_naive().to_epoch_days() }
}

fn press(state: &mut AppState, key: Key, engine: &mut Engine) -> bool {
    handle_key(state, key, engine, today(), now_ns()).unwrap()
}

fn type_text(state: &mut AppState, text: &str, engine: &mut Engine) {
    for c in text.chars() {
        press(state, Key::Char(c), engine);
    }
}

#[test]
fn test_app_state_initialization() {
    let mut engine = Engine::new();
    engine.create_project("p1", "desc", now_ns()).unwrap();

    let state = AppState::new(&engine, today()).unwrap();
    assert_eq!(state.projects.len(), 1);
    assert_eq!(state.projects[0].name, "p1");
    assert!(matches!(state.context, AppContext::Home));
    assert!(matches!(state.mode, AppMode::Browsing));
}

#[test]
fn test_app_navigation_and_browsing() {
    let mut engine = Engine::new();
    engine.create_project("p1", "desc1", now_ns()).unwrap();
    engine.create_project("p2", "desc2", now_ns()).unwrap();

    let mut state = AppState::new(&engine, today()).unwrap();
    assert_eq!(state.selected, 0);

    // Move down
    press(&mut state, Key::Char('j'), &mut engine);
    assert_eq!(state.selected, 1);

    // Move up
    press(&mut state, Key::Char('k'), &mut engine);
    assert_eq!(state.selected, 0);

    // Quit key returns true
    let quit = press(&mut state, Key::Char('q'), &mut engine);
    assert!(quit);
}

#[test]
fn test_app_search_and_filter() {
    let mut engine = Engine::new();
    engine.create_project("alpha", "desc", now_ns()).unwrap();
    engine.create_project("beta", "desc", now_ns()).unwrap();

    let mut state = AppState::new(&engine, today()).unwrap();

    // Enter search mode
    press(&mut state, Key::Char('/'), &mut engine);
    assert!(matches!(state.mode, AppMode::Search { .. }));

    // Type 'l'
    press(&mut state, Key::Char('l'), &mut engine);
    if let AppMode::Search { buffer } = &state.mode {
        assert_eq!(buffer, "l");
    } else {
        panic!("Expected search mode");
    }

    // Filtering should match "alpha" (selected 0) but not "beta" (length of filtered is 1)
    assert_eq!(state.filtered_projects.len(), 1);
    assert_eq!(state.projects[state.filtered_projects[0]].name, "alpha");

    // Backspace
    press(&mut state, Key::Backspace, &mut engine);
    if let AppMode::Search { buffer } = &state.mode {
        assert_eq!(buffer, "");
    }
    assert_eq!(state.filtered_projects.len(), 2);

    // Esc exits search
    press(&mut state, Key::Esc, &mut engine);
    assert!(matches!(state.mode, AppMode::Browsing));
}

#[test]
fn test_app_project_creation_form() {
    let mut engine = Engine::new();
    let mut state = AppState::new(&engine, today()).unwrap();

    // Search for "new_proj" and hit Enter to trigger project creation form
    press(&mut state, Key::Char('/'), &mut engine);
    type_text(&mut state, "new_proj", &mut engine);
    press(&mut state, Key::Enter, &mut engine);

    // Now in MultiStepForm for project
    assert!(matches!(
        state.mode,
        AppMode::MultiStepForm {
            kind: FormKind::CreateProject,
            step: 0,
            ..
        }
    ));

    // Move to step 1 (Description) and edit it
    press(&mut state, Key::Char('j'), &mut engine);
    press(&mut state, Key::Char('i'), &mut engine);
    type_text(&mut state, "desc", &mut engine);
    press(&mut state, Key::Esc, &mut engine);

    // Move to step 2 (Tags) and edit it
    press(&mut state, Key::Char('j'), &mut engine);
    press(&mut state, Key::Char('i'), &mut engine);
    type_text(&mut state, "#t1 #t2", &mut engine);
    press(&mut state, Key::Esc, &mut engine);

    // Save form by pressing Enter
    press(&mut state, Key::Enter, &mut engine);

    // Completed! App mode goes back to browsing
    assert!(matches!(state.mode, AppMode::Browsing));
    assert_eq!(state.projects.len(), 1);
    assert_eq!(state.projects[0].name, "new_proj");

    let tags = engine.get_tags_for_project("new_proj").unwrap();
    assert_eq!(tags.len(), 2);
}

#[test]
fn test_app_task_creation_form() {
    let mut engine = Engine::new();
    engine.create_project("proj", "desc", now_ns()).unwrap();

    let mut state = AppState::new(&engine, today()).unwrap();

    // Enter project "proj" by hitting Enter on it
    press(&mut state, Key::Enter, &mut engine);
    assert!(matches!(state.context, AppContext::Project { .. }));

    // Enter search mode
    press(&mut state, Key::Char('/'), &mut engine);

    // Search for task "task_test"
    type_text(&mut state, "task_test", &mut engine);

    // Hit enter to start task creation form
    press(&mut state, Key::Enter, &mut engine);
    assert!(matches!(
        state.mode,
        AppMode::MultiStepForm {
            kind: FormKind::CreateTask,
            step: 0,
            ..
        }
    ));

    // Step 1: description
    press(&mut state, Key::Char('j'), &mut engine);
    press(&mut state, Key::Char('i'), &mut engine);
    type_text(&mut state, "task desc", &mut engine);
    press(&mut state, Key::Esc, &mut engine);

    // Step 2: tags
    press(&mut state, Key::Char('j'), &mut engine);
    press(&mut state, Key::Char('i'), &mut engine);
    type_text(&mut state, "#task_tag", &mut engine);
    press(&mut state, Key::Esc, &mut engine);

    // Step 3: priority (1/2/3)
    press(&mut state, Key::Char('j'), &mut engine);
    press(&mut state, Key::Char('i'), &mut engine);
    press(&mut state, Key::Backspace, &mut engine); // clear default "3"
    press(&mut state, Key::Char('1'), &mut engine);
    press(&mut state, Key::Esc, &mut engine);

    // Step 4: due date (leave blank)
    press(&mut state, Key::Char('j'), &mut engine);

    // Submit form
    press(&mut state, Key::Enter, &mut engine);

    // Completed task creation! Mode back to browsing
    assert!(matches!(state.mode, AppMode::Browsing));
    assert_eq!(state.tasks.len(), 1);
    assert_eq!(state.tasks[0].name, "task_test");
    assert_eq!(state.tasks[0].priority, 1);
}

#[test]
fn test_app_task_creation_form_with_relative_due_date() {
    let mut engine = Engine::new();
    engine.create_project("proj", "desc", now_ns()).unwrap();

    let mut state = AppState::new(&engine, today()).unwrap();

    // Enter project "proj" by hitting Enter on it
    press(&mut state, Key::Enter, &mut engine);
    assert!(matches!(state.context, AppContext::Project { .. }));

    // Enter search mode
    press(&mut state, Key::Char('/'), &mut engine);

    // Search for task "task_test"
    type_text(&mut state, "task_test", &mut engine);

    // Hit enter to start task creation form
    press(&mut state, Key::Enter, &mut engine);
    assert!(matches!(
        state.mode,
        AppMode::MultiStepForm {
            kind: FormKind::CreateTask,
            step: 0,
            ..
        }
    ));

    // Go to Step 4: due date
    for _ in 0..4 {
        press(&mut state, Key::Char('j'), &mut engine);
    }

    // Edit due date field
    press(&mut state, Key::Char('i'), &mut engine);
    // Type "+3"
    press(&mut state, Key::Char('+'), &mut engine);
    press(&mut state, Key::Char('3'), &mut engine);
    // Exit insert mode - this should normalize the date
    press(&mut state, Key::Esc, &mut engine);

    // Verify it was normalized in AppMode answers
    if let AppMode::MultiStepForm { answers, .. } = &state.mode {
        let normalized = &answers[4];
        let expected_date = chrono::Local::now().date_naive() + chrono::Days::new(3);
        assert_eq!(normalized, &expected_date.format("%Y-%m-%d").to_string());
    } else {
        panic!("expected MultiStepForm mode");
    }

    // Submit form
    press(&mut state, Key::Enter, &mut engine);

    // Verify task was created with correct date
    assert!(matches!(state.mode, AppMode::Browsing));
    assert_eq!(state.tasks.len(), 1);
    let task = &state.tasks[0];
    let expected_date = (chrono::Local::now().date_naive() + chrono::Days::new(3))
        .and_hms_opt(0, 0, 0)
        .unwrap()
        .and_utc();
    assert_eq!(task.due_date, Some(expected_date.timestamp_nanos_opt().unwrap() as i128));
}

#[test]
fn test_app_project_deletion_confirm() {
    let mut engine = Engine::new();
    engine.create_project("p1", "desc", now_ns()).unwrap();

    let mut state = AppState::new(&engine, today()).unwrap();

    // Trigger delete prompt with 'd'
    press(&mut state, Key::Char('d'), &mut engine);
    assert!(matches!(state.mode, AppMode::ConfirmPrompt { .. }));

    // Confirm with 'y'
    press(&mut state, Key::Char('y'), &mut engine);
    assert!(matches!(state.mode, AppMode::Browsing));
    assert_eq!(state.projects.len(), 0);
}

#[test]
fn test_app_stats_tracking() {
    let mut engine = Engine::new();
    engine.create_project("p1", "desc1", now_ns()).unwrap();
    engine.create_project("p2", "desc2", now_ns()).unwrap();

    // Add a task to p1
    engine.create_task("p1", "t1", "d", 1, None, None, now_ns()).unwrap();

    // Initialize state
    let mut state = AppState::new(&engine, today()).unwrap();

    // Initially global stats should show 1 task, done 0, pending 1
    assert_eq!(state.stats.total, 1);
    assert_eq!(state.stats.pending, 1);
    // And project stats should be for "p1" (selected = 0)
    assert_eq!(state.project_stats.total, 1);
    assert_eq!(state.project_stats.pending, 1);

    // Move to p2 (selected = 1)
    press(&mut state, Key::Char('j'), &mut engine);
    assert_eq!(state.selected, 1);
    // project stats should update for "p2", which has 0 tasks
    assert_eq!(state.project_stats.total, 0);

    // Enter project p2
    press(&mut state, Key::Enter, &mut engine);
    assert!(matches!(state.context, AppContext::Project { .. }));

    // Trigger search and type a non-existent task to create it
    press(&mut state, Key::Char('/'), &mut engine);
    type_text(&mut state, "new_task", &mut engine);
    press(&mut state, Key::Enter, &mut engine); // Start form

    // Fill form steps:
    // Description (skip)
    // Tags (skip)
    // Priority (set to 2)
    // Due date (skip)
    press(&mut state, Key::Char('j'), &mut engine);
    press(&mut state, Key::Char('j'), &mut engine);
    press(&mut state, Key::Char('j'), &mut engine);
    press(&mut state, Key::Char('i'), &mut engine);
    press(&mut state, Key::Backspace, &mut engine); // clear default "3"
    press(&mut state, Key::Char('2'), &mut engine);
    press(&mut state, Key::Esc, &mut engine);
    press(&mut state, Key::Enter, &mut engine);

    // Now stats should be updated!
    // Global stats total should be 2 (1 in p1, 1 in p2)
    assert_eq!(state.stats.total, 2);
    // Project stats for current project (p2) should be 1
    assert_eq!(state.project_stats.total, 1);
    assert_eq!(state.project_stats.p2, 1);

    // Toggle task done
    assert_eq!(state.selected, 0);
    press(&mut state, Key::Char(' '), &mut engine);
    // Now pending should be 0, done 1 for p2 project stats, and 1 done in global
    assert_eq!(state.project_stats.done, 1);
    assert_eq!(state.project_stats.pending, 0);
    assert_eq!(state.stats.done, 1);
    assert_eq!(state.stats.pending, 1); // 1 pending in p1, 0 in p2
}

#[test]
fn test_app_tag_validation() {
    let mut engine = Engine::new();
    let mut state = AppState::new(&engine, today()).unwrap();

    // Start project creation form
    press(&mut state, Key::Char('/'), &mut engine);
    type_text(&mut state, "new_proj", &mut engine);
    press(&mut state, Key::Enter, &mut engine);

    // Move to step 2 (tags)
    press(&mut state, Key::Char('j'), &mut engine); // step 1
    press(&mut state, Key::Char('j'), &mut engine); // step 2

    assert!(matches!(
        state.mode,
        AppMode::MultiStepForm {
            kind: FormKind::CreateProject,
            step: 2,
            ..
        }
    ));

    // Enter insert mode to edit tags
    press(&mut state, Key::Char('i'), &mut engine);
    type_text(&mut state, "invalid_tag", &mut engine);
    // Hit Esc to exit insert mode (validates and sets warning)
    press(&mut state, Key::Esc, &mut engine);

    // Should still be at step 2, with a warning
    if let AppMode::MultiStepForm { step, warning, .. } = &state.mode {
        assert_eq!(*step, 2);
        assert!(warning.is_some());
        assert!(warning.as_ref().unwrap().contains("must start with '#'"));
    } else {
        panic!("Expected MultiStepForm");
    }

    // Enter insert mode again (warning is cleared, backspacing all clears it on Esc)
    press(&mut state, Key::Char('i'), &mut engine);
    for _ in 0..11 {
        press(&mut state, Key::Backspace, &mut engine);
    }
    press(&mut state, Key::Esc, &mut engine);
    if let AppMode::MultiStepForm { warning, .. } = &state.mode {
        assert!(warning.is_none());
    }

    // Enter insert mode to type invalid tag
    press(&mut state, Key::Char('i'), &mut engine);
    type_text(&mut state, "#tag$name", &mut engine);
    press(&mut state, Key::Esc, &mut engine);

    // Should still be at step 2, with a warning
    if let AppMode::MultiStepForm { step, warning, .. } = &state.mode {
        assert_eq!(*step, 2);
        assert!(warning.is_some());
        assert!(
            warning
                .as_ref()
                .unwrap()
                .contains("contains invalid character")
        );
    } else {
        panic!("Expected MultiStepForm");
    }

    // Enter insert mode, clear buffer, and type valid tags
    press(&mut state, Key::Char('i'), &mut engine);
    for _ in 0..9 {
        press(&mut state, Key::Backspace, &mut engine);
    }
    type_text(&mut state, "#valid-tag #valid_tag2 #valid3", &mut engine);
    press(&mut state, Key::Esc, &mut engine);

    // Submit form
    press(&mut state, Key::Enter, &mut engine);

    // Completed!
    assert!(matches!(state.mode, AppMode::Browsing));
    assert_eq!(state.projects.len(), 1);

    let tags = engine.get_tags_for_project("new_proj").unwrap();
    assert_eq!(tags.len(), 3);
}

#[test]
fn test_app_pending_today() {
    let mut engine = Engine::new();
    engine.create_project("proj", "desc", now_ns()).unwrap();
    let now = now_ns();
    engine
        .create_task("proj", "task1", "desc", 1, Some(now), None, now_ns())
        .unwrap();

    let mut state = AppState::new(&engine, today()).unwrap();
    assert_eq!(state.pending_today.len(), 1);
    assert_eq!(state.pending_today[0].task.name, "task1");
    assert_eq!(state.pending_today[0].project_name, "proj");

    // Complete the task and see if it's removed from pending_today
    engine.toggle_done("proj", "task1", now_ns()).unwrap();
    update_stats(&mut state, &engine, today()).unwrap();
    assert_eq!(state.pending_today.len(), 0);
}

#[test]
fn invalid_priority_keeps_the_form_open() {
    let mut engine = Engine::new();
    engine.create_project("proj", "", now_ns()).unwrap();
    let mut state = AppState::new(&engine, today()).unwrap();
    press(&mut state, Key::Enter, &mut engine);
    press(&mut state, Key::Char('/'), &mut engine);
    type_text(&mut state, "t", &mut engine);
    press(&mut state, Key::Enter, &mut engine);
    for _ in 0..3 {
        press(&mut state, Key::Char('j'), &mut engine);
    }
    press(&mut state, Key::Char('i'), &mut engine);
    press(&mut state, Key::Backspace, &mut engine);
    type_text(&mut state, "7", &mut engine);
    press(&mut state, Key::Esc, &mut engine);
    press(&mut state, Key::Char('k'), &mut engine);
    press(&mut state, Key::Enter, &mut engine);
    if let AppMode::MultiStepForm { step, warning, .. } = &state.mode {
        assert_eq!(*step, 3);
        assert_eq!(warning.as_deref(), Some("Priority must be 1, 2, or 3"));
    } else {
        panic!("the form should stay open");
    }
    assert!(engine.list_tasks("proj").unwrap().is_empty());
}

#[test]
fn esc_leaves_a_project_on_its_entry() {
    let mut engine = Engine::new();
    engine.create_project("a", "", now_ns()).unwrap();
    engine.create_project("b", "", now_ns()).unwrap();
    let mut state = AppState::new(&engine, today()).unwrap();
    press(&mut state, Key::Char('j'), &mut engine);
    let name = state.projects[state.selected].name.clone();
    press(&mut state, Key::Enter, &mut engine);
    assert!(matches!(&state.context, AppContext::Project { name: n, .. } if *n == name));
    press(&mut state, Key::Esc, &mut engine);
    assert!(matches!(state.context, AppContext::Home));
    assert_eq!(state.projects[state.selected].name, name);
}

#[test]
fn tab_opens_the_calendar_on_today() {
    let mut engine = Engine::new();
    let mut state = AppState::new(&engine, today()).unwrap();
    press(&mut state, Key::Tab, &mut engine);
    assert_eq!(state.right_pane, tdo::tui::state::RightPane::Calendar);
    assert!(state.calendar.day_tasks.is_some());
    let day = state.calendar.cursor_day;
    press(&mut state, Key::Char('l'), &mut engine);
    assert!(state.calendar.cursor_day == day + 1 || state.calendar.cursor_day == 1);
    press(&mut state, Key::Esc, &mut engine);
    assert_eq!(state.right_pane, tdo::tui::state::RightPane::PendingToday);
}

fn completed_recurring(engine: &mut Engine) -> (i64, i64) {
    let now = now_ns();
    engine.create_project("p", "", now).unwrap();
    let due = (today().days as i128 + 2) * 86_400_000_000_000;
    let t = engine
        .create_task("p", "water", "", 2, Some(due), Some("weekly".to_string()), now)
        .unwrap();
    engine.toggle_done_by_id(t.id, now).unwrap();
    let copy = engine
        .list_tasks("p")
        .unwrap()
        .into_iter()
        .find(|x| x.id != t.id)
        .unwrap();
    (t.id, copy.id)
}

#[test]
fn space_acts_on_the_selected_task_not_its_namesake() {
    let mut engine = Engine::new();
    let (done_id, copy_id) = completed_recurring(&mut engine);
    let mut state = AppState::new(&engine, today()).unwrap();
    press(&mut state, Key::Enter, &mut engine);
    let sel = state.tasks.iter().position(|t| t.id == done_id).unwrap();
    while state.selected < sel {
        press(&mut state, Key::Char('j'), &mut engine);
    }
    // Reopening the done task clashes with its pending copy: refused, and the copy stays
    // pending.
    let r = handle_key(&mut state, Key::Char(' '), &mut engine, today(), now_ns());
    assert!(r.is_err());
    let tasks = engine.list_tasks("p").unwrap();
    assert!(tasks.iter().any(|t| t.id == copy_id && !t.done));
    assert!(tasks.iter().any(|t| t.id == done_id && t.done));
}

#[test]
fn editing_saves_to_the_selected_task_not_its_namesake() {
    let mut engine = Engine::new();
    let (done_id, copy_id) = completed_recurring(&mut engine);
    let mut state = AppState::new(&engine, today()).unwrap();
    press(&mut state, Key::Enter, &mut engine);
    let sel = state.tasks.iter().position(|t| t.id == done_id).unwrap();
    while state.selected < sel {
        press(&mut state, Key::Char('j'), &mut engine);
    }
    press(&mut state, Key::Char('i'), &mut engine);
    press(&mut state, Key::Char('j'), &mut engine);
    press(&mut state, Key::Char('j'), &mut engine);
    press(&mut state, Key::Char('i'), &mut engine);
    type_text(&mut state, "#late", &mut engine);
    press(&mut state, Key::Esc, &mut engine);
    press(&mut state, Key::Enter, &mut engine);
    assert!(matches!(state.mode, AppMode::Browsing));
    let on_done: Vec<String> = engine.get_tags_for_task_by_id(done_id).unwrap().into_iter().map(|t| t.name).collect();
    let on_copy: Vec<String> = engine.get_tags_for_task_by_id(copy_id).unwrap().into_iter().map(|t| t.name).collect();
    assert_eq!(on_done, vec!["late"]);
    assert!(on_copy.is_empty());
}

#[test]
fn global_counts_are_the_sum_of_the_projects() {
    let mut engine = Engine::new();
    let now = now_ns();
    engine.create_project("a", "", now).unwrap();
    engine.create_project("b", "", now).unwrap();
    engine.create_task("a", "x", "", 1, None, None, now).unwrap();
    engine.create_task("a", "y", "", 5, None, None, now).unwrap();
    engine.create_task("b", "z", "", 2, Some(0), None, now).unwrap();
    let g = engine.global_stats(today()).unwrap();
    let pa = engine.project_stats("a", today()).unwrap();
    let pb = engine.project_stats("b", today()).unwrap();
    assert_eq!(g.total, pa.total + pb.total);
    assert_eq!(g.overdue, pa.overdue + pb.overdue);
    assert_eq!(g.pending, pa.pending + pb.pending);
    assert_eq!(g.p1 + g.p2 + g.p3 + g.p4, 2);
    assert_eq!(g.total, 3);
}
