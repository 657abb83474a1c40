use chrono::Datelike;
use tdo::dates::Date;
use tdo::engine::Engine;
use tdo::models::{ProjectPatch, Recurrence, StoreError, SubtaskPatch, TaskPatch};

const DAY: i128 = 86_400_000_000_000;

fn now_ns() -> i128 {
    chrono::Utc::now().timestamp_nanos_opt().unwrap() as i128
}

fn local_today() -> Date {
    Date { days: chrono::Local::now().date_naive().to_epoch_days() }
}

fn utc_today() -> Date {
    Date { days: chrono::Utc::now().date_naive().to_epoch_days() }
}

#[test]
fn test_project_crud() {
    let mut engine = Engine::new();

    // Create project
    let p = engine.create_project("test_proj", "desc", now_ns()).unwrap();
    assert_eq!(p.name, "test_proj");
    assert_eq!(p.description, "desc");

    // Duplicate name should fail
    let err = engine.create_project("test_proj", "other", now_ns()).unwrap_err();
    assert!(matches!(err, StoreError::NameTaken(_)));

    // List projects
    let list = engine.list_projects().unwrap();
    assert_eq!(list.len(), 1);
    assert_eq!(list[0].name, "test_proj");

    // Project names
    let names = engine.project_names().unwrap();
    assert_eq!(names, vec!["test_proj".to_string()]);

    // Modify project
    let patch = ProjectPatch {
        name: Some("test_proj_new".to_string()),
        description: Some("new desc".to_string()),
    };
    let updated = engine.modify_project("test_proj", patch).unwrap().unwrap();
    assert_eq!(updated.name, "test_proj_new");
    assert_eq!(updated.description, "new desc");

    // Delete project
    let deleted = engine.delete_project("test_proj_new").unwrap();
    assert!(deleted);
    assert_eq!(engine.list_projects().unwrap().len(), 0);
}

#[test]
fn test_task_crud() {
    let mut engine = Engine::new();
    engine.create_project("proj", "desc", now_ns()).unwrap();

    // Create task
    let t = engine
        .create_task("proj", "task1", "task desc", 1, None, None, now_ns())
        .unwrap();
    assert_eq!(t.name, "task1");
    assert_eq!(t.priority, 1);
    assert!(!t.done);

    // Duplicate task name in same project should fail
    let err = engine
        .create_task("proj", "task1", "other", 2, None, None, now_ns())
        .unwrap_err();
    assert!(matches!(err, StoreError::TaskNameTaken(_)));

    // List tasks
    let list = engine.list_tasks("proj").unwrap();
    assert_eq!(list.len(), 1);
    assert_eq!(list[0].name, "task1");

    // Toggle done
    let toggled = engine.toggle_done("proj", "task1", now_ns()).unwrap();
    assert!(toggled.done);

    // Modify task
    let patch = TaskPatch {
        name: Some("task1_new".to_string()),
        description: Some("new desc".to_string()),
        priority: Some(2),
        due_date: None,
        recurrence: None,
        done: Some(false),
    };
    let modified = engine.modify_task("proj", "task1", patch, now_ns()).unwrap().unwrap();
    assert_eq!(modified.name, "task1_new");
    assert_eq!(modified.description, "new desc");
    assert_eq!(modified.priority, 2);
    assert!(!modified.done);

    // Delete task
    let deleted = engine.delete_task("proj", "task1_new").unwrap();
    assert!(deleted);
    assert_eq!(engine.list_tasks("proj").unwrap().len(), 0);
}

#[test]
fn test_tags() {
    let mut engine = Engine::new();
    engine.create_project("proj", "desc", now_ns()).unwrap();
    engine
        .create_task("proj", "task1", "desc", 3, None, None, now_ns())
        .unwrap();

    // Add tags to project
    engine
        .add_tags_to_project("proj", &["tag1", "tag2"])
        .unwrap();
    let p_tags = engine.get_tags_for_project("proj").unwrap();
    assert_eq!(p_tags.len(), 2);
    let mut p_tag_names: Vec<String> = p_tags.into_iter().map(|t| t.name).collect();
    p_tag_names.sort();
    assert_eq!(p_tag_names, vec!["tag1".to_string(), "tag2".to_string()]);

    // Remove tag from project
    let removed = engine.remove_tag_from_project("proj", "tag1").unwrap();
    assert!(removed);
    let p_tags = engine.get_tags_for_project("proj").unwrap();
    assert_eq!(p_tags.len(), 1);
    assert_eq!(p_tags[0].name, "tag2");

    // Add tags to task
    engine
        .add_tags_to_task("proj", "task1", &["task_tag"])
        .unwrap();
}

#[test]
fn test_stats() {
    let mut engine = Engine::new();
    let today = local_today();
    engine.create_project("proj", "desc", now_ns()).unwrap();
    engine
        .create_task("proj", "t1", "d", 1, None, None, now_ns())
        .unwrap();
    engine
        .create_task("proj", "t2", "d", 2, None, None, now_ns())
        .unwrap();

    let stats = engine.project_stats("proj", today).unwrap();
    assert_eq!(stats.total, 2);
    assert_eq!(stats.p1, 1);
    assert_eq!(stats.p2, 1);
    assert_eq!(stats.done, 0);

    engine.toggle_done("proj", "t1", now_ns()).unwrap();
    let stats = engine.project_stats("proj", today).unwrap();
    assert_eq!(stats.done, 1);

    let g_stats = engine.global_stats(today).unwrap();
    assert_eq!(g_stats.total, 2);
    assert_eq!(g_stats.done, 1);
}

#[test]
fn test_pending_today_tasks() {
    let mut engine = Engine::new();
    engine.create_project("proj1", "desc1", now_ns()).unwrap();
    engine.create_project("proj2", "desc2", now_ns()).unwrap();

    let today = now_ns();
    engine
        .create_task("proj1", "task1", "d", 1, Some(today), None, now_ns())
        .unwrap();
    engine
        .create_task("proj2", "task2", "d", 2, Some(today), None, now_ns())
        .unwrap();

    let tomorrow = today + DAY;
    engine
        .create_task("proj1", "task3", "d", 3, Some(tomorrow), None, now_ns())
        .unwrap();

    let pending_today = engine.list_pending_today_tasks(local_today()).unwrap();
    assert_eq!(pending_today.len(), 2);
    assert_eq!(pending_today[0].task.name, "task1");
    assert_eq!(pending_today[0].project_name, "proj1");
    assert_eq!(pending_today[1].task.name, "task2");
    assert_eq!(pending_today[1].project_name, "proj2");
}

#[test]
fn test_list_today_tasks() {
    let mut engine = Engine::new();
    engine.create_project("proj", "desc", now_ns()).unwrap();
    let day = local_today();

    // 1. Initially, no tasks -> list_today_tasks() is empty
    assert!(engine.list_today_tasks(day).unwrap().is_empty());

    let today = now_ns();
    let yesterday = today - DAY;
    let tomorrow = today + DAY;

    // 2. Future task -> list_today_tasks() is still empty because it's not due yet
    engine
        .create_task("proj", "future", "d", 1, Some(tomorrow), None, now_ns())
        .unwrap();
    assert!(engine.list_today_tasks(day).unwrap().is_empty());

    // 3. Overdue task (priority 3) -> should be returned
    engine
        .create_task("proj", "overdue", "d", 3, Some(yesterday), None, now_ns())
        .unwrap();
    let list = engine.list_today_tasks(day).unwrap();
    assert_eq!(list.len(), 1);
    assert_eq!(list[0].task.name, "overdue");

    // 4. Today task (priority 2) -> priority 2 is higher than 3 (priority ASC order)
    engine
        .create_task("proj", "today_p2", "d", 2, Some(today), None, now_ns())
        .unwrap();
    let list = engine.list_today_tasks(day).unwrap();
    assert_eq!(list.len(), 2);
    assert_eq!(list[0].task.name, "today_p2");
    assert_eq!(list[1].task.name, "overdue");

    // 5. Overdue task (priority 1) -> priority 1 is even higher, should be returned first
    engine
        .create_task("proj", "overdue_p1", "d", 1, Some(yesterday), None, now_ns())
        .unwrap();
    let list = engine.list_today_tasks(day).unwrap();
    assert_eq!(list.len(), 3);
    assert_eq!(list[0].task.name, "overdue_p1");
    assert_eq!(list[1].task.name, "today_p2");
    assert_eq!(list[2].task.name, "overdue");

    // 6. Complete the highest priority task -> next should be "today_p2"
    engine.toggle_done("proj", "overdue_p1", now_ns()).unwrap();
    let list = engine.list_today_tasks(day).unwrap();
    assert_eq!(list.len(), 2);
    assert_eq!(list[0].task.name, "today_p2");
    assert_eq!(list[1].task.name, "overdue");
}

#[test]
fn test_subtasks() {
    let mut engine = Engine::new();
    engine.create_project("proj", "desc", now_ns()).unwrap();
    engine
        .create_task("proj", "task1", "task desc", 1, None, None, now_ns())
        .unwrap();

    // 1. Create subtask
    let st1 = engine
        .create_subtask("proj", "task1", "sub1", None, now_ns())
        .unwrap();
    assert_eq!(st1.name, "sub1");
    assert!(!st1.done);

    // Duplicate subtask name should fail
    let err = engine
        .create_subtask("proj", "task1", "sub1", None, now_ns())
        .unwrap_err();
    assert!(matches!(err, StoreError::SubtaskNameTaken(_)));

    // 2. List subtasks
    let list = engine.list_subtasks("proj", "task1").unwrap();
    assert_eq!(list.len(), 1);
    assert_eq!(list[0].name, "sub1");

    // 3. Strict completion check: cannot mark task1 done since sub1 is undone
    let err = engine.toggle_done("proj", "task1", now_ns()).unwrap_err();
    assert!(matches!(err, StoreError::PendingSubtasks(_)));

    // 4. Toggle subtask done
    let st1 = engine.toggle_subtask_done("proj", "task1", "sub1").unwrap();
    assert!(st1.done);

    // 5. Now we can mark task1 done
    let t1 = engine.toggle_done("proj", "task1", now_ns()).unwrap();
    assert!(t1.done);

    // 6. Creating a new subtask (starts undone) should reopen the task
    let st2 = engine
        .create_subtask("proj", "task1", "sub2", None, now_ns())
        .unwrap();
    assert_eq!(st2.name, "sub2");
    assert!(!st2.done);

    let t1 = engine.get_task_by_name("proj", "task1").unwrap();
    assert!(!t1.done); // Auto-reopened!

    // Complete sub2
    engine.toggle_subtask_done("proj", "task1", "sub2").unwrap();
    // Mark task1 done again
    engine.toggle_done("proj", "task1", now_ns()).unwrap();

    // 7. Toggling subtask undone should reopen task1
    engine.toggle_subtask_done("proj", "task1", "sub1").unwrap(); // sub1 is now undone
    let t1 = engine.get_task_by_name("proj", "task1").unwrap();
    assert!(!t1.done); // Auto-reopened!

    // 8. Delete subtask
    let deleted = engine.delete_subtask("proj", "task1", "sub1").unwrap();
    assert!(deleted);
    let list = engine.list_subtasks("proj", "task1").unwrap();
    assert_eq!(list.len(), 1);
    assert_eq!(list[0].name, "sub2");
}

#[test]
fn test_subtask_due_dates() {
    let mut engine = Engine::new();
    engine.create_project("proj", "desc", now_ns()).unwrap();

    let today = now_ns();
    let tomorrow = today + DAY;
    let yesterday = today - DAY;

    engine
        .create_task("proj", "task1", "desc", 1, Some(today), None, now_ns())
        .unwrap();

    // 1. Create subtask with valid due date (yesterday < today)
    let st1 = engine
        .create_subtask("proj", "task1", "sub1", Some(yesterday), now_ns())
        .unwrap();
    assert_eq!(st1.due_date, Some(yesterday));

    // 2. Create subtask with invalid due date (tomorrow > today)
    let err = engine
        .create_subtask("proj", "task1", "sub2", Some(tomorrow), now_ns())
        .unwrap_err();
    assert!(matches!(err, StoreError::InvalidDueDate(_)));

    // 3. Modify subtask with invalid due date
    let err = engine
        .modify_subtask(
            "proj",
            "task1",
            "sub1",
            SubtaskPatch {
                name: None,
                done: None,
                due_date: Some(Some(tomorrow)),
            },
        )
        .unwrap_err();
    assert!(matches!(err, StoreError::InvalidDueDate(_)));

    // 4. Verify subtasks appear in list_today_tasks
    // We expect task1 (due today) and sub1 (due yesterday, so overdue <= today)
    let list = engine.list_today_tasks(local_today()).unwrap();
    let has_task = list.iter().any(|t| t.task.name == "task1");
    let has_subtask = list.iter().any(|t| t.task.name == "task1 \u{21aa} sub1");
    assert!(has_task);
    assert!(has_subtask);

    // 5. Verify subtasks appear in list_tasks_due_on and count_tasks_due_on
    let yesterday_utc = chrono::DateTime::from_timestamp_nanos(yesterday as i64);
    let yesterday_local = yesterday_utc.with_timezone(&chrono::Local);
    let year = yesterday_local.year();
    let month = yesterday_local.month();
    let day = yesterday_local.day();
    let count = engine.count_tasks_due_on(year, month, day).unwrap();
    assert_eq!(count, 1);

    let due_list = engine.list_tasks_due_on(year, month, day).unwrap();
    assert_eq!(due_list.len(), 1);
    assert_eq!(due_list[0].task.name, "task1 \u{21aa} sub1");
}

#[test]
fn test_task_recurrence() {
    let mut engine = Engine::new();
    engine.create_project("proj", "desc", now_ns()).unwrap();

    let today = now_ns();
    // Create a repetitive task (daily)
    let t = engine
        .create_task(
            "proj",
            "daily_task",
            "desc",
            1,
            Some(today),
            Some("daily".to_string()),
            now_ns(),
        )
        .unwrap();
    assert_eq!(t.recurrence, Some("daily".to_string()));
    assert_eq!(t.due_date, Some(today));

    // Add subtask
    engine
        .create_subtask("proj", "daily_task", "sub1", Some(today), now_ns())
        .unwrap();

    // Add tag
    engine
        .add_tags_to_task("proj", "daily_task", &["tag1"])
        .unwrap();

    // Complete subtask first
    engine
        .toggle_subtask_done("proj", "daily_task", "sub1")
        .unwrap();

    // Complete the task
    let updated = engine.toggle_done("proj", "daily_task", now_ns()).unwrap();
    assert!(updated.done);

    // A new copy should be created with tomorrow's due date
    let tasks = engine.list_tasks("proj").unwrap();
    // There should be 2 tasks now: one completed (daily_task) and one pending (daily_task)
    assert_eq!(tasks.len(), 2);

    let pending_task = tasks.iter().find(|tk| !tk.done).unwrap();
    assert_eq!(pending_task.name, "daily_task");
    assert_eq!(pending_task.recurrence, Some("daily".to_string()));
    let tomorrow = today + DAY;
    assert_eq!(pending_task.due_date, Some(tomorrow));

    // Subtask should be cloned and set to undone under the new task
    let subtasks = engine.get_subtasks_for_task(pending_task.id).unwrap();
    assert_eq!(subtasks.len(), 1);
    assert_eq!(subtasks[0].name, "sub1");
    assert!(!subtasks[0].done);
    assert_eq!(subtasks[0].due_date, Some(tomorrow));

    // Tag should be cloned
    let tags = engine.get_tags_for_task_by_id(pending_task.id).unwrap();
    assert_eq!(tags.len(), 1);
    assert_eq!(tags[0].name, "tag1");
}

#[test]
fn test_task_recurrence_multiple_instances() {
    let mut engine = Engine::new();
    engine.create_project("proj", "desc", now_ns()).unwrap();

    let today = now_ns();
    // Create a repetitive task (daily)
    let _t = engine
        .create_task(
            "proj",
            "daily_task",
            "desc",
            1,
            Some(today),
            Some("daily".to_string()),
            now_ns(),
        )
        .unwrap();

    // 1. Complete the first instance
    let updated1 = engine.toggle_done("proj", "daily_task", now_ns()).unwrap();
    assert!(updated1.done);

    // 2. Fetch the newly spawned second instance and complete it too
    let tasks = engine.list_tasks("proj").unwrap();
    assert_eq!(tasks.len(), 2);
    let pending_task = tasks.iter().find(|tk| !tk.done).unwrap();
    assert_eq!(pending_task.name, "daily_task");

    let updated2 = engine.toggle_done_by_id(pending_task.id, now_ns()).unwrap();
    assert!(updated2.done);

    // 3. There should now be 3 tasks: 2 completed and 1 pending
    let tasks = engine.list_tasks("proj").unwrap();
    assert_eq!(tasks.len(), 3);
    let completed_count = tasks.iter().filter(|tk| tk.done).count();
    assert_eq!(completed_count, 2);
    let pending_count = tasks.iter().filter(|tk| !tk.done).count();
    assert_eq!(pending_count, 1);
}

#[test]
fn stats_split_done_pending_overdue() {
    let mut engine = Engine::new();
    let today = utc_today();
    let midnight = today.days as i128 * DAY;
    engine.create_project("p", "", midnight).unwrap();
    engine.create_task("p", "a", "", 1, Some(midnight - DAY), None, midnight).unwrap();
    engine.create_task("p", "b", "", 2, Some(midnight + DAY), None, midnight).unwrap();
    engine.create_task("p", "c", "", 4, None, None, midnight).unwrap();
    engine.toggle_done("p", "c", midnight).unwrap();
    let st = engine.project_stats("p", today).unwrap();
    assert_eq!((st.total, st.done, st.pending, st.overdue), (3, 1, 1, 1));
    assert_eq!((st.p1, st.p2, st.p3, st.p4), (1, 1, 0, 1));
    let none = engine.project_stats("missing", today).unwrap();
    assert_eq!(none.total, 0);
}

#[test]
fn deleting_a_project_removes_its_tasks_and_links() {
    let mut engine = Engine::new();
    let now = now_ns();
    engine.create_project("p", "", now).unwrap();
    engine.create_task("p", "t", "", 3, None, None, now).unwrap();
    engine.create_subtask("p", "t", "s", None, now).unwrap();
    engine.add_tags_to_task("p", "t", &["x"]).unwrap();
    assert!(engine.delete_project("p").unwrap());
    assert_eq!(engine.global_stats(utc_today()).unwrap().total, 0);
    assert!(matches!(engine.list_tasks("p"), Err(StoreError::NotFound(_))));
    assert!(!engine.delete_project("p").unwrap());
}

#[test]
fn names_are_listed_in_text_order() {
    let mut engine = Engine::new();
    let now = now_ns();
    for n in ["b", "a", "c"] {
        engine.create_project(n, "", now).unwrap();
    }
    assert_eq!(engine.project_names().unwrap(), vec!["a", "b", "c"]);
    engine.create_task("a", "z", "", 3, None, None, now).unwrap();
    engine.create_task("a", "y", "", 3, None, None, now).unwrap();
    assert_eq!(engine.task_names("a").unwrap(), vec!["y", "z"]);
    assert!(matches!(engine.task_names("nope"), Err(StoreError::NotFound(_))));
}

#[test]
fn tasks_with_a_due_date_come_first() {
    let mut engine = Engine::new();
    let now = now_ns();
    engine.create_project("p", "", now).unwrap();
    engine.create_task("p", "none", "", 3, None, None, now).unwrap();
    engine.create_task("p", "late", "", 3, Some(now + 2 * DAY), None, now).unwrap();
    engine.create_task("p", "soon", "", 3, Some(now + DAY), None, now).unwrap();
    let names: Vec<String> = engine.list_tasks("p").unwrap().into_iter().map(|t| t.name).collect();
    assert_eq!(names, vec!["soon", "late", "none"]);
}

#[test]
fn removing_an_unknown_tag_is_an_error() {
    let mut engine = Engine::new();
    engine.create_project("p", "", now_ns()).unwrap();
    assert!(matches!(engine.remove_tag_from_project("p", "t"), Err(StoreError::NotFound(_))));
    engine.add_tags_to_project("p", &["t", "t"]).unwrap();
    assert_eq!(engine.get_tags_for_project("p").unwrap().len(), 1);
    assert!(engine.remove_tag_from_project("p", "t").unwrap());
    assert!(!engine.remove_tag_from_project("p", "t").unwrap());
}

#[test]
fn error_messages_read_as_the_store_writes_them() {
    let expected = format!("a subtask named 's' already exists for this {}", "task");
    assert_eq!(StoreError::SubtaskNameTaken("s".to_string()).message(), expected);
    assert_eq!(StoreError::NotFound("x".to_string()).message(), "no project, task or subtask named 'x' was found");
}

#[test]
fn due_on_an_impossible_day_is_empty() {
    let mut engine = Engine::new();
    engine.create_project("p", "", now_ns()).unwrap();
    assert!(engine.list_tasks_due_on(2026, 2, 30).unwrap().is_empty());
    assert_eq!(engine.count_tasks_due_on(2026, 13, 1).unwrap(), 0);
}

#[test]
fn the_count_due_on_a_day_is_the_length_of_its_list() {
    let mut engine = Engine::new();
    let now = chrono::Utc::now().timestamp_nanos_opt().unwrap() as i128;
    engine.create_project("p", "", now).unwrap();
    let day = chrono::NaiveDate::from_ymd_opt(2026, 3, 4).unwrap();
    let due = day.and_hms_opt(9, 0, 0).unwrap().and_utc().timestamp_nanos_opt().unwrap() as i128;
    engine.create_task("p", "a", "", 1, Some(due), None, now).unwrap();
    engine.create_task("p", "b", "", 2, Some(due), None, now).unwrap();
    engine.create_task("p", "c", "", 2, None, None, now).unwrap();
    let list = engine.list_tasks_due_on(2026, 3, 4).unwrap();
    assert_eq!(engine.count_tasks_due_on(2026, 3, 4).unwrap(), list.len() as i64);
    assert_eq!(list.len(), 2);
}

#[test]
fn recurrence_names_read_back_in_any_case() {
    for r in [
        Recurrence::Daily,
        Recurrence::Weekly,
        Recurrence::Biweekly,
        Recurrence::Triweekly,
        Recurrence::Monthly,
        Recurrence::Bimonthly,
        Recurrence::Yearly,
    ] {
        assert_eq!(Recurrence::parse(r.to_str()), Some(r));
        assert_eq!(Recurrence::parse(&r.to_str().to_uppercase()), Some(r));
    }
}
