use tdo::dates::Date;
use tdo::tui::calendar::{days_in_month, next_month, prev_month};
use tdo::tui::date_parser::{parse_due_date, try_parse_due_date};
use tdo::tui::state::{form_prompt, form_total_steps, FormKind};
use tdo::tui::validate::{validate_priority, validate_tags};
use tdo::models::Recurrence;

fn ymd(y: i32, m: u32, d: u32) -> Date {
    Date { days: chrono::NaiveDate::from_ymd_opt(y, m, d).unwrap().to_epoch_days() }
}

#[test]
fn test_parse_due_date() {
    // Assume today is Tuesday, June 30, 2026
    let today = ymd(2026, 6, 30);

    // 1. Standard YYYY-MM-DD
    assert_eq!(parse_due_date("2026-07-01", today), Ok(ymd(2026, 7, 1)));
    assert_eq!(parse_due_date("2026/07/04", today), Ok(ymd(2026, 7, 4)));

    // 2. Today / Tomorrow shortcuts
    assert_eq!(parse_due_date("today", today), Ok(today));
    assert_eq!(parse_due_date("tod", today), Ok(today));
    assert_eq!(parse_due_date("t", today), Ok(today));
    assert_eq!(parse_due_date("tomorrow", today), Ok(ymd(2026, 7, 1)));
    assert_eq!(parse_due_date("tm", today), Ok(ymd(2026, 7, 1)));

    // 3. Relative offsets
    assert_eq!(parse_due_date("+1", today), Ok(ymd(2026, 7, 1)));
    assert_eq!(parse_due_date("+7", today), Ok(ymd(2026, 7, 7)));
    assert_eq!(parse_due_date("+1w", today), Ok(ymd(2026, 7, 7)));
    assert_eq!(parse_due_date("+1m", today), Ok(ymd(2026, 7, 30)));
    assert_eq!(parse_due_date("+2d", today), Ok(ymd(2026, 7, 2)));

    // 4. Weekdays (strictly future)
    assert_eq!(parse_due_date("wed", today), Ok(ymd(2026, 7, 1)));
    assert_eq!(parse_due_date("wednesday", today), Ok(ymd(2026, 7, 1)));
    assert_eq!(parse_due_date("mon", today), Ok(ymd(2026, 7, 6)));
    assert_eq!(parse_due_date("tuesday", today), Ok(ymd(2026, 7, 7)));

    // 5. Partial dates
    assert_eq!(parse_due_date("07-04", today), Ok(ymd(2026, 7, 4)));
    assert_eq!(parse_due_date("7/4", today), Ok(ymd(2026, 7, 4)));

    // 6. Just DD (day of month)
    assert_eq!(parse_due_date("30", today), Ok(ymd(2026, 6, 30)));
    assert_eq!(parse_due_date("5", today), Ok(ymd(2026, 7, 5)));
    assert_eq!(parse_due_date("05", today), Ok(ymd(2026, 7, 5)));
}

#[test]
fn parse_due_date_errors() {
    let today = ymd(2026, 6, 30);
    assert_eq!(parse_due_date("   ", today), Err("Empty input".to_string()));
    assert_eq!(
        parse_due_date("someday", today),
        Err("Invalid date format. Use YYYY-MM-DD, today, tomorrow, +N, +Nw, weekday, MM-DD, or DD".to_string())
    );
    assert_eq!(parse_due_date("  TODAY ", today), Ok(today));
    // June has no 31st, and a day not before today stays in this month.
    assert!(parse_due_date("31", today).is_err());
    assert!(parse_due_date("2-30", today).is_err());
    assert_eq!(try_parse_due_date("+99999999999", today), None);
}

#[test]
fn form_steps_and_prompts() {
    assert_eq!(form_total_steps(&FormKind::CreateProject), 3);
    assert_eq!(form_total_steps(&FormKind::ModifyTask { original_name: "x".to_string() }), 5);
    assert_eq!(form_prompt(&FormKind::CreateTask, 4), "due date");
    assert_eq!(form_prompt(&FormKind::CreateProject, 3), "");
}

#[test]
fn tag_and_priority_validation() {
    assert_eq!(validate_tags("  "), Ok(()));
    assert_eq!(validate_tags("#ok #fine-2"), Ok(()));
    assert_eq!(validate_tags("#"), Err("Tag '#' cannot be empty after '#'".to_string()));
    assert_eq!(validate_tags("x"), Err("Tag 'x' must start with '#'".to_string()));
    assert_eq!(
        validate_tags("#a$"),
        Err("Tag '#a$' contains invalid character '$' (only alphanumeric, '_' and '-' are allowed)".to_string())
    );
    assert_eq!(validate_priority(""), Ok(()));
    assert_eq!(validate_priority("2"), Ok(()));
    assert_eq!(validate_priority("0"), Err("Priority must be 1, 2, or 3".to_string()));
    assert_eq!(validate_priority("x"), Err("Priority must be a number (1, 2, or 3)".to_string()));
}

#[test]
fn months_and_their_lengths() {
    assert_eq!(prev_month(2026, 1), (2025, 12));
    assert_eq!(prev_month(2026, 7), (2026, 6));
    assert_eq!(next_month(2026, 12), (2027, 1));
    assert_eq!(next_month(2026, 2), (2026, 3));
    assert_eq!(days_in_month(2024, 2), 29);
    assert_eq!(days_in_month(2026, 2), 28);
    assert_eq!(days_in_month(2026, 12), 31);
}

#[test]
fn recurrence_keywords() {
    assert_eq!(Recurrence::parse("  Weekly "), Some(Recurrence::Weekly));
    assert_eq!(Recurrence::parse("m"), Some(Recurrence::Monthly));
    assert_eq!(Recurrence::parse("sometimes"), None);
    assert_eq!(Recurrence::Bimonthly.to_str(), "bimonthly");
}
