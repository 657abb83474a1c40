# tdo

A keyboard-driven terminal manager of projects, tasks, subtasks and tags, whose core is
proved correct with Verus.

## Layout

- `src/` — the verified library.
  - `engine/` — the store: tables with increasing row ids, unique names, existing
    references and cascading deletes; creating, changing, completing and deleting projects,
    tasks, subtasks and tags; recurring tasks; agenda lists and counts; checking rows read
    from disk (`load.rs`); and the laws the store keeps (`laws.rs`).
  - `tui/` — the state machine of the interface: what each key does to the screen's state
    and to the store (`keys.rs`, `browsing.rs`, `search.rs`, `form.rs`), the due-date parser,
    form validation, the calendar, text wrapping, the theme file, and the lines each pane
    shows (`screen.rs`).
  - `dates.rs`, `text.rs`, `models.rs` — calendar arithmetic, text helpers and the rows.
- `app/` — the program around it: command line, the SQLite file, the terminal loop and the
  drawing with ratatui.
- `tests/` — tests of the library.
