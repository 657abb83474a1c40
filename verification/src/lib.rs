//! Verified core of a project and task manager: the data store with its
//! rules, the due-date parser, and the state machine of the terminal UI.
pub mod text;
pub mod dates;
pub mod models;
pub mod engine;
pub mod tui;
