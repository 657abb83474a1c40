//! The state machine of the terminal interface: what each key does to the screen's state
//! and to the store.
pub mod date_parser;
pub mod state;
pub mod validate;
pub mod calendar;
pub mod wrap;
pub mod view;
pub mod refresh;
pub mod browsing;
pub mod search;
pub mod form;
pub mod keys;
pub mod display;
pub mod theme;
pub mod screen;
