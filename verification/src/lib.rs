//! A terminal to-do list manager's core: a markdown checklist document model
//! with a bidirectional parser/serializer and an in-memory editing engine
//! (selection, reordering, sorting, scrolling).

pub mod chars;
pub mod control;
pub mod date;
pub mod doc;
pub mod log;
pub mod sort;
pub mod ui;
pub mod md;
pub mod roundtrip;
