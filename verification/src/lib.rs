//! Core model of a line-oriented task list: task records parsed from and
//! serialized to single text lines, a completion/recurrence state machine,
//! an ordered task collection, filter predicates for the derived views, and
//! rich-text rendering of subjects and notes.

pub mod date;
pub mod filter;
pub mod laws;
pub mod list;
pub mod markup;
pub mod page;
pub mod recurrence;
pub mod task;
pub mod text;
