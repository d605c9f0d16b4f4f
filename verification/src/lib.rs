//! The decision logic of a web front end for a task list: keyboard shortcuts
//! for tags and tasks, filter expansion, the messages shown after an action,
//! and the small texts of the undo report.

pub mod text;
pub mod shortcut;
pub mod string_map;
pub mod task;
pub mod filters;
pub mod view_data;
pub mod actions;
pub mod pages;
