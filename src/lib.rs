//! A personal task list: a store of tasks with dependency ids, and the
//! operations that add, edit, remove, close and list them.

pub mod store;
pub mod ops;
pub mod laws;

pub use store::{Task, TaskFile, TaskModel, TaskFileModel};
