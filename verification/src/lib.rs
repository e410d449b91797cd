//! A per-account todo list: each account owns an in-progress list and a
//! completed list of task texts, mutated through a handful of index-based
//! operations. The store maps account identifiers to records; reads default
//! to an empty record and never mutate, while every mutating operation other
//! than adding a task requires the record to exist already.

pub mod store;
pub mod tasks;

pub use store::TodoList;
pub use tasks::{TaskView, Tasks, TodoError};
