//! Reads a TickTick summary export (tasks grouped by priority and completion
//! state, nested by indentation) into a task graph, and renders that graph as
//! a Graphviz description or as a Markdown checklist.
mod chars;
pub mod db;
pub mod entry;
pub mod grammar;
pub mod graph;
pub mod laws;
pub mod parse;
pub mod read;
pub mod report;
pub mod task;

pub use db::TaskDb;
pub use entry::TaskEntry;
pub use graph::TaskGraph;
pub use read::{task_entries, ParseError};
pub use task::{Task, TaskPriority, TaskState};
