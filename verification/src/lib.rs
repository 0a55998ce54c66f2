//! Core of a small to-do list application: an ordered list of named tasks
//! with completion flags, and the persistence model that saves the list to a
//! structured text store and loads it back.
//!
//! The library follows an eager reconciliation policy: `store::save_tasks`
//! removes every completed task from the list as a side effect of producing
//! the persisted text, and the surrounding application is expected to call it
//! once per interaction cycle. Loading never fails: absent or malformed
//! stored content yields an empty list.

pub mod codec;
pub mod store;
pub mod task;

pub use store::load_tasks;
pub use store::save_tasks;
pub use task::Task;
pub use task::TaskList;
