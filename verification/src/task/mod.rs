//! Tasks: their ids, their states and the table that tracks them.

pub mod laws;
pub mod manager;
pub mod state;
pub mod table;
pub mod value;

pub use manager::{TaskId, TaskManager};
pub use state::{TaskError, TaskState, TypedTaskState, TypedTaskStateRef};
pub use table::TaskKind;
pub use value::{TaskData, TaskValue};
