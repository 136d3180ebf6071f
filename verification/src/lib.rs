//! A catalog of recurring tasks with a daily, weighted random selection.
//!
//! The library keeps a catalog of task definitions together with their
//! per-task runtime state, decides which tasks are eligible on the current
//! effective day, and draws a weighted random subset of them to serve as
//! "today's tasks".  Loading, saving and rendering of the two persisted
//! documents is left to the surrounding application; the library works on
//! plain values.

use vstd::prelude::*;

pub mod commands;
pub mod config;
pub mod dates;
pub mod error;
pub mod laws;
pub mod picker;
pub mod state;
pub mod strings;
pub mod task;
pub mod task_config;
pub mod task_set;
pub mod task_state;

pub use config::Config;
pub use error::RanddGoalsError;
pub use state::State;
pub use task::{Task, TaskInfo};
pub use task_config::{TaskBuilder, TaskConfig};
pub use task_state::TaskState;

verus! {

/// Number of seconds in one calendar day.
pub const SECS_PER_DAY: u32 = 86400;

/// A day is counted as a Julian day number, as calendar libraries expose it.
pub type Day = i32;

} // verus!
