//! Per-task runtime state: completion, counters, and the dates that drive
//! eligibility.

use vstd::prelude::*;
use crate::Day;

verus! {

/// The mutable state kept for each task, keyed by the task's slug.
#[derive(Debug, Clone, Copy, PartialEq, Eq, Structural)]
pub struct TaskState {
    /// When a disable action occurred; drives `For(n)` disable windows.
    pub disabled_on: Option<Day>,
    /// The day the task was most recently selected.
    pub last_chosen: Option<Day>,
    /// How many times the task has been completed; never decreases.
    pub times_completed: u32,
    /// Whether the task has been completed since it was last selected.
    pub completed: bool,
}

impl Default for TaskState {
    /// A fresh state: never chosen, never completed, not disabled.
    fn default() -> (r: TaskState)
        ensures
            r == (TaskState {
                disabled_on: None,
                last_chosen: None,
                times_completed: 0,
                completed: false,
            }),
    {
        TaskState { disabled_on: None, last_chosen: None, times_completed: 0, completed: false }
    }
}

impl TaskState {
    /// Clears the completion flag; used when the task is freshly selected.
    pub fn reset(&mut self)
        ensures
            *final(self) == (TaskState { completed: false, ..*old(self) }),
    {
        self.completed = false;
    }

    /// Marks the task completed and counts the completion.  The counter
    /// saturates rather than wrap, so it never decreases.
    pub fn complete(&mut self)
        ensures
            *final(self) == (TaskState {
                completed: true,
                times_completed: if old(self).times_completed < u32::MAX {
                    (old(self).times_completed + 1) as u32
                } else {
                    u32::MAX
                },
                ..*old(self)
            }),
    {
        self.completed = true;
        self.times_completed = self.times_completed.saturating_add(1);
    }

    /// Forgets any disable date.
    pub fn enable(&mut self)
        ensures
            *final(self) == (TaskState { disabled_on: None, ..*old(self) }),
    {
        self.disabled_on = None;
    }

    /// Records the day a disable action occurred.
    pub fn disable(&mut self, today: Day)
        ensures
            *final(self) == (TaskState { disabled_on: Some(today), ..*old(self) }),
    {
        self.disabled_on = Some(today);
    }

    /// Selection: clears the completion flag and stamps the selection day.
    pub fn choose_on(&mut self, today: Day)
        ensures
            *final(self) == (TaskState {
                completed: false,
                last_chosen: Some(today),
                ..*old(self)
            }),
    {
        self.reset();
        self.last_chosen = Some(today);
    }
}

} // verus!
