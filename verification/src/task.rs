//! A live task: a definition joined with its runtime state, plus the
//! eligibility rules that decide whether it can be selected today.

use vstd::prelude::*;
use crate::Day;
use crate::task_config::{
    TaskConfig, TaskConfigV, DisabledOptions, clone_opt_string, clone_string_vec, old_opt_view,
};
use crate::task_state::TaskState;

verus! {

/// Where a task stands today, for presentation.
#[derive(Debug, Clone, Copy, PartialEq, Eq, Structural)]
pub enum TaskStatus {
    /// Suppressed by its disable setting.
    Disabled,
    /// In today's set and completed.
    Complete,
    /// In today's set, not yet completed.
    InProgress,
    /// Eligible in principle but not in today's set.
    Inactive,
}

/// The mathematical content of a live task.
pub struct TaskV {
    pub config: TaskConfigV,
    pub state: TaskState,
}

/// A task definition joined with its runtime state.
#[derive(Debug)]
pub struct Task {
    pub config: TaskConfig,
    pub state: TaskState,
}

impl View for Task {
    type V = TaskV;

    open spec fn view(&self) -> TaskV {
        TaskV { config: self.config@, state: self.state }
    }
}

impl Clone for Task {
    /// A clone carries the same definition and state.
    fn clone(&self) -> (r: Task)
        ensures
            r@ == self@,
    {
        Task { config: self.config.clone(), state: self.state }
    }
}

/// Whether a task is suppressed today.
///
/// `Until(d)` keeps the task disabled through day `d` inclusive; `For(n)`
/// keeps it disabled for `n` days counted from the recorded disable date
/// (a task with no recorded disable date is not suppressed by `For`).
pub open spec fn spec_disabled(c: TaskConfigV, s: TaskState, today: int) -> bool {
    match c.disabled {
        DisabledOptions::Enabled => false,
        DisabledOptions::Disabled => true,
        DisabledOptions::Until(until) => until >= today,
        DisabledOptions::For(n) => match s.disabled_on {
            Some(d0) => today - d0 < n,
            None => false,
        },
    }
}

/// Whether a task may be drawn today: it is not suppressed, not already in
/// today's set, has completions left, and its minimum selection gap has
/// passed.
pub open spec fn spec_choosable(c: TaskConfigV, s: TaskState, today: int, in_todays: bool) -> bool {
    &&& !spec_disabled(c, s, today)
    &&& !in_todays
    &&& match c.max_occurrences {
        Some(m) => s.times_completed < m,
        None => true,
    }
    &&& match c.min_frequency {
        Some(d) => match s.last_chosen {
            Some(lc) => today - lc >= d,
            None => true,
        },
        None => true,
    }
}

/// Where a task stands today.
pub open spec fn spec_status(c: TaskConfigV, s: TaskState, today: int, in_todays: bool) -> TaskStatus {
    if spec_disabled(c, s, today) {
        TaskStatus::Disabled
    } else if in_todays {
        if s.completed {
            TaskStatus::Complete
        } else {
            TaskStatus::InProgress
        }
    } else {
        TaskStatus::Inactive
    }
}

/// The mathematical content of a task summary.
pub struct TaskInfoV {
    pub task: Seq<char>,
    pub status: TaskStatus,
    pub slug: Seq<char>,
    pub description: Option<Seq<char>>,
    pub weight: u64,
    pub spoons: u16,
    pub disabled: DisabledOptions,
    pub tags: Seq<Seq<char>>,
}

/// A presentation summary of one task.
#[derive(Debug)]
pub struct TaskInfo {
    pub task: String,
    pub status: TaskStatus,
    pub slug: String,
    pub description: Option<String>,
    pub weight: u64,
    pub spoons: u16,
    pub disabled: DisabledOptions,
    pub tags: Vec<String>,
}

impl View for TaskInfo {
    type V = TaskInfoV;

    open spec fn view(&self) -> TaskInfoV {
        TaskInfoV {
            task: self.task@,
            status: self.status,
            slug: self.slug@,
            description: old_opt_view(&self.description),
            weight: self.weight,
            spoons: self.spoons,
            disabled: self.disabled,
            tags: self.tags.deep_view(),
        }
    }
}

/// The summary a task presents, given today's facts about it.
pub open spec fn spec_info(t: TaskV, today: int, in_todays: bool) -> TaskInfoV {
    TaskInfoV {
        task: t.config.task,
        status: spec_status(t.config, t.state, today, in_todays),
        slug: t.config.slug,
        description: t.config.description,
        weight: t.config.weight,
        spoons: t.config.spoons,
        disabled: t.config.disabled,
        tags: t.config.tags,
    }
}

impl Task {
    /// Joins a definition with a runtime state.
    pub fn new(config: TaskConfig, state: TaskState) -> (r: Task)
        ensures
            r@ == (TaskV { config: config@, state }),
    {
        Task { config, state }
    }

    /// The task's stable identifier.
    pub fn slug(&self) -> (r: &str)
        ensures
            r@ == self@.config.slug,
    {
        self.config.slug()
    }

    /// The task's disable setting.
    pub fn disabled_opts(&self) -> (r: DisabledOptions)
        ensures
            r == self@.config.disabled,
    {
        self.config.disabled
    }

    /// Clears the completion flag.
    pub fn reset(&mut self)
        ensures
            final(self)@ == (TaskV {
                state: TaskState { completed: false, ..old(self)@.state },
                ..old(self)@
            }),
    {
        self.state.reset();
    }

    /// Marks the task completed and counts the completion.
    pub fn complete(&mut self)
        ensures
            final(self)@ == (TaskV {
                state: TaskState {
                    completed: true,
                    times_completed: if old(self)@.state.times_completed < u32::MAX {
                        (old(self)@.state.times_completed + 1) as u32
                    } else {
                        u32::MAX
                    },
                    ..old(self)@.state
                },
                ..old(self)@
            }),
    {
        self.state.complete();
    }

    /// Lifts suppression in both the definition and the state.
    pub fn enable(&mut self)
        ensures
            final(self)@ == (TaskV {
                config: TaskConfigV { disabled: DisabledOptions::Enabled, ..old(self)@.config },
                state: TaskState { disabled_on: None, ..old(self)@.state },
            }),
    {
        self.state.enable();
        self.config.enable();
    }

    /// Imposes suppression in both the definition and the state, recording
    /// the day it happened.
    pub fn disable(&mut self, today: Day)
        ensures
            final(self)@ == (TaskV {
                config: TaskConfigV { disabled: DisabledOptions::Disabled, ..old(self)@.config },
                state: TaskState { disabled_on: Some(today), ..old(self)@.state },
            }),
    {
        self.disable_as(today, DisabledOptions::Disabled);
    }

    /// Imposes the given suppression — outright, through a day, or for a
    /// number of days — in both the definition and the state, recording the
    /// day it happened.
    pub fn disable_as(&mut self, today: Day, how: DisabledOptions)
        ensures
            final(self)@ == (TaskV {
                config: TaskConfigV { disabled: how, ..old(self)@.config },
                state: TaskState { disabled_on: Some(today), ..old(self)@.state },
            }),
    {
        self.state.disable(today);
        self.config.disabled = how;
    }

    /// Selection: clears the completion flag and stamps the selection day.
    pub fn choose_on(&mut self, today: Day)
        ensures
            final(self)@ == (TaskV {
                state: TaskState {
                    completed: false,
                    last_chosen: Some(today),
                    ..old(self)@.state
                },
                ..old(self)@
            }),
    {
        self.state.choose_on(today);
    }

    /// Whether the task is suppressed today.
    pub fn disabled(&self, today: Day) -> (r: bool)
        ensures
            r == spec_disabled(self@.config, self@.state, today as int),
    {
        match self.config.disabled {
            DisabledOptions::Enabled => false,
            DisabledOptions::Disabled => true,
            DisabledOptions::Until(until) => until >= today,
            DisabledOptions::For(n) => match self.state.disabled_on {
                Some(d0) => (today as i64) - (d0 as i64) < (n as i64),
                None => false,
            },
        }
    }

    /// Whether the task may be drawn today; `in_todays` says whether it is
    /// already in today's set.
    pub fn choosable(&self, today: Day, in_todays: bool) -> (r: bool)
        ensures
            r == spec_choosable(self@.config, self@.state, today as int, in_todays),
    {
        if self.disabled(today) || in_todays {
            return false;
        }
        if let Some(m) = self.config.max_occurrences {
            if self.state.times_completed >= m {
                return false;
            }
        }
        if let Some(d) = self.config.min_frequency {
            if let Some(lc) = self.state.last_chosen {
                return (today as i64) - (lc as i64) >= (d as i64);
            }
        }
        true
    }

    /// Where the task stands today.
    pub fn status(&self, today: Day, in_todays: bool) -> (r: TaskStatus)
        ensures
            r == spec_status(self@.config, self@.state, today as int, in_todays),
    {
        if self.disabled(today) {
            TaskStatus::Disabled
        } else if in_todays {
            if self.state.completed {
                TaskStatus::Complete
            } else {
                TaskStatus::InProgress
            }
        } else {
            TaskStatus::Inactive
        }
    }

    /// A presentation summary of the task.
    pub fn info(&self, today: Day, in_todays: bool) -> (r: TaskInfo)
        ensures
            r@ == spec_info(self@, today as int, in_todays),
    {
        let r = TaskInfo {
            task: self.config.task.clone(),
            status: self.status(today, in_todays),
            slug: self.config.slug.clone(),
            description: clone_opt_string(&self.config.description),
            weight: self.config.weight,
            spoons: self.config.spoons,
            disabled: self.config.disabled,
            tags: clone_string_vec(&self.config.tags),
        };
        r
    }
}

} // verus!
