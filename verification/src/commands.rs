//! The parsed forms of the CLI commands and what each decides or computes.
//!
//! Each command holds plain values and applies itself to the reconciled
//! state; reading arguments, rendering results and saving the documents
//! stay at the application boundary, which persists exactly when a command
//! reports a change.

use vstd::prelude::*;
use crate::dates::Timestamp;
use crate::error::RanddGoalsError;
use crate::picker::{RngSource, pick_todays_tasks, pick_transition};
use crate::state::{State, StateV, tasks_have_slug, task_index_of, spec_complete_task};
use crate::task::{TaskInfo, TaskInfoV, TaskV, spec_info};
use crate::task_config::DisabledOptions;
use crate::task_set::slugs_contain;
use crate::Day;

verus! {

/// A batch of completions over today's set or listed slugs, stopping at the
/// first unknown slug.
pub open spec fn complete_batch(ts: Seq<TaskV>, slugs: Seq<Seq<char>>) -> (Seq<TaskV>, Option<
    Seq<char>,
>)
    decreases slugs.len(),
{
    if slugs.len() == 0 {
        (ts, None)
    } else if !tasks_have_slug(ts, slugs[0]) {
        (ts, Some(slugs[0]))
    } else {
        complete_batch(
            ts.update(
                task_index_of(ts, slugs[0]),
                spec_complete_task(ts[task_index_of(ts, slugs[0])]),
            ),
            slugs.skip(1),
        )
    }
}

impl State {
    /// Marks each listed task completed, failing fast at the first unknown
    /// slug and keeping the completions already applied.
    pub fn complete_tasks(&mut self, slugs: &Vec<String>) -> (r: Result<(), RanddGoalsError>)
        requires
            old(self).wf(),
        ensures
            final(self).wf(),
            final(self)@ == (StateV {
                tasks: complete_batch(old(self)@.tasks, slugs.deep_view()).0,
                ..old(self)@
            }),
            r is Ok <==> complete_batch(old(self)@.tasks, slugs.deep_view()).1 is None,
            r matches Err(e) ==> (e matches RanddGoalsError::TaskNotFound { slug: s }
                && complete_batch(old(self)@.tasks, slugs.deep_view()).1 == Some(s@)),
    {
        let ghost slugsv = slugs.deep_view();
        let n = slugs.len();
        let mut k: usize = 0;
        proof {
            assert(slugsv.skip(0) =~= slugsv);
        }
        while k < n
            invariant
                0 <= k <= n,
                n == slugs@.len(),
                slugsv == slugs.deep_view(),
                self.wf(),
                complete_batch(self@.tasks, slugsv.skip(k as int)) == complete_batch(
                    old(self)@.tasks,
                    slugsv,
                ),
                self@ == (StateV { tasks: self@.tasks, ..old(self)@ }),
            decreases n - k,
        {
            proof {
                assert(slugsv.skip(k as int)[0] == slugsv[k as int]);
                assert(slugsv.skip(k as int).skip(1) =~= slugsv.skip(k as int + 1));
                assert(slugs@[k as int]@ == slugsv[k as int]);
            }
            match self.complete_task(slugs[k].as_str()) {
                Ok(_) => {},
                Err(e) => {
                    return Err(e);
                },
            }
            k = k + 1;
        }
        proof {
            assert(slugsv.skip(n as int) =~= Seq::<Seq<char>>::empty());
        }
        Ok(())
    }

    /// The summaries of the listed tasks, in the given order; slugs that do
    /// not resolve are skipped.
    pub fn infos_of(&self, slugs: &Vec<String>) -> (r: Vec<TaskInfo>)
        requires
            self.wf(),
        ensures
            r@.map_values(|i: TaskInfo| i@) == infos_spec(self@, slugs.deep_view()),
    {
        let ghost slugsv = slugs.deep_view();
        let n = slugs.len();
        let mut r: Vec<TaskInfo> = Vec::new();
        let mut k: usize = 0;
        proof {
            assert(slugsv.skip(0) =~= slugsv);
            assert(r@.map_values(|i: TaskInfo| i@) =~= Seq::<TaskInfoV>::empty());
        }
        while k < n
            invariant
                0 <= k <= n,
                n == slugs@.len(),
                slugsv == slugs.deep_view(),
                self.wf(),
                r@.map_values(|i: TaskInfo| i@) + infos_spec(self@, slugsv.skip(k as int))
                    == infos_spec(self@, slugsv),
            decreases n - k,
        {
            proof {
                assert(slugsv.skip(k as int)[0] == slugsv[k as int]);
                assert(slugsv.skip(k as int).skip(1) =~= slugsv.skip(k as int + 1));
                assert(slugs@[k as int]@ == slugsv[k as int]);
            }
            let ghost pre = r@.map_values(|i: TaskInfo| i@);
            match self.find_index(slugs[k].as_str()) {
                Some(i) => {
                    let in_todays = self.todays_tasks.contains(
                        self.tasks[i].config.slug.as_str(),
                    );
                    proof {
                        assert(self@.tasks[i as int] == self.tasks@[i as int]@);
                    }
                    let info = self.tasks[i].info(self.today, in_todays);
                    r.push(info);
                    proof {
                        assert(r@.map_values(|i: TaskInfo| i@) =~= pre.push(
                            spec_info(
                                self@.tasks[i as int],
                                self@.today as int,
                                slugs_contain(
                                    self@.todays_tasks,
                                    self@.tasks[i as int].config.slug,
                                ),
                            ),
                        ));
                        assert(pre.push(
                            spec_info(
                                self@.tasks[task_index_of(self@.tasks, slugsv[k as int])],
                                self@.today as int,
                                slugs_contain(
                                    self@.todays_tasks,
                                    self@.tasks[task_index_of(
                                        self@.tasks,
                                        slugsv[k as int],
                                    )].config.slug,
                                ),
                            ),
                        ) + infos_spec(self@, slugsv.skip(k as int + 1)) =~= pre + infos_spec(
                            self@,
                            slugsv.skip(k as int),
                        ));
                    }
                },
                None => {},
            }
            k = k + 1;
        }
        proof {
            assert(slugsv.skip(n as int) =~= Seq::<Seq<char>>::empty());
            assert(r@.map_values(|i: TaskInfo| i@) + Seq::<TaskInfoV>::empty() =~= r@.map_values(
                |i: TaskInfo| i@,
            ));
        }
        r
    }
}

/// The summaries the listed slugs resolve to, in order, skipping slugs
/// that resolve to no task.
pub open spec fn infos_spec(s: StateV, slugs: Seq<Seq<char>>) -> Seq<TaskInfoV>
    decreases slugs.len(),
{
    if slugs.len() == 0 {
        Seq::empty()
    } else {
        let rest = infos_spec(s, slugs.skip(1));
        if tasks_have_slug(s.tasks, slugs[0]) {
            seq![
                spec_info(
                    s.tasks[task_index_of(s.tasks, slugs[0])],
                    s.today as int,
                    slugs_contain(
                        s.todays_tasks,
                        s.tasks[task_index_of(s.tasks, slugs[0])].config.slug,
                    ),
                ),
            ] + rest
        } else {
            rest
        }
    }
}

/// Enables the listed tasks.
#[derive(Debug)]
pub struct EnableTaskCommand {
    /// The tasks to enable.
    pub tasks: Vec<String>,
}

impl EnableTaskCommand {
    /// Enables each listed task; the state should be saved afterwards.
    pub fn run(&self, state: &mut State) -> (r: Result<(), RanddGoalsError>)
        requires
            old(state).wf(),
        ensures
            final(state).wf(),
            final(state)@ == (StateV {
                tasks: crate::state::enable_batch(old(state)@.tasks, self.tasks.deep_view()).0,
                ..old(state)@
            }),
            r is Ok <==> crate::state::enable_batch(
                old(state)@.tasks,
                self.tasks.deep_view(),
            ).1 is None,
    {
        state.enable_tasks(&self.tasks)
    }
}

/// Disables the listed tasks: through a given day when `until` is set, for
/// a number of days when `for_` is set, outright otherwise.
#[derive(Debug)]
pub struct DisableTaskCommand {
    /// Disable through this day, inclusive.
    pub until: Option<Day>,
    /// Disable for this many days.
    pub for_: Option<u32>,
    /// The tasks to disable.
    pub tasks: Vec<String>,
}

/// The suppression a disable command asks for: a day bound wins over a day
/// count, and with neither the plain toggle applies.
pub open spec fn spec_requested_disable(cmd: &DisableTaskCommand) -> DisabledOptions {
    match cmd.until {
        Some(d) => DisabledOptions::Until(d),
        None => match cmd.for_ {
            Some(n) => DisabledOptions::For(n),
            None => DisabledOptions::Disabled,
        },
    }
}

impl DisableTaskCommand {
    /// Disables each listed task with the requested suppression; the state
    /// should be saved afterwards.
    pub fn run(&self, state: &mut State) -> (r: Result<(), RanddGoalsError>)
        requires
            old(state).wf(),
        ensures
            final(state).wf(),
            final(state)@ == (StateV {
                tasks: crate::state::disable_batch_as(
                    old(state)@.tasks,
                    self.tasks.deep_view(),
                    old(state)@.today,
                    spec_requested_disable(self),
                ).0,
                ..old(state)@
            }),
            r is Ok <==> crate::state::disable_batch_as(
                old(state)@.tasks,
                self.tasks.deep_view(),
                old(state)@.today,
                spec_requested_disable(self),
            ).1 is None,
            r matches Err(e) ==> (e matches RanddGoalsError::TaskNotFound { slug: s }
                && crate::state::disable_batch_as(
                old(state)@.tasks,
                self.tasks.deep_view(),
                old(state)@.today,
                spec_requested_disable(self),
            ).1 == Some(s@)),
    {
        let how = match self.until {
            Some(d) => DisabledOptions::Until(d),
            None => match self.for_ {
                Some(n) => DisabledOptions::For(n),
                None => DisabledOptions::Disabled,
            },
        };
        state.disable_tasks_as(&self.tasks, how)
    }
}

/// Removes the listed tasks from the catalog.
#[derive(Debug)]
pub struct RemoveTaskCommand {
    /// The tasks to remove.
    pub tasks: Vec<String>,
}

impl RemoveTaskCommand {
    /// Removes each listed task; the state should be saved afterwards.
    pub fn run(&self, state: &mut State) -> (r: Result<(), RanddGoalsError>)
        requires
            old(state).wf(),
        ensures
            final(state).wf(),
            final(state)@ == (StateV {
                tasks: crate::state::remove_batch(old(state)@.tasks, self.tasks.deep_view()).0,
                ..old(state)@
            }),
            r is Ok <==> crate::state::remove_batch(
                old(state)@.tasks,
                self.tasks.deep_view(),
            ).1 is None,
    {
        state.remove_tasks(&self.tasks)
    }
}

/// Marks tasks completed: either every task of today's set, or the listed
/// ones.
#[derive(Debug)]
pub struct CompleteTaskCommand {
    /// Complete all of today's tasks.
    pub all: bool,
    /// The tasks to complete.
    pub tasks: Vec<String>,
}

impl CompleteTaskCommand {
    /// Completes the targeted tasks; the state should be saved afterwards.
    pub fn run(&self, state: &mut State) -> (r: Result<(), RanddGoalsError>)
        requires
            old(state).wf(),
        ensures
            final(state).wf(),
            ({
                let targets = if self.all {
                    old(state)@.todays_tasks
                } else {
                    self.tasks.deep_view()
                };
                &&& final(state)@ == (StateV {
                    tasks: complete_batch(old(state)@.tasks, targets).0,
                    ..old(state)@
                })
                &&& (r is Ok <==> complete_batch(old(state)@.tasks, targets).1 is None)
            }),
    {
        if self.all {
            let targets = state.todays_tasks().to_vec();
            proof {
                assert(targets.deep_view() == old(state)@.todays_tasks);
            }
            state.complete_tasks(&targets)
        } else {
            state.complete_tasks(&self.tasks)
        }
    }
}

/// Prints details of the listed tasks, or of the whole catalog when none
/// are listed.
#[derive(Debug)]
pub struct TaskDetailsCommand {
    /// The tasks to describe.
    pub tasks: Vec<String>,
}

impl TaskDetailsCommand {
    /// The summaries to render: of the listed slugs, or of the whole
    /// catalog when none are listed; slugs that resolve to no task are
    /// skipped.
    pub fn run(&self, state: &State) -> (r: Vec<TaskInfo>)
        requires
            state.wf(),
        ensures
            r@.map_values(|i: TaskInfo| i@) == infos_spec(
                state@,
                if self.tasks@.len() == 0 {
                    state@.tasks.map_values(|t: TaskV| t.config.slug)
                } else {
                    self.tasks.deep_view()
                },
            ),
    {
        if self.tasks.len() == 0 {
            let all = state.task_names();
            state.infos_of(&all)
        } else {
            state.infos_of(&self.tasks)
        }
    }
}

/// The subcommands acting on today's set.
#[derive(Debug)]
pub enum TodayCommands {
    /// Draw if needed and show today's tasks.
    Get(GetTodaysTasksCommand),
    /// Explicitly set today's tasks.
    SetTasks(SetTodaysTasksCommand),
    /// Replace some of today's tasks with new ones.
    Refresh(RefreshTodaysTasksCommand),
    /// Replace all of today's tasks.
    Reset(ResetTodaysTasksCommand),
    /// Mark tasks as complete.
    Complete(CompleteTaskCommand),
}

/// Draws today's tasks if needed and reports them.
#[derive(Debug)]
pub struct GetTodaysTasksCommand {
    /// Whether to send a desktop notification.
    pub notify: bool,
    /// Whether to keep the console quiet.
    pub quiet: bool,
}

impl GetTodaysTasksCommand {
    /// Runs the picker and returns whether anything changed — the caller
    /// saves exactly then — together with the summaries of today's set.
    pub fn run(&self, state: &mut State, rng: &mut RngSource, now: Timestamp) -> (r: (
        bool,
        Vec<TaskInfo>,
    ))
        requires
            old(state).wf(),
            now.wf(),
        ensures
            final(state).wf(),
            pick_transition(old(state)@, final(state)@, now, r.0),
            r.1@.map_values(|i: TaskInfo| i@) == infos_spec(
                final(state)@,
                final(state)@.todays_tasks,
            ),
    {
        let b = pick_todays_tasks(state, rng, now);
        let todays = state.todays_tasks().to_vec();
        proof {
            assert(todays.deep_view() == state@.todays_tasks);
        }
        let infos = state.infos_of(&todays);
        (b, infos)
    }
}

/// Explicitly sets today's tasks to the listed slugs.
#[derive(Debug)]
pub struct SetTodaysTasksCommand {
    /// The tasks that make up today's set.
    pub tasks: Vec<String>,
}

impl SetTodaysTasksCommand {
    /// Replaces today's set with the listed slugs; each must name a task.
    pub fn run(&self, state: &mut State) -> (r: Result<(), RanddGoalsError>)
        requires
            old(state).wf(),
        ensures
            final(state).wf(),
            r is Ok <==> (forall|j: int|
                0 <= j < self.tasks.deep_view().len() ==> tasks_have_slug(
                    old(state)@.tasks,
                    #[trigger] self.tasks.deep_view()[j],
                )),
            r is Ok ==> final(state)@.tasks == old(state)@.tasks && final(state)@.last_generated
                == old(state)@.last_generated && final(state)@.cut_off == old(state)@.cut_off
                && final(state)@.limit_by == old(state)@.limit_by && final(state)@.today == old(
                state,
            )@.today && (forall|x: Seq<char>|
                slugs_contain(final(state)@.todays_tasks, x) <==> self.tasks.deep_view().contains(
                    x,
                )),
            r is Err ==> *final(state) == *old(state),
            r matches Err(e) ==> (e matches RanddGoalsError::TaskNotFound { slug }
                && self.tasks.deep_view().contains(slug@) && !tasks_have_slug(
                old(state)@.tasks,
                slug@,
            )),
    {
        let n = self.tasks.len();
        let mut k: usize = 0;
        while k < n
            invariant
                0 <= k <= n,
                n == self.tasks@.len(),
                state.wf(),
                state == old(state),
                forall|j: int|
                    0 <= j < k ==> tasks_have_slug(
                        state@.tasks,
                        #[trigger] self.tasks.deep_view()[j],
                    ),
            decreases n - k,
        {
            proof {
                assert(self.tasks.deep_view()[k as int] == self.tasks@[k as int]@);
            }
            match state.find_index(self.tasks[k].as_str()) {
                Some(_) => {},
                None => {
                    let slug = self.tasks[k].clone();
                    proof {
                        assert(self.tasks.deep_view().contains(slug@)) by {
                            assert(self.tasks.deep_view()[k as int] == slug@);
                        }
                    }
                    return Err(RanddGoalsError::TaskNotFound { slug });
                },
            }
            k = k + 1;
        }
        state.clear_todays_tasks();
        let mut k: usize = 0;
        while k < n
            invariant
                0 <= k <= n,
                n == self.tasks@.len(),
                state.wf(),
                state@.tasks == old(state)@.tasks,
                state@.last_generated == old(state)@.last_generated,
                state@.cut_off == old(state)@.cut_off,
                state@.limit_by == old(state)@.limit_by,
                state@.today == old(state)@.today,
                forall|x: Seq<char>|
                    slugs_contain(state@.todays_tasks, x) <==> (exists|j: int|
                        0 <= j < k && #[trigger] self.tasks.deep_view()[j] == x),
            decreases n - k,
        {
            proof {
                assert(self.tasks.deep_view()[k as int] == self.tasks@[k as int]@);
            }
            let ghost pre_todays = state@.todays_tasks;
            let ghost svk = self.tasks.deep_view()[k as int];
            state.insert_todays_task(self.tasks[k].clone());
            proof {
                assert forall|x: Seq<char>|
                    slugs_contain(state@.todays_tasks, x) <==> (exists|j: int|
                        0 <= j < k + 1 && #[trigger] self.tasks.deep_view()[j] == x) by {
                    assert(state.todays_tasks.spec_contains(x) == slugs_contain(
                        state@.todays_tasks,
                        x,
                    ));
                    assert(slugs_contain(state@.todays_tasks, x) <==> slugs_contain(
                        pre_todays,
                        x,
                    ) || x == svk);
                    if slugs_contain(state@.todays_tasks, x) {
                        if x == svk {
                            assert(self.tasks.deep_view()[k as int] == x);
                        }
                    }
                    if exists|j: int|
                        0 <= j < k + 1 && #[trigger] self.tasks.deep_view()[j] == x {
                        let j = choose|j: int|
                            0 <= j < k + 1 && #[trigger] self.tasks.deep_view()[j] == x;
                        if j == k {
                            assert(x == svk);
                        }
                    }
                }
            }
            k = k + 1;
        }
        proof {
            assert forall|x: Seq<char>|
                slugs_contain(state@.todays_tasks, x) <==> self.tasks.deep_view().contains(
                x,
            ) by {
                if self.tasks.deep_view().contains(x) {
                    let j = choose|j: int|
                        0 <= j < self.tasks.deep_view().len() && self.tasks.deep_view()[j] == x;
                    assert(0 <= j < n && self.tasks.deep_view()[j] == x);
                }
            }
        }
        Ok(())
    }
}

/// The completed members of today's set, in the set's order, among the
/// slugs that resolve to a live task.
pub open spec fn completed_in(ts: Seq<TaskV>, todays: Seq<Seq<char>>) -> Seq<Seq<char>>
    decreases todays.len(),
{
    if todays.len() == 0 {
        Seq::empty()
    } else {
        let rest = completed_in(ts, todays.skip(1));
        if tasks_have_slug(ts, todays[0]) && ts[task_index_of(ts, todays[0])].state.completed {
            seq![todays[0]] + rest
        } else {
            rest
        }
    }
}

/// Drops each slug from today's set in turn, stopping at the first one
/// that is not there: the set after the drops, and the offending slug.
pub open spec fn drop_batch(todays: Seq<Seq<char>>, slugs: Seq<Seq<char>>) -> (Seq<Seq<char>>,
    Option<Seq<char>>,
)
    decreases slugs.len(),
{
    if slugs.len() == 0 {
        (todays, None)
    } else if !slugs_contain(todays, slugs[0]) {
        (todays, Some(slugs[0]))
    } else {
        drop_batch(crate::task_set::remove_slug(todays, slugs[0]), slugs.skip(1))
    }
}

/// Removes the listed (and optionally the completed) tasks from today's
/// set and draws replacements.
#[derive(Debug)]
pub struct RefreshTodaysTasksCommand {
    /// Whether every completed task is refreshed too.
    pub completed: bool,
    /// The tasks to replace.
    pub tasks: Vec<String>,
}

/// What a refresh targets: the listed slugs, plus the completed members of
/// today's set when asked for.
pub open spec fn refresh_targets(cmd: &RefreshTodaysTasksCommand, s: StateV) -> Seq<Seq<char>> {
    if cmd.completed {
        cmd.tasks.deep_view() + completed_in(s.tasks, s.todays_tasks)
    } else {
        cmd.tasks.deep_view()
    }
}

impl RefreshTodaysTasksCommand {
    /// Drops the targeted slugs from today's set in turn — failing on the
    /// first that is not there, with the drops so far kept — then runs the
    /// picker; the caller saves when the picker reports a change.
    pub fn run(&self, state: &mut State, rng: &mut RngSource, now: Timestamp) -> (r: Result<
        bool,
        RanddGoalsError,
    >)
        requires
            old(state).wf(),
            now.wf(),
        ensures
            final(state).wf(),
            ({
                let targets = refresh_targets(self, old(state)@);
                let after_drops = drop_batch(old(state)@.todays_tasks, targets);
                &&& (r is Ok <==> after_drops.1 is None)
                &&& (r matches Ok(b) ==> pick_transition(
                    StateV { todays_tasks: after_drops.0, ..old(state)@ },
                    final(state)@,
                    now,
                    b,
                ))
                &&& (r matches Err(e) ==> (e matches RanddGoalsError::TaskNotFound { slug }
                    && after_drops.1 == Some(slug@)) && final(state)@ == (StateV {
                    todays_tasks: after_drops.0,
                    ..old(state)@
                }))
            }),
    {
        let ghost pre = state@;
        let ghost targetsv = refresh_targets(self, old(state)@);
        // gather the targets: the listed ones, plus the completed ones when
        // asked for
        let mut targets: Vec<String> = Vec::new();
        let mut k: usize = 0;
        let n = self.tasks.len();
        proof {
            assert(targets.deep_view() =~= self.tasks.deep_view().take(0));
        }
        while k < n
            invariant
                0 <= k <= n,
                n == self.tasks@.len(),
                state == old(state),
                state.wf(),
                pre == old(state)@,
                targets.deep_view() == self.tasks.deep_view().take(k as int),
            decreases n - k,
        {
            let ghost pret = targets.deep_view();
            targets.push(self.tasks[k].clone());
            proof {
                assert(targets.deep_view() =~= pret.push(self.tasks.deep_view()[k as int]));
                assert(self.tasks.deep_view().take(k + 1) =~= self.tasks.deep_view().take(
                    k as int,
                ).push(self.tasks.deep_view()[k as int]));
            }
            k = k + 1;
        }
        proof {
            assert(self.tasks.deep_view().take(n as int) =~= self.tasks.deep_view());
        }
        if self.completed {
            let ghost todaysv = pre.todays_tasks;
            let m = state.todays_tasks().len();
            let mut j: usize = 0;
            proof {
                assert(todaysv.skip(0) =~= todaysv);
            }
            while j < m
                invariant
                    0 <= j <= m,
                    m == state@.todays_tasks.len(),
                    todaysv == state@.todays_tasks,
                    state == old(state),
                    state.wf(),
                    pre == old(state)@,
                    todaysv == pre.todays_tasks,
                    targets.deep_view() + completed_in(pre.tasks, todaysv.skip(j as int))
                        == self.tasks.deep_view() + completed_in(pre.tasks, todaysv),
                decreases m - j,
            {
                proof {
                    assert(todaysv.skip(j as int)[0] == todaysv[j as int]);
                    assert(todaysv.skip(j as int).skip(1) =~= todaysv.skip(j as int + 1));
                }
                let slug = state.todays_tasks().index(j).clone();
                proof {
                    assert(slug@ == todaysv[j as int]);
                }
                let ghost pret = targets.deep_view();
                let qualifies: bool;
                match state.get_task(slug.as_str()) {
                    Some(t) => {
                        qualifies = t.state.completed;
                        proof {
                            assert(tasks_have_slug(pre.tasks, todaysv[j as int]));
                            assert(t@ == pre.tasks[task_index_of(pre.tasks, todaysv[j as int])]);
                            assert(qualifies == pre.tasks[task_index_of(
                                pre.tasks,
                                todaysv[j as int],
                            )].state.completed);
                        }
                    },
                    None => {
                        qualifies = false;
                        proof {
                            assert(!tasks_have_slug(pre.tasks, todaysv[j as int]));
                        }
                    },
                }
                if qualifies {
                    targets.push(slug);
                    proof {
                        assert(targets.deep_view() =~= pret.push(todaysv[j as int]));
                        assert(pret.push(todaysv[j as int]) + completed_in(
                            pre.tasks,
                            todaysv.skip(j as int + 1),
                        ) =~= pret + (seq![todaysv[j as int]] + completed_in(
                            pre.tasks,
                            todaysv.skip(j as int + 1),
                        )));
                    }
                }
                j = j + 1;
            }
            proof {
                assert(todaysv.skip(m as int) =~= Seq::<Seq<char>>::empty());
                assert(targets.deep_view() + Seq::<Seq<char>>::empty() =~= targets.deep_view());
                assert(targets.deep_view() == targetsv);
            }
        }
        proof {
            assert(targets.deep_view() == targetsv);
            assert(targetsv.skip(0) =~= targetsv);
        }
        // drop them from today's set, failing on one that is not there
        let tn = targets.len();
        let mut k: usize = 0;
        while k < tn
            invariant
                0 <= k <= tn,
                tn == targets@.len(),
                targets.deep_view() == targetsv,
                state.wf(),
                pre == old(state)@,
                targetsv == refresh_targets(self, old(state)@),
                drop_batch(state@.todays_tasks, targetsv.skip(k as int)) == drop_batch(
                    pre.todays_tasks,
                    targetsv,
                ),
                state@ == (StateV { todays_tasks: state@.todays_tasks, ..pre }),
            decreases tn - k,
        {
            proof {
                assert(targetsv.skip(k as int)[0] == targetsv[k as int]);
                assert(targetsv.skip(k as int).skip(1) =~= targetsv.skip(k as int + 1));
                assert(targets@[k as int]@ == targetsv[k as int]);
            }
            if !state.todays_tasks().contains(targets[k].as_str()) {
                let slug = targets[k].clone();
                proof {
                    assert(drop_batch(state@.todays_tasks, targetsv.skip(k as int)) == (
                        state@.todays_tasks,
                        Some(targetsv[k as int]),
                    ));
                    assert(slug@ == targetsv[k as int]);
                }
                return Err(RanddGoalsError::TaskNotFound { slug });
            }
            let present = state.remove_todays_task(targets[k].as_str());
            proof {
                assert(present);
            }
            k = k + 1;
        }
        proof {
            assert(targetsv.skip(tn as int) =~= Seq::<Seq<char>>::empty());
        }
        let ghost dropped = state@;
        let b = pick_todays_tasks(state, rng, now);
        proof {
            assert(dropped == (StateV {
                todays_tasks: drop_batch(pre.todays_tasks, targetsv).0,
                ..old(state)@
            }));
        }
        Ok(b)
    }
}

/// Discards today's set and draws a fresh one.
#[derive(Debug)]
pub struct ResetTodaysTasksCommand {}

impl ResetTodaysTasksCommand {
    /// Clears today's set and runs the picker; the caller saves when the
    /// picker reports a change.
    pub fn run(&self, state: &mut State, rng: &mut RngSource, now: Timestamp) -> (b: bool)
        requires
            old(state).wf(),
            now.wf(),
        ensures
            final(state).wf(),
            pick_transition(
                StateV { todays_tasks: Seq::empty(), ..old(state)@ },
                final(state)@,
                now,
                b,
            ),
    {
        state.clear_todays_tasks();
        let ghost cleared = state@;
        let b = pick_todays_tasks(state, rng, now);
        proof {
            assert(cleared == (StateV { todays_tasks: Seq::empty(), ..old(state)@ })) by {
                assert(cleared.todays_tasks =~= Seq::<Seq<char>>::empty());
            }
        }
        b
    }
}

/// The subcommands acting on a task's steps.
#[derive(Debug)]
pub enum StepCommands {
    /// Add steps.
    Add(AddStepCommand),
    /// Remove steps.
    Remove(RemoveStepCommand),
    /// Update a step.
    Update(UpdateStepCommand),
    /// Change the order of steps.
    Move(MoveStepCommand),
    /// Defer steps.
    Defer(DeferStepCommand),
    /// Import steps.
    Import(ImportStepCommand),
}

/// Adds steps to a task.
#[derive(Debug)]
pub struct AddStepCommand {
    /// A more detailed description of the step.
    pub description: Option<String>,
    /// Where to insert the steps.
    pub place: Option<u32>,
    /// The task the steps belong to.
    pub task: String,
    /// The steps to add.
    pub steps: Vec<String>,
}

/// Removes steps from a task.
#[derive(Debug)]
pub struct RemoveStepCommand {
    /// The task the steps belong to.
    pub task: String,
    /// The steps to remove.
    pub steps: Vec<u32>,
}

/// Updates one step of a task.
#[derive(Debug)]
pub struct UpdateStepCommand {
    /// A new title for the step.
    pub title: Option<String>,
    /// A new description for the step.
    pub description: Option<String>,
    /// The task the step belongs to.
    pub task: String,
    /// The step to update.
    pub step: u32,
}

/// Moves one step of a task to another position.
#[derive(Debug)]
pub struct MoveStepCommand {
    /// The task the step belongs to.
    pub task: String,
    /// The step to move.
    pub step: u32,
    /// Where to move it.
    pub to: u32,
}

/// Defers steps of a task.
#[derive(Debug)]
pub struct DeferStepCommand {}

/// Imports steps from a file.
#[derive(Debug)]
pub struct ImportStepCommand {}


/// An import without updating: definitions are added in order; one whose
/// slug is already taken is skipped and reported, not an error.
pub open spec fn import_batch(ts: Seq<TaskV>, cfgs: Seq<crate::task_config::TaskConfigV>) -> (
    Seq<TaskV>,
    Seq<Seq<char>>,
)
    decreases cfgs.len(),
{
    if cfgs.len() == 0 {
        (ts, Seq::empty())
    } else if tasks_have_slug(ts, cfgs[0].slug) {
        let r = import_batch(ts, cfgs.skip(1));
        (r.0, seq![cfgs[0].slug] + r.1)
    } else {
        import_batch(
            ts.push(
                TaskV {
                    config: cfgs[0],
                    state: crate::task_state::TaskState {
                        disabled_on: None,
                        last_chosen: None,
                        times_completed: 0,
                        completed: false,
                    },
                },
            ),
            cfgs.skip(1),
        )
    }
}

impl State {
    /// Imports a sequence of definitions.  With `update` set, existing
    /// tasks are merged; without it, definitions whose slug is already
    /// taken are skipped, and their slugs returned for reporting.
    pub fn import_tasks(&mut self, tasks: Vec<crate::task_config::TaskConfig>, update: bool) -> (r:
        Vec<String>)
        requires
            old(self).wf(),
        ensures
            final(self).wf(),
            update ==> final(self)@ == (StateV {
                tasks: crate::state::upsert_batch(
                    old(self)@.tasks,
                    crate::config::configs_view(tasks@),
                ),
                ..old(self)@
            }) && r@.len() == 0,
            !update ==> final(self)@ == (StateV {
                tasks: import_batch(old(self)@.tasks, crate::config::configs_view(tasks@)).0,
                ..old(self)@
            }) && r.deep_view() == import_batch(
                old(self)@.tasks,
                crate::config::configs_view(tasks@),
            ).1,
    {
        if update {
            self.upsert_tasks(tasks);
            Vec::new()
        } else {
            let ghost cfgsv = crate::config::configs_view(tasks@);
            let mut skipped: Vec<String> = Vec::new();
            let n = tasks.len();
            let mut k: usize = 0;
            proof {
                assert(cfgsv.skip(0) =~= cfgsv);
                assert(skipped.deep_view() =~= Seq::<Seq<char>>::empty());
            }
            while k < n
                invariant
                    0 <= k <= n,
                    n == tasks@.len(),
                    cfgsv == crate::config::configs_view(tasks@),
                    self.wf(),
                    import_batch(self@.tasks, cfgsv.skip(k as int)).0 == import_batch(
                        old(self)@.tasks,
                        cfgsv,
                    ).0,
                    skipped.deep_view() + import_batch(self@.tasks, cfgsv.skip(k as int)).1
                        == import_batch(old(self)@.tasks, cfgsv).1,
                    self@ == (StateV { tasks: self@.tasks, ..old(self)@ }),
                decreases n - k,
            {
                proof {
                    assert(cfgsv.skip(k as int)[0] == cfgsv[k as int]);
                    assert(cfgsv.skip(k as int).skip(1) =~= cfgsv.skip(k as int + 1));
                    assert(tasks@[k as int]@ == cfgsv[k as int]);
                }
                let cfg = tasks[k].clone();
                let ghost presk = skipped.deep_view();
                match self.add_task(cfg) {
                    Ok(_) => {},
                    Err(_) => {
                        let slug = tasks[k].slug.clone();
                        skipped.push(slug);
                        proof {
                            assert(skipped.deep_view() =~= presk.push(cfgsv[k as int].slug));
                            assert(presk.push(cfgsv[k as int].slug) + import_batch(
                                self@.tasks,
                                cfgsv.skip(k as int + 1),
                            ).1 =~= presk + (seq![cfgsv[k as int].slug] + import_batch(
                                self@.tasks,
                                cfgsv.skip(k as int + 1),
                            ).1));
                        }
                    },
                }
                k = k + 1;
            }
            proof {
                assert(cfgsv.skip(n as int) =~= Seq::<crate::task_config::TaskConfigV>::empty());
                assert(skipped.deep_view() + Seq::<Seq<char>>::empty() =~= skipped.deep_view());
            }
            skipped
        }
    }
}

} // verus!
