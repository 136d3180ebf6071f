//! The reconciled runtime state: the task catalog joined with the persisted
//! per-task state, today's set, and the memoized effective day.
//!
//! A single map from slug to live task is the only authority; the two
//! persisted documents are produced from it on save and joined back into it
//! on load.

use vstd::prelude::*;
use crate::{Day, SECS_PER_DAY};
use crate::config::{Config, LimitTasksBy, has_cfg_slug};
use crate::dates::{Timestamp, dt_with_cutoff, spec_day_with_cutoff, MIN_DAY};
use crate::error::RanddGoalsError;
use crate::strings::sorted_strict;
use crate::task::{Task, TaskV};
use crate::task_config::{TaskConfig, TaskConfigV};
use crate::task_set::TaskSet;
use crate::task_state::TaskState;

verus! {

/// The mathematical content of the state document.
pub struct StateModelV {
    pub last_generated: Timestamp,
    pub tasks: Seq<(Seq<char>, TaskState)>,
    pub todays_tasks: Seq<Seq<char>>,
}

/// The persisted state document: the last pick instant, the per-task states
/// keyed by slug, and today's set of slugs.
#[derive(Debug)]
pub struct StateModel {
    pub last_generated: Timestamp,
    pub tasks: Vec<(String, TaskState)>,
    pub todays_tasks: TaskSet,
}

/// The views of the state document's slug-state pairs.
pub open spec fn states_view(tasks: Seq<(String, TaskState)>) -> Seq<(Seq<char>, TaskState)> {
    tasks.map_values(|p: (String, TaskState)| (p.0@, p.1))
}

impl View for StateModel {
    type V = StateModelV;

    open spec fn view(&self) -> StateModelV {
        StateModelV {
            last_generated: self.last_generated,
            tasks: states_view(self.tasks@),
            todays_tasks: self.todays_tasks@,
        }
    }
}

impl StateModel {
    /// A first-run state document: no per-task state, an empty today's set,
    /// and a last pick instant on the previous day, so that the first pick
    /// rolls over.
    pub fn fresh(now: Timestamp) -> (r: StateModel)
        requires
            now.wf(),
        ensures
            r@.tasks.len() == 0,
            r@.todays_tasks.len() == 0,
            r.todays_tasks.wf(),
            r@.last_generated.wf(),
            r@.last_generated == (Timestamp {
                day: if now.day > MIN_DAY {
                    (now.day - 1) as i32
                } else {
                    now.day
                },
                secs: now.secs,
            }),
    {
        let day = if now.day > MIN_DAY {
            now.day - 1
        } else {
            now.day
        };
        StateModel {
            last_generated: Timestamp { day, secs: now.secs },
            tasks: Vec::new(),
            todays_tasks: TaskSet::new(),
        }
    }
}

/// The first state recorded for a slug; a slug with no record gets the
/// default, fresh state.
pub open spec fn first_state_for(states: Seq<(Seq<char>, TaskState)>, slug: Seq<char>) -> TaskState
    decreases states.len(),
{
    if states.len() == 0 {
        TaskState { disabled_on: None, last_chosen: None, times_completed: 0, completed: false }
    } else if states[0].0 == slug {
        states[0].1
    } else {
        first_state_for(states.skip(1), slug)
    }
}

/// The catalog deduplicated by slug, first definition winning, appended to
/// the accumulator.
pub open spec fn dedup_cfgs(acc: Seq<TaskConfigV>, rest: Seq<TaskConfigV>) -> Seq<TaskConfigV>
    decreases rest.len(),
{
    if rest.len() == 0 {
        acc
    } else {
        dedup_cfgs(
            if has_cfg_slug(acc, rest[0].slug) {
                acc
            } else {
                acc.push(rest[0])
            },
            rest.skip(1),
        )
    }
}

/// The slugs of state records whose task no longer exists in the catalog,
/// in order of appearance.
pub open spec fn orphan_slugs(
    states: Seq<(Seq<char>, TaskState)>,
    cfgs: Seq<TaskConfigV>,
) -> Seq<Seq<char>>
    decreases states.len(),
{
    if states.len() == 0 {
        Seq::empty()
    } else {
        let rest = orphan_slugs(states.skip(1), cfgs);
        if has_cfg_slug(cfgs, states[0].0) {
            rest
        } else {
            seq![states[0].0] + rest
        }
    }
}

/// Whether a task with the given slug is in the live map.
pub open spec fn tasks_have_slug(ts: Seq<TaskV>, slug: Seq<char>) -> bool {
    exists|i: int| 0 <= i < ts.len() && ts[i].config.slug == slug
}

/// The position of the task with the given slug.
pub open spec fn task_index_of(ts: Seq<TaskV>, slug: Seq<char>) -> int {
    choose|i: int| 0 <= i < ts.len() && ts[i].config.slug == slug
}

/// Slugs are unique within the live map.
pub open spec fn distinct_slugs(ts: Seq<TaskV>) -> bool {
    forall|i: int, j: int|
        0 <= i < j < ts.len() ==> (#[trigger] ts[i]).config.slug != (#[trigger] ts[j]).config.slug
}

/// The mathematical content of the reconciled runtime state.
pub struct StateV {
    pub tasks: Seq<TaskV>,
    pub todays_tasks: Seq<Seq<char>>,
    pub last_generated: Timestamp,
    pub cut_off: u32,
    pub limit_by: LimitTasksBy,
    pub today: Day,
}

/// What every reconciled state satisfies: a time-of-day cut-off, a sorted
/// today's set, a meaningful last pick instant, and unique slugs.
pub open spec fn state_wf(s: StateV) -> bool {
    &&& s.cut_off < SECS_PER_DAY
    &&& sorted_strict(s.todays_tasks)
    &&& s.last_generated.wf()
    &&& distinct_slugs(s.tasks)
}

/// The reconciled runtime state: the live task map, today's set, the last
/// pick instant, the configured policy, and the effective day memoized at
/// construction.
#[derive(Debug)]
pub struct State {
    pub tasks: Vec<Task>,
    pub todays_tasks: TaskSet,
    pub last_generated: Timestamp,
    pub cut_off: u32,
    pub limit_by: LimitTasksBy,
    pub today: Day,
}

impl View for State {
    type V = StateV;

    open spec fn view(&self) -> StateV {
        StateV {
            tasks: self.tasks@.map_values(|t: Task| t@),
            todays_tasks: self.todays_tasks@,
            last_generated: self.last_generated,
            cut_off: self.cut_off,
            limit_by: self.limit_by,
            today: self.today,
        }
    }
}

/// The first state recorded for a slug in the document, as executable code.
fn find_state(states: &Vec<(String, TaskState)>, slug: &str) -> (r: TaskState)
    ensures
        r == first_state_for(states_view(states@), slug@),
{
    let n = states.len();
    let mut i: usize = 0;
    proof {
        assert(states_view(states@).skip(0) =~= states_view(states@));
    }
    while i < n
        invariant
            0 <= i <= n,
            n == states@.len(),
            first_state_for(states_view(states@).skip(i as int), slug@) == first_state_for(
                states_view(states@),
                slug@,
            ),
            forall|j: int| 0 <= j < i ==> states_view(states@)[j].0 != slug@,
        decreases n - i,
    {
        proof {
            assert(states_view(states@)[i as int] == (states@[i as int].0@, states@[i as int].1));
        }
        if crate::strings::cmp_str(states[i].0.as_str(), slug) == 0 {
            proof {
                assert(states_view(states@).skip(i as int)[0] == states_view(states@)[i as int]);
            }
            return states[i].1;
        }
        proof {
            assert(states_view(states@).skip(i as int)[0] == states_view(states@)[i as int]);
            assert(states_view(states@).skip(i as int).skip(1) =~= states_view(states@).skip(
                i as int + 1,
            ));
        }
        i = i + 1;
    }
    proof {
        assert(states_view(states@).skip(n as int) =~= Seq::<(Seq<char>, TaskState)>::empty());
    }
    TaskState::default()
}

/// Whether the live map already holds a task with this slug.
fn tasks_contain_slug(tasks: &Vec<Task>, slug: &str) -> (r: bool)
    ensures
        r == tasks_have_slug(tasks@.map_values(|t: Task| t@), slug@),
{
    let n = tasks.len();
    let mut i: usize = 0;
    while i < n
        invariant
            0 <= i <= n,
            n == tasks@.len(),
            forall|j: int| 0 <= j < i ==> (#[trigger] tasks@[j])@.config.slug != slug@,
        decreases n - i,
    {
        if crate::strings::cmp_str(tasks[i].config.slug.as_str(), slug) == 0 {
            proof {
                assert(tasks@.map_values(|t: Task| t@)[i as int].config.slug == slug@);
            }
            return true;
        }
        i = i + 1;
    }
    proof {
        if tasks_have_slug(tasks@.map_values(|t: Task| t@), slug@) {
            let tsv = tasks@.map_values(|t: Task| t@);
            let k = choose|k: int| 0 <= k < tsv.len() && (#[trigger] tsv[k]).config.slug == slug@;
            assert(tsv[k] == tasks@[k]@);
        }
    }
    false
}

impl State {
    /// Everything the library assumes of a reconciled state.
    pub open spec fn wf(&self) -> bool {
        state_wf(self@)
    }

    /// Joins the catalog with the state document into a live state.
    ///
    /// Catalog entries are joined by slug with their recorded state, or with
    /// a fresh default state where none is recorded; a duplicated slug in the
    /// catalog keeps its first definition.  State records whose task is gone
    /// from the catalog are returned as orphans, in order of appearance, and
    /// excluded from the live map; today's set is kept as found.  The
    /// effective day is computed here, once, from `now` and the cut-off.
    pub fn reconcile(config: Config, model: StateModel, now: Timestamp) -> (r: (State, Vec<String>))
        requires
            config.wf(),
            now.wf(),
            model.last_generated.wf(),
            model.todays_tasks.wf(),
        ensures
            r.0.wf(),
            r.0@.tasks.map_values(|t: TaskV| t.config) == dedup_cfgs(
                Seq::empty(),
                config@.tasks,
            ),
            forall|k: int|
                0 <= k < r.0@.tasks.len() ==> (#[trigger] r.0@.tasks[k]).state == first_state_for(
                    model@.tasks,
                    r.0@.tasks[k].config.slug,
                ),
            r.0@.todays_tasks == model@.todays_tasks,
            r.0@.last_generated == model@.last_generated,
            r.0@.cut_off == config@.cut_off,
            r.0@.limit_by == config@.limit_by,
            r.0@.today == spec_day_with_cutoff(now, config@.cut_off),
            r.1.deep_view() == orphan_slugs(model@.tasks, config@.tasks),
    {
        let today = dt_with_cutoff(now, config.cut_off);
        let ghost cfgsv = config@.tasks;
        let ghost statesv = model@.tasks;
        let mut tasks: Vec<Task> = Vec::new();
        let n = config.tasks.len();
        let mut i: usize = 0;
        proof {
            assert(cfgsv.skip(0) =~= cfgsv);
            assert(tasks@.map_values(|t: Task| t@).map_values(|t: TaskV| t.config)
                =~= Seq::<TaskConfigV>::empty());
        }
        while i < n
            invariant
                0 <= i <= n,
                n == config.tasks@.len(),
                cfgsv == config@.tasks,
                statesv == model@.tasks,
                dedup_cfgs(tasks@.map_values(|t: Task| t@).map_values(|t: TaskV| t.config),
                    cfgsv.skip(i as int)) == dedup_cfgs(Seq::empty(), cfgsv),
                forall|k: int|
                    0 <= k < tasks@.len() ==> (#[trigger] tasks@[k])@.state == first_state_for(
                        statesv,
                        tasks@[k]@.config.slug,
                    ),
                distinct_slugs(tasks@.map_values(|t: Task| t@)),
            decreases n - i,
        {
            let ghost tsv = tasks@.map_values(|t: Task| t@).map_values(|t: TaskV| t.config);
            let cfg = config.tasks[i].clone();
            proof {
                assert(cfg@ == cfgsv[i as int]);
                assert(cfgsv.skip(i as int)[0] == cfgsv[i as int]);
                assert(cfgsv.skip(i as int).skip(1) =~= cfgsv.skip(i as int + 1));
                // membership in the config views of the live map matches membership
                // among the live tasks
                assert(has_cfg_slug(tsv, cfg@.slug) == tasks_have_slug(
                    tasks@.map_values(|t: Task| t@),
                    cfg@.slug,
                )) by {
                    if has_cfg_slug(tsv, cfg@.slug) {
                        let j = choose|j: int| 0 <= j < tsv.len() && tsv[j].slug == cfg@.slug;
                        assert(tasks@.map_values(|t: Task| t@)[j].config.slug == cfg@.slug);
                    }
                    if tasks_have_slug(tasks@.map_values(|t: Task| t@), cfg@.slug) {
                        let mv = tasks@.map_values(|t: Task| t@);
                        let j = choose|j: int|
                            0 <= j < mv.len() && (#[trigger] mv[j]).config.slug == cfg@.slug;
                        assert(tsv[j].slug == cfg@.slug);
                    }
                }
            }
            if !tasks_contain_slug(&tasks, cfg.slug.as_str()) {
                let ghost slugv = cfg@.slug;
                let st = find_state(&model.tasks, cfg.slug.as_str());
                let ghost pre = tasks@.map_values(|t: Task| t@);
                tasks.push(Task::new(cfg, st));
                proof {
                    assert(tasks@.map_values(|t: Task| t@) =~= pre.push(
                        TaskV { config: cfgsv[i as int], state: st },
                    ));
                    assert(tasks@.map_values(|t: Task| t@).map_values(|t: TaskV| t.config)
                        =~= tsv.push(cfgsv[i as int]));
                }
            }
            i = i + 1;
        }
        proof {
            assert(cfgsv.skip(n as int) =~= Seq::<TaskConfigV>::empty());
        }
        let mut orphans: Vec<String> = Vec::new();
        let m = model.tasks.len();
        let mut j: usize = 0;
        proof {
            assert(statesv.skip(0) =~= statesv);
            assert(orphans.deep_view() =~= Seq::<Seq<char>>::empty());
        }
        while j < m
            invariant
                0 <= j <= m,
                m == model.tasks@.len(),
                cfgsv == config@.tasks,
                statesv == model@.tasks,
                orphans.deep_view() + orphan_slugs(statesv.skip(j as int), cfgsv) == orphan_slugs(
                    statesv,
                    cfgsv,
                ),
            decreases m - j,
        {
            let slug = model.tasks[j].0.clone();
            proof {
                assert(slug@ == statesv[j as int].0);
                assert(statesv.skip(j as int)[0] == statesv[j as int]);
                assert(statesv.skip(j as int).skip(1) =~= statesv.skip(j as int + 1));
            }
            let ghost pre = orphans.deep_view();
            if !config.contains_task(slug.as_str()) {
                orphans.push(slug);
                proof {
                    assert(orphans.deep_view() =~= pre.push(statesv[j as int].0));
                    assert(pre.push(statesv[j as int].0) + orphan_slugs(
                        statesv.skip(j as int + 1),
                        cfgsv,
                    ) =~= pre + (seq![statesv[j as int].0] + orphan_slugs(
                        statesv.skip(j as int + 1),
                        cfgsv,
                    )));
                }
            }
            j = j + 1;
        }
        proof {
            assert(statesv.skip(m as int) =~= Seq::<(Seq<char>, TaskState)>::empty());
            assert(orphans.deep_view() + Seq::<Seq<char>>::empty() =~= orphans.deep_view());
        }
        let s = State {
            tasks,
            todays_tasks: model.todays_tasks,
            last_generated: model.last_generated,
            cut_off: config.cut_off,
            limit_by: config.limit_by,
            today,
        };
        (s, orphans)
    }

    /// Splits the live state back into the two persisted documents.
    pub fn to_docs(&self) -> (r: (Config, StateModel))
        requires
            self.wf(),
        ensures
            r.0@.tasks == self@.tasks.map_values(|t: TaskV| t.config),
            r.0@.cut_off == self@.cut_off,
            r.0@.limit_by == self@.limit_by,
            r.0.wf(),
            r.1@.last_generated == self@.last_generated,
            r.1@.tasks == self@.tasks.map_values(|t: TaskV| (t.config.slug, t.state)),
            r.1@.todays_tasks == self@.todays_tasks,
            r.1.last_generated.wf(),
            r.1.todays_tasks.wf(),
    {
        let n = self.tasks.len();
        let mut cfgs: Vec<TaskConfig> = Vec::new();
        let mut states: Vec<(String, TaskState)> = Vec::new();
        let mut i: usize = 0;
        while i < n
            invariant
                0 <= i <= n,
                n == self.tasks@.len(),
                cfgs@.map_values(|c: TaskConfig| c@) =~= self@.tasks.take(i as int).map_values(
                    |t: TaskV| t.config,
                ),
                states_view(states@) =~= self@.tasks.take(i as int).map_values(
                    |t: TaskV| (t.config.slug, t.state),
                ),
            decreases n - i,
        {
            let cfg = self.tasks[i].config.clone();
            let slug = self.tasks[i].config.slug.clone();
            let st = self.tasks[i].state;
            let ghost precfg = cfgs@.map_values(|c: TaskConfig| c@);
            let ghost prest = states_view(states@);
            let ghost cfgv = cfg@;
            let ghost slugv = slug@;
            cfgs.push(cfg);
            states.push((slug, st));
            proof {
                assert(self@.tasks[i as int] == self.tasks@[i as int]@);
                assert(cfgv == self@.tasks[i as int].config);
                assert(slugv == self@.tasks[i as int].config.slug);
                assert(cfgs@.map_values(|c: TaskConfig| c@) =~= precfg.push(cfgv));
                assert(states_view(states@) =~= prest.push((slugv, st)));
                assert(self@.tasks.take(i + 1).map_values(|t: TaskV| t.config) =~= self@.tasks.take(
                    i as int,
                ).map_values(|t: TaskV| t.config).push(self@.tasks[i as int].config));
                assert(self@.tasks.take(i + 1).map_values(|t: TaskV| (t.config.slug, t.state))
                    =~= self@.tasks.take(i as int).map_values(
                    |t: TaskV| (t.config.slug, t.state),
                ).push((self@.tasks[i as int].config.slug, self@.tasks[i as int].state)));
                assert(st == self@.tasks[i as int].state);
            }
            i = i + 1;
        }
        proof {
            assert(self@.tasks.take(n as int) =~= self@.tasks);
        }
        let config = Config { tasks: cfgs, cut_off: self.cut_off, limit_by: self.limit_by };
        let model = StateModel {
            last_generated: self.last_generated,
            tasks: states,
            todays_tasks: self.todays_tasks.clone(),
        };
        (config, model)
    }
}


/// Completion, as it changes one task.
pub open spec fn spec_complete_task(t: TaskV) -> TaskV {
    TaskV {
        state: TaskState {
            completed: true,
            times_completed: if t.state.times_completed < u32::MAX {
                (t.state.times_completed + 1) as u32
            } else {
                u32::MAX
            },
            ..t.state
        },
        ..t
    }
}

/// Enabling, as it changes one task: both the definition and the state.
pub open spec fn spec_enable_task(t: TaskV) -> TaskV {
    TaskV {
        config: TaskConfigV { disabled: crate::task_config::DisabledOptions::Enabled, ..t.config },
        state: TaskState { disabled_on: None, ..t.state },
    }
}

/// Disabling with a chosen suppression, as it changes one task: both the
/// definition and the state.
pub open spec fn spec_disable_task_as(
    t: TaskV,
    today: Day,
    how: crate::task_config::DisabledOptions,
) -> TaskV {
    TaskV {
        config: TaskConfigV { disabled: how, ..t.config },
        state: TaskState { disabled_on: Some(today), ..t.state },
    }
}

/// The plain disable toggle, as it changes one task.
pub open spec fn spec_disable_task(t: TaskV, today: Day) -> TaskV {
    spec_disable_task_as(t, today, crate::task_config::DisabledOptions::Disabled)
}

/// A position with a matching slug is the position `task_index_of` finds,
/// when slugs are unique.
pub proof fn lemma_index_of_unique(ts: Seq<TaskV>, slug: Seq<char>, i: int)
    requires
        distinct_slugs(ts),
        0 <= i < ts.len(),
        ts[i].config.slug == slug,
    ensures
        tasks_have_slug(ts, slug),
        task_index_of(ts, slug) == i,
{
    assert(tasks_have_slug(ts, slug));
    let j = task_index_of(ts, slug);
    if j != i {
        assert(ts[i].config.slug != ts[j].config.slug);
    }
}

/// Replacing a task with one of the same slug keeps slugs unique.
pub proof fn lemma_distinct_update(ts: Seq<TaskV>, i: int, t: TaskV)
    requires
        distinct_slugs(ts),
        0 <= i < ts.len(),
        t.config.slug == ts[i].config.slug,
    ensures
        distinct_slugs(ts.update(i, t)),
{
}

/// Removing a task keeps slugs unique.
pub proof fn lemma_distinct_remove(ts: Seq<TaskV>, i: int)
    requires
        distinct_slugs(ts),
        0 <= i < ts.len(),
    ensures
        distinct_slugs(ts.remove(i)),
{
    assert forall|p: int, q: int|
        0 <= p < q < ts.remove(i).len() implies (#[trigger] ts.remove(i)[p]).config.slug != (
    #[trigger] ts.remove(i)[q]).config.slug by {
        let po = if p < i { p } else { p + 1 };
        let qo = if q < i { q } else { q + 1 };
        assert(ts.remove(i)[p] == ts[po]);
        assert(ts.remove(i)[q] == ts[qo]);
    }
}

/// Appending a task with a new slug keeps slugs unique.
pub proof fn lemma_distinct_push(ts: Seq<TaskV>, t: TaskV)
    requires
        distinct_slugs(ts),
        !tasks_have_slug(ts, t.config.slug),
    ensures
        distinct_slugs(ts.push(t)),
{
    assert forall|p: int, q: int|
        0 <= p < q < ts.push(t).len() implies (#[trigger] ts.push(t)[p]).config.slug != (
    #[trigger] ts.push(t)[q]).config.slug by {
        if q < ts.len() {
            assert(ts.push(t)[p] == ts[p]);
            assert(ts.push(t)[q] == ts[q]);
        } else {
            assert(ts.push(t)[q] == t);
            assert(ts.push(t)[p] == ts[p]);
            if ts[p].config.slug == t.config.slug {
                assert(tasks_have_slug(ts, t.config.slug));
            }
        }
    }
}

impl State {
    /// The position of the task with this slug in the live map.
    pub fn find_index(&self, slug: &str) -> (r: Option<usize>)
        requires
            self.wf(),
        ensures
            r is Some <==> tasks_have_slug(self@.tasks, slug@),
            r matches Some(i) ==> i < self@.tasks.len() && self@.tasks[
                i as int
            ].config.slug == slug@ && task_index_of(self@.tasks, slug@) == i as int,
    {
        let n = self.tasks.len();
        let mut i: usize = 0;
        while i < n
            invariant
                0 <= i <= n,
                n == self.tasks@.len(),
                self.wf(),
                forall|j: int| 0 <= j < i ==> (#[trigger] self.tasks@[j])@.config.slug != slug@,
            decreases n - i,
        {
            if crate::strings::cmp_str(self.tasks[i].config.slug.as_str(), slug) == 0 {
                proof {
                    assert(self@.tasks[i as int].config.slug == slug@);
                    lemma_index_of_unique(self@.tasks, slug@, i as int);
                }
                return Some(i);
            }
            i = i + 1;
        }
        proof {
            if tasks_have_slug(self@.tasks, slug@) {
                let tsv = self@.tasks;
                let k = choose|k: int|
                    0 <= k < tsv.len() && (#[trigger] tsv[k]).config.slug == slug@;
                assert(tsv[k] == self.tasks@[k]@);
            }
        }
        None
    }

    /// The task with this slug, if any.
    pub fn get_task(&self, slug: &str) -> (r: Option<&Task>)
        requires
            self.wf(),
        ensures
            r is Some <==> tasks_have_slug(self@.tasks, slug@),
            r matches Some(t) ==> t@ == self@.tasks[task_index_of(self@.tasks, slug@)]
                && t@.config.slug == slug@,
    {
        match self.find_index(slug) {
            Some(i) => Some(&self.tasks[i]),
            None => None,
        }
    }

    /// Replaces the task at `i`, which must keep its slug.
    pub(crate) fn put_task(&mut self, i: usize, t: Task)
        requires
            old(self).wf(),
            i < old(self)@.tasks.len(),
            t@.config.slug == old(self)@.tasks[i as int].config.slug,
        ensures
            final(self).wf(),
            final(self)@ == (StateV {
                tasks: old(self)@.tasks.update(i as int, t@),
                ..old(self)@
            }),
    {
        let ghost tv = t@;
        self.tasks[i] = t;
        proof {
            assert(self@.tasks =~= old(self)@.tasks.update(i as int, tv));
            lemma_distinct_update(old(self)@.tasks, i as int, tv);
        }
    }

    /// Marks one task completed; fails when the slug is unknown.
    pub fn complete_task(&mut self, slug: &str) -> (r: Result<(), RanddGoalsError>)
        requires
            old(self).wf(),
        ensures
            final(self).wf(),
            r is Ok <==> tasks_have_slug(old(self)@.tasks, slug@),
            r is Ok ==> final(self)@ == (StateV {
                tasks: old(self)@.tasks.update(
                    task_index_of(old(self)@.tasks, slug@),
                    spec_complete_task(
                        old(self)@.tasks[task_index_of(old(self)@.tasks, slug@)],
                    ),
                ),
                ..old(self)@
            }),
            r is Err ==> *final(self) == *old(self),
            r matches Err(e) ==> (e matches RanddGoalsError::TaskNotFound { slug: s } && s@
                == slug@),
    {
        match self.find_index(slug) {
            Some(i) => {
                let mut t = self.tasks[i].clone();
                t.complete();
                self.put_task(i, t);
                Ok(())
            },
            None => Err(RanddGoalsError::TaskNotFound { slug: slug.to_owned() }),
        }
    }

    /// Enables one task, in both documents; fails when the slug is unknown.
    pub fn enable_task(&mut self, slug: &str) -> (r: Result<(), RanddGoalsError>)
        requires
            old(self).wf(),
        ensures
            final(self).wf(),
            r is Ok <==> tasks_have_slug(old(self)@.tasks, slug@),
            r is Ok ==> final(self)@ == (StateV {
                tasks: old(self)@.tasks.update(
                    task_index_of(old(self)@.tasks, slug@),
                    spec_enable_task(old(self)@.tasks[task_index_of(old(self)@.tasks, slug@)]),
                ),
                ..old(self)@
            }),
            r is Err ==> *final(self) == *old(self),
            r matches Err(e) ==> (e matches RanddGoalsError::TaskNotFound { slug: s } && s@
                == slug@),
    {
        match self.find_index(slug) {
            Some(i) => {
                let mut t = self.tasks[i].clone();
                t.enable();
                self.put_task(i, t);
                Ok(())
            },
            None => Err(RanddGoalsError::TaskNotFound { slug: slug.to_owned() }),
        }
    }

    /// Disables one task, in both documents, recording the effective day;
    /// fails when the slug is unknown.
    pub fn disable_task(&mut self, slug: &str) -> (r: Result<(), RanddGoalsError>)
        requires
            old(self).wf(),
        ensures
            final(self).wf(),
            r is Ok <==> tasks_have_slug(old(self)@.tasks, slug@),
            r is Ok ==> final(self)@ == (StateV {
                tasks: old(self)@.tasks.update(
                    task_index_of(old(self)@.tasks, slug@),
                    spec_disable_task(
                        old(self)@.tasks[task_index_of(old(self)@.tasks, slug@)],
                        old(self)@.today,
                    ),
                ),
                ..old(self)@
            }),
            r is Err ==> *final(self) == *old(self),
            r matches Err(e) ==> (e matches RanddGoalsError::TaskNotFound { slug: s } && s@
                == slug@),
    {
        self.disable_task_as(slug, crate::task_config::DisabledOptions::Disabled)
    }

    /// Disables one task with the chosen suppression — outright, through a
    /// day, or for a number of days — in both documents, recording the
    /// effective day; fails when the slug is unknown.
    pub fn disable_task_as(
        &mut self,
        slug: &str,
        how: crate::task_config::DisabledOptions,
    ) -> (r: Result<(), RanddGoalsError>)
        requires
            old(self).wf(),
        ensures
            final(self).wf(),
            r is Ok <==> tasks_have_slug(old(self)@.tasks, slug@),
            r is Ok ==> final(self)@ == (StateV {
                tasks: old(self)@.tasks.update(
                    task_index_of(old(self)@.tasks, slug@),
                    spec_disable_task_as(
                        old(self)@.tasks[task_index_of(old(self)@.tasks, slug@)],
                        old(self)@.today,
                        how,
                    ),
                ),
                ..old(self)@
            }),
            r is Err ==> *final(self) == *old(self),
            r matches Err(e) ==> (e matches RanddGoalsError::TaskNotFound { slug: s } && s@
                == slug@),
    {
        match self.find_index(slug) {
            Some(i) => {
                let today = self.today;
                let mut t = self.tasks[i].clone();
                t.disable_as(today, how);
                self.put_task(i, t);
                Ok(())
            },
            None => Err(RanddGoalsError::TaskNotFound { slug: slug.to_owned() }),
        }
    }

    /// Registers a new task with a fresh default state; fails when the slug
    /// is already taken, leaving the state unchanged.
    pub fn add_task(&mut self, task_config: TaskConfig) -> (r: Result<(), RanddGoalsError>)
        requires
            old(self).wf(),
        ensures
            final(self).wf(),
            r is Ok <==> !tasks_have_slug(old(self)@.tasks, task_config@.slug),
            r is Ok ==> final(self)@ == (StateV {
                tasks: old(self)@.tasks.push(
                    TaskV {
                        config: task_config@,
                        state: TaskState {
                            disabled_on: None,
                            last_chosen: None,
                            times_completed: 0,
                            completed: false,
                        },
                    },
                ),
                ..old(self)@
            }),
            r is Err ==> *final(self) == *old(self),
            r matches Err(e) ==> (e matches RanddGoalsError::TaskAlreadyExists { slug: s } && s@
                == task_config@.slug),
    {
        if tasks_contain_slug(&self.tasks, task_config.slug.as_str()) {
            let slug = task_config.slug.clone();
            Err(RanddGoalsError::TaskAlreadyExists { slug })
        } else {
            let ghost cfgv = task_config@;
            let ghost pre = self@.tasks;
            let t = Task::new(task_config, TaskState::default());
            let ghost tv = t@;
            self.tasks.push(t);
            proof {
                assert(self@.tasks =~= pre.push(tv));
                lemma_distinct_push(pre, tv);
            }
            Ok(())
        }
    }

    /// Merges a definition into the existing task with the same slug; fails
    /// when the slug is unknown.
    pub fn update_task(&mut self, task_config: TaskConfig) -> (r: Result<(), RanddGoalsError>)
        requires
            old(self).wf(),
        ensures
            final(self).wf(),
            r is Ok <==> tasks_have_slug(old(self)@.tasks, task_config@.slug),
            r is Ok ==> final(self)@ == (StateV {
                tasks: old(self)@.tasks.update(
                    task_index_of(old(self)@.tasks, task_config@.slug),
                    TaskV {
                        config: crate::task_config::spec_merge(
                            old(self)@.tasks[task_index_of(
                                old(self)@.tasks,
                                task_config@.slug,
                            )].config,
                            task_config@,
                        ),
                        state: old(self)@.tasks[task_index_of(
                            old(self)@.tasks,
                            task_config@.slug,
                        )].state,
                    },
                ),
                ..old(self)@
            }),
            r is Err ==> *final(self) == *old(self),
            r matches Err(e) ==> (e matches RanddGoalsError::TaskNotFound { slug: s } && s@
                == task_config@.slug),
    {
        let ghost cfgv = task_config@;
        match self.find_index(task_config.slug.as_str()) {
            Some(i) => {
                let mut t = self.tasks[i].clone();
                t.config.merge(task_config);
                self.put_task(i, t);
                Ok(())
            },
            None => {
                let slug = task_config.slug.clone();
                Err(RanddGoalsError::TaskNotFound { slug })
            },
        }
    }

    /// Updates the task when its slug is present, otherwise adds it; never
    /// fails.
    pub fn upsert_task(&mut self, task_config: TaskConfig)
        requires
            old(self).wf(),
        ensures
            final(self).wf(),
            tasks_have_slug(old(self)@.tasks, task_config@.slug) ==> final(self)@ == (StateV {
                tasks: old(self)@.tasks.update(
                    task_index_of(old(self)@.tasks, task_config@.slug),
                    TaskV {
                        config: crate::task_config::spec_merge(
                            old(self)@.tasks[task_index_of(
                                old(self)@.tasks,
                                task_config@.slug,
                            )].config,
                            task_config@,
                        ),
                        state: old(self)@.tasks[task_index_of(
                            old(self)@.tasks,
                            task_config@.slug,
                        )].state,
                    },
                ),
                ..old(self)@
            }),
            !tasks_have_slug(old(self)@.tasks, task_config@.slug) ==> final(self)@ == (StateV {
                tasks: old(self)@.tasks.push(
                    TaskV {
                        config: task_config@,
                        state: TaskState {
                            disabled_on: None,
                            last_chosen: None,
                            times_completed: 0,
                            completed: false,
                        },
                    },
                ),
                ..old(self)@
            }),
    {
        if tasks_contain_slug(&self.tasks, task_config.slug.as_str()) {
            let r = self.update_task(task_config);
            proof {
                assert(r is Ok);
            }
        } else {
            let r = self.add_task(task_config);
            proof {
                assert(r is Ok);
            }
        }
    }

    /// Removes the task with this slug from the live map; fails when the
    /// slug is unknown.  Both documents drop the task on the next save.
    pub fn remove_task(&mut self, slug: &str) -> (r: Result<(), RanddGoalsError>)
        requires
            old(self).wf(),
        ensures
            final(self).wf(),
            r is Ok <==> tasks_have_slug(old(self)@.tasks, slug@),
            r is Ok ==> final(self)@ == (StateV {
                tasks: old(self)@.tasks.remove(task_index_of(old(self)@.tasks, slug@)),
                ..old(self)@
            }),
            r is Err ==> *final(self) == *old(self),
            r matches Err(e) ==> (e matches RanddGoalsError::TaskNotFound { slug: s } && s@
                == slug@),
    {
        match self.find_index(slug) {
            Some(i) => {
                let ghost pre = self@.tasks;
                self.tasks.remove(i);
                proof {
                    assert(self@.tasks =~= pre.remove(i as int));
                    lemma_distinct_remove(pre, i as int);
                }
                Ok(())
            },
            None => Err(RanddGoalsError::TaskNotFound { slug: slug.to_owned() }),
        }
    }
}


/// A batch of enables, stopping at the first unknown slug: the tasks after
/// the batch, and the offending slug if one was hit.
pub open spec fn enable_batch(ts: Seq<TaskV>, slugs: Seq<Seq<char>>) -> (Seq<TaskV>, Option<
    Seq<char>,
>)
    decreases slugs.len(),
{
    if slugs.len() == 0 {
        (ts, None)
    } else if !tasks_have_slug(ts, slugs[0]) {
        (ts, Some(slugs[0]))
    } else {
        enable_batch(
            ts.update(task_index_of(ts, slugs[0]), spec_enable_task(ts[task_index_of(ts, slugs[0])])),
            slugs.skip(1),
        )
    }
}

/// A batch of disables with a chosen suppression, stopping at the first
/// unknown slug.
pub open spec fn disable_batch_as(
    ts: Seq<TaskV>,
    slugs: Seq<Seq<char>>,
    today: Day,
    how: crate::task_config::DisabledOptions,
) -> (Seq<TaskV>, Option<Seq<char>>)
    decreases slugs.len(),
{
    if slugs.len() == 0 {
        (ts, None)
    } else if !tasks_have_slug(ts, slugs[0]) {
        (ts, Some(slugs[0]))
    } else {
        disable_batch_as(
            ts.update(
                task_index_of(ts, slugs[0]),
                spec_disable_task_as(ts[task_index_of(ts, slugs[0])], today, how),
            ),
            slugs.skip(1),
            today,
            how,
        )
    }
}

/// A batch of plain disable toggles, stopping at the first unknown slug.
pub open spec fn disable_batch(ts: Seq<TaskV>, slugs: Seq<Seq<char>>, today: Day) -> (Seq<TaskV>,
    Option<Seq<char>>,
) {
    disable_batch_as(ts, slugs, today, crate::task_config::DisabledOptions::Disabled)
}

/// A batch of removals, stopping at the first unknown slug.
pub open spec fn remove_batch(ts: Seq<TaskV>, slugs: Seq<Seq<char>>) -> (Seq<TaskV>, Option<
    Seq<char>,
>)
    decreases slugs.len(),
{
    if slugs.len() == 0 {
        (ts, None)
    } else if !tasks_have_slug(ts, slugs[0]) {
        (ts, Some(slugs[0]))
    } else {
        remove_batch(ts.remove(task_index_of(ts, slugs[0])), slugs.skip(1))
    }
}

/// A batch of additions, stopping at the first slug already taken.
pub open spec fn add_batch(ts: Seq<TaskV>, cfgs: Seq<TaskConfigV>) -> (Seq<TaskV>, Option<
    Seq<char>,
>)
    decreases cfgs.len(),
{
    if cfgs.len() == 0 {
        (ts, None)
    } else if tasks_have_slug(ts, cfgs[0].slug) {
        (ts, Some(cfgs[0].slug))
    } else {
        add_batch(
            ts.push(
                TaskV {
                    config: cfgs[0],
                    state: TaskState {
                        disabled_on: None,
                        last_chosen: None,
                        times_completed: 0,
                        completed: false,
                    },
                },
            ),
            cfgs.skip(1),
        )
    }
}

/// A batch of updates, stopping at the first unknown slug.
pub open spec fn update_batch(ts: Seq<TaskV>, cfgs: Seq<TaskConfigV>) -> (Seq<TaskV>, Option<
    Seq<char>,
>)
    decreases cfgs.len(),
{
    if cfgs.len() == 0 {
        (ts, None)
    } else if !tasks_have_slug(ts, cfgs[0].slug) {
        (ts, Some(cfgs[0].slug))
    } else {
        update_batch(
            ts.update(
                task_index_of(ts, cfgs[0].slug),
                TaskV {
                    config: crate::task_config::spec_merge(
                        ts[task_index_of(ts, cfgs[0].slug)].config,
                        cfgs[0],
                    ),
                    state: ts[task_index_of(ts, cfgs[0].slug)].state,
                },
            ),
            cfgs.skip(1),
        )
    }
}

/// A batch of upserts; an upsert never fails.
pub open spec fn upsert_batch(ts: Seq<TaskV>, cfgs: Seq<TaskConfigV>) -> Seq<TaskV>
    decreases cfgs.len(),
{
    if cfgs.len() == 0 {
        ts
    } else {
        let stepped = if tasks_have_slug(ts, cfgs[0].slug) {
            ts.update(
                task_index_of(ts, cfgs[0].slug),
                TaskV {
                    config: crate::task_config::spec_merge(
                        ts[task_index_of(ts, cfgs[0].slug)].config,
                        cfgs[0],
                    ),
                    state: ts[task_index_of(ts, cfgs[0].slug)].state,
                },
            )
        } else {
            ts.push(
                TaskV {
                    config: cfgs[0],
                    state: TaskState {
                        disabled_on: None,
                        last_chosen: None,
                        times_completed: 0,
                        completed: false,
                    },
                },
            )
        };
        upsert_batch(stepped, cfgs.skip(1))
    }
}

impl State {
    /// Enables each listed task, failing fast at the first unknown slug and
    /// keeping the enables already applied.
    pub fn enable_tasks(&mut self, slugs: &Vec<String>) -> (r: Result<(), RanddGoalsError>)
        requires
            old(self).wf(),
        ensures
            final(self).wf(),
            final(self)@ == (StateV {
                tasks: enable_batch(old(self)@.tasks, slugs.deep_view()).0,
                ..old(self)@
            }),
            r is Ok <==> enable_batch(old(self)@.tasks, slugs.deep_view()).1 is None,
            r matches Err(e) ==> (e matches RanddGoalsError::TaskNotFound { slug: s }
                && enable_batch(old(self)@.tasks, slugs.deep_view()).1 == Some(s@)),
    {
        let ghost slugsv = slugs.deep_view();
        let n = slugs.len();
        let mut k: usize = 0;
        proof {
            assert(slugsv.skip(0) =~= slugsv);
        }
        while k < n
            invariant
                0 <= k <= n,
                n == slugs@.len(),
                slugsv == slugs.deep_view(),
                self.wf(),
                enable_batch(self@.tasks, slugsv.skip(k as int)) == enable_batch(
                    old(self)@.tasks,
                    slugsv,
                ),
                self@ == (StateV { tasks: self@.tasks, ..old(self)@ }),
            decreases n - k,
        {
            proof {
                assert(slugsv.skip(k as int)[0] == slugsv[k as int]);
                assert(slugsv.skip(k as int).skip(1) =~= slugsv.skip(k as int + 1));
                assert(slugs@[k as int]@ == slugsv[k as int]);
            }
            match self.enable_task(slugs[k].as_str()) {
                Ok(_) => {},
                Err(e) => {
                    return Err(e);
                },
            }
            k = k + 1;
        }
        proof {
            assert(slugsv.skip(n as int) =~= Seq::<Seq<char>>::empty());
        }
        Ok(())
    }

    /// Disables each listed task, failing fast at the first unknown slug and
    /// keeping the disables already applied.
    pub fn disable_tasks(&mut self, slugs: &Vec<String>) -> (r: Result<(), RanddGoalsError>)
        requires
            old(self).wf(),
        ensures
            final(self).wf(),
            final(self)@ == (StateV {
                tasks: disable_batch(old(self)@.tasks, slugs.deep_view(), old(self)@.today).0,
                ..old(self)@
            }),
            r is Ok <==> disable_batch(old(self)@.tasks, slugs.deep_view(), old(self)@.today).1
                is None,
            r matches Err(e) ==> (e matches RanddGoalsError::TaskNotFound { slug: s }
                && disable_batch(old(self)@.tasks, slugs.deep_view(), old(self)@.today).1 == Some(
                s@,
            )),
    {
        self.disable_tasks_as(slugs, crate::task_config::DisabledOptions::Disabled)
    }

    /// Disables each listed task with the chosen suppression, failing fast
    /// at the first unknown slug and keeping the disables already applied.
    pub fn disable_tasks_as(
        &mut self,
        slugs: &Vec<String>,
        how: crate::task_config::DisabledOptions,
    ) -> (r: Result<(), RanddGoalsError>)
        requires
            old(self).wf(),
        ensures
            final(self).wf(),
            final(self)@ == (StateV {
                tasks: disable_batch_as(
                    old(self)@.tasks,
                    slugs.deep_view(),
                    old(self)@.today,
                    how,
                ).0,
                ..old(self)@
            }),
            r is Ok <==> disable_batch_as(
                old(self)@.tasks,
                slugs.deep_view(),
                old(self)@.today,
                how,
            ).1 is None,
            r matches Err(e) ==> (e matches RanddGoalsError::TaskNotFound { slug: s }
                && disable_batch_as(
                old(self)@.tasks,
                slugs.deep_view(),
                old(self)@.today,
                how,
            ).1 == Some(s@)),
    {
        let ghost slugsv = slugs.deep_view();
        let ghost today = self@.today;
        let n = slugs.len();
        let mut k: usize = 0;
        proof {
            assert(slugsv.skip(0) =~= slugsv);
        }
        while k < n
            invariant
                0 <= k <= n,
                n == slugs@.len(),
                slugsv == slugs.deep_view(),
                today == old(self)@.today,
                self.wf(),
                disable_batch_as(self@.tasks, slugsv.skip(k as int), today, how)
                    == disable_batch_as(old(self)@.tasks, slugsv, today, how),
                self@ == (StateV { tasks: self@.tasks, ..old(self)@ }),
            decreases n - k,
        {
            proof {
                assert(slugsv.skip(k as int)[0] == slugsv[k as int]);
                assert(slugsv.skip(k as int).skip(1) =~= slugsv.skip(k as int + 1));
                assert(slugs@[k as int]@ == slugsv[k as int]);
            }
            match self.disable_task_as(slugs[k].as_str(), how) {
                Ok(_) => {},
                Err(e) => {
                    return Err(e);
                },
            }
            k = k + 1;
        }
        proof {
            assert(slugsv.skip(n as int) =~= Seq::<Seq<char>>::empty());
        }
        Ok(())
    }

    /// Removes each listed task, failing fast at the first unknown slug and
    /// keeping the removals already applied.
    pub fn remove_tasks(&mut self, slugs: &Vec<String>) -> (r: Result<(), RanddGoalsError>)
        requires
            old(self).wf(),
        ensures
            final(self).wf(),
            final(self)@ == (StateV {
                tasks: remove_batch(old(self)@.tasks, slugs.deep_view()).0,
                ..old(self)@
            }),
            r is Ok <==> remove_batch(old(self)@.tasks, slugs.deep_view()).1 is None,
            r matches Err(e) ==> (e matches RanddGoalsError::TaskNotFound { slug: s }
                && remove_batch(old(self)@.tasks, slugs.deep_view()).1 == Some(s@)),
    {
        let ghost slugsv = slugs.deep_view();
        let n = slugs.len();
        let mut k: usize = 0;
        proof {
            assert(slugsv.skip(0) =~= slugsv);
        }
        while k < n
            invariant
                0 <= k <= n,
                n == slugs@.len(),
                slugsv == slugs.deep_view(),
                self.wf(),
                remove_batch(self@.tasks, slugsv.skip(k as int)) == remove_batch(
                    old(self)@.tasks,
                    slugsv,
                ),
                self@ == (StateV { tasks: self@.tasks, ..old(self)@ }),
            decreases n - k,
        {
            proof {
                assert(slugsv.skip(k as int)[0] == slugsv[k as int]);
                assert(slugsv.skip(k as int).skip(1) =~= slugsv.skip(k as int + 1));
                assert(slugs@[k as int]@ == slugsv[k as int]);
            }
            match self.remove_task(slugs[k].as_str()) {
                Ok(_) => {},
                Err(e) => {
                    return Err(e);
                },
            }
            k = k + 1;
        }
        proof {
            assert(slugsv.skip(n as int) =~= Seq::<Seq<char>>::empty());
        }
        Ok(())
    }

    /// Adds each definition, failing fast at the first slug already taken
    /// and keeping the additions already applied.
    pub fn add_tasks(&mut self, tasks: Vec<TaskConfig>) -> (r: Result<(), RanddGoalsError>)
        requires
            old(self).wf(),
        ensures
            final(self).wf(),
            final(self)@ == (StateV {
                tasks: add_batch(old(self)@.tasks, crate::config::configs_view(tasks@)).0,
                ..old(self)@
            }),
            r is Ok <==> add_batch(old(self)@.tasks, crate::config::configs_view(tasks@)).1
                is None,
            r matches Err(e) ==> (e matches RanddGoalsError::TaskAlreadyExists { slug: s }
                && add_batch(old(self)@.tasks, crate::config::configs_view(tasks@)).1 == Some(s@)),
    {
        let ghost cfgsv = crate::config::configs_view(tasks@);
        let n = tasks.len();
        let mut k: usize = 0;
        proof {
            assert(cfgsv.skip(0) =~= cfgsv);
        }
        while k < n
            invariant
                0 <= k <= n,
                n == tasks@.len(),
                cfgsv == crate::config::configs_view(tasks@),
                self.wf(),
                add_batch(self@.tasks, cfgsv.skip(k as int)) == add_batch(
                    old(self)@.tasks,
                    cfgsv,
                ),
                self@ == (StateV { tasks: self@.tasks, ..old(self)@ }),
            decreases n - k,
        {
            proof {
                assert(cfgsv.skip(k as int)[0] == cfgsv[k as int]);
                assert(cfgsv.skip(k as int).skip(1) =~= cfgsv.skip(k as int + 1));
                assert(tasks@[k as int]@ == cfgsv[k as int]);
            }
            let cfg = tasks[k].clone();
            match self.add_task(cfg) {
                Ok(_) => {},
                Err(e) => {
                    return Err(e);
                },
            }
            k = k + 1;
        }
        proof {
            assert(cfgsv.skip(n as int) =~= Seq::<TaskConfigV>::empty());
        }
        Ok(())
    }

    /// Updates each definition, failing fast at the first unknown slug and
    /// keeping the updates already applied.
    pub fn update_tasks(&mut self, tasks: Vec<TaskConfig>) -> (r: Result<(), RanddGoalsError>)
        requires
            old(self).wf(),
        ensures
            final(self).wf(),
            final(self)@ == (StateV {
                tasks: update_batch(old(self)@.tasks, crate::config::configs_view(tasks@)).0,
                ..old(self)@
            }),
            r is Ok <==> update_batch(old(self)@.tasks, crate::config::configs_view(tasks@)).1
                is None,
            r matches Err(e) ==> (e matches RanddGoalsError::TaskNotFound { slug: s }
                && update_batch(old(self)@.tasks, crate::config::configs_view(tasks@)).1 == Some(
                s@,
            )),
    {
        let ghost cfgsv = crate::config::configs_view(tasks@);
        let n = tasks.len();
        let mut k: usize = 0;
        proof {
            assert(cfgsv.skip(0) =~= cfgsv);
        }
        while k < n
            invariant
                0 <= k <= n,
                n == tasks@.len(),
                cfgsv == crate::config::configs_view(tasks@),
                self.wf(),
                update_batch(self@.tasks, cfgsv.skip(k as int)) == update_batch(
                    old(self)@.tasks,
                    cfgsv,
                ),
                self@ == (StateV { tasks: self@.tasks, ..old(self)@ }),
            decreases n - k,
        {
            proof {
                assert(cfgsv.skip(k as int)[0] == cfgsv[k as int]);
                assert(cfgsv.skip(k as int).skip(1) =~= cfgsv.skip(k as int + 1));
                assert(tasks@[k as int]@ == cfgsv[k as int]);
            }
            let cfg = tasks[k].clone();
            match self.update_task(cfg) {
                Ok(_) => {},
                Err(e) => {
                    return Err(e);
                },
            }
            k = k + 1;
        }
        proof {
            assert(cfgsv.skip(n as int) =~= Seq::<TaskConfigV>::empty());
        }
        Ok(())
    }

    /// Upserts each definition; never fails.
    pub fn upsert_tasks(&mut self, tasks: Vec<TaskConfig>)
        requires
            old(self).wf(),
        ensures
            final(self).wf(),
            final(self)@ == (StateV {
                tasks: upsert_batch(old(self)@.tasks, crate::config::configs_view(tasks@)),
                ..old(self)@
            }),
    {
        let ghost cfgsv = crate::config::configs_view(tasks@);
        let n = tasks.len();
        let mut k: usize = 0;
        proof {
            assert(cfgsv.skip(0) =~= cfgsv);
        }
        while k < n
            invariant
                0 <= k <= n,
                n == tasks@.len(),
                cfgsv == crate::config::configs_view(tasks@),
                self.wf(),
                upsert_batch(self@.tasks, cfgsv.skip(k as int)) == upsert_batch(
                    old(self)@.tasks,
                    cfgsv,
                ),
                self@ == (StateV { tasks: self@.tasks, ..old(self)@ }),
            decreases n - k,
        {
            proof {
                assert(cfgsv.skip(k as int)[0] == cfgsv[k as int]);
                assert(cfgsv.skip(k as int).skip(1) =~= cfgsv.skip(k as int + 1));
                assert(tasks@[k as int]@ == cfgsv[k as int]);
            }
            let cfg = tasks[k].clone();
            self.upsert_task(cfg);
            k = k + 1;
        }
        proof {
            assert(cfgsv.skip(n as int) =~= Seq::<TaskConfigV>::empty());
        }
    }
}


/// The total cost of today's set: the spoons of each slug that resolves to
/// a live task; slugs that do not resolve cost nothing.
pub open spec fn spec_current_spoons(ts: Seq<TaskV>, todays: Seq<Seq<char>>) -> int
    decreases todays.len(),
{
    if todays.len() == 0 {
        0
    } else {
        (if tasks_have_slug(ts, todays[0]) {
            ts[task_index_of(ts, todays[0])].config.spoons as int
        } else {
            0
        }) + spec_current_spoons(ts, todays.skip(1))
    }
}

impl State {
    /// The slugs of the live map, in catalog order.
    pub fn task_names(&self) -> (r: Vec<String>)
        ensures
            r.deep_view() == self@.tasks.map_values(|t: TaskV| t.config.slug),
    {
        let n = self.tasks.len();
        let mut r: Vec<String> = Vec::new();
        let mut i: usize = 0;
        while i < n
            invariant
                0 <= i <= n,
                n == self.tasks@.len(),
                r.deep_view() =~= self@.tasks.take(i as int).map_values(
                    |t: TaskV| t.config.slug,
                ),
            decreases n - i,
        {
            let ghost pre = r.deep_view();
            r.push(self.tasks[i].config.slug.clone());
            proof {
                assert(self@.tasks[i as int] == self.tasks@[i as int]@);
                assert(r.deep_view() =~= pre.push(self@.tasks[i as int].config.slug));
                assert(self@.tasks.take(i + 1).map_values(|t: TaskV| t.config.slug)
                    =~= self@.tasks.take(i as int).map_values(|t: TaskV| t.config.slug).push(
                    self@.tasks[i as int].config.slug,
                ));
            }
            i = i + 1;
        }
        proof {
            assert(self@.tasks.take(n as int) =~= self@.tasks);
        }
        r
    }

    /// The live tasks.
    pub fn tasks(&self) -> (r: &Vec<Task>)
        ensures
            r@.map_values(|t: Task| t@) == self@.tasks,
    {
        &self.tasks
    }

    /// Today's set of slugs.
    pub fn todays_tasks(&self) -> (r: &TaskSet)
        ensures
            r@ == self@.todays_tasks,
    {
        &self.todays_tasks
    }

    /// Empties today's set.
    pub fn clear_todays_tasks(&mut self)
        requires
            old(self).wf(),
        ensures
            final(self).wf(),
            final(self)@ == (StateV { todays_tasks: Seq::empty(), ..old(self)@ }),
    {
        self.todays_tasks.clear();
        proof {
            assert(self@.todays_tasks =~= Seq::<Seq<char>>::empty());
        }
    }

    /// Removes one slug from today's set; reports whether it was there.
    pub fn remove_todays_task(&mut self, slug: &str) -> (r: bool)
        requires
            old(self).wf(),
        ensures
            final(self).wf(),
            r == old(self).todays_tasks.spec_contains(slug@),
            final(self)@.todays_tasks == crate::task_set::remove_slug(
                old(self)@.todays_tasks,
                slug@,
            ),
            final(self)@.tasks == old(self)@.tasks,
            final(self)@.last_generated == old(self)@.last_generated,
            final(self)@.cut_off == old(self)@.cut_off,
            final(self)@.limit_by == old(self)@.limit_by,
            final(self)@.today == old(self)@.today,
            forall|x: Seq<char>|
                final(self).todays_tasks.spec_contains(x) <==> old(self).todays_tasks.spec_contains(
                    x,
                ) && x != slug@,
    {
        self.todays_tasks.remove(slug)
    }

    /// Inserts one slug into today's set.
    pub fn insert_todays_task(&mut self, slug: String)
        requires
            old(self).wf(),
        ensures
            final(self).wf(),
            final(self)@.tasks == old(self)@.tasks,
            final(self)@.last_generated == old(self)@.last_generated,
            final(self)@.cut_off == old(self)@.cut_off,
            final(self)@.limit_by == old(self)@.limit_by,
            final(self)@.today == old(self)@.today,
            forall|x: Seq<char>|
                final(self).todays_tasks.spec_contains(x) <==> old(self).todays_tasks.spec_contains(
                    x,
                ) || x == slug@,
            final(self)@.todays_tasks.len() == old(self)@.todays_tasks.len() + (if old(
                self,
            ).todays_tasks.spec_contains(slug@) {
                0int
            } else {
                1int
            }),
    {
        self.todays_tasks.insert(slug);
    }

    /// The last pick instant.
    pub fn last_generated(&self) -> (r: Timestamp)
        ensures
            r == self@.last_generated,
    {
        self.last_generated
    }

    /// The effective day of the last pick instant, under the configured
    /// cut-off.
    pub fn last_generated_date(&self) -> (r: Day)
        requires
            self.wf(),
        ensures
            r == spec_day_with_cutoff(self@.last_generated, self@.cut_off),
    {
        dt_with_cutoff(self.last_generated, self.cut_off)
    }

    /// Stamps the last pick instant.
    pub fn mark_generated(&mut self, now: Timestamp)
        requires
            old(self).wf(),
            now.wf(),
        ensures
            final(self).wf(),
            final(self)@ == (StateV { last_generated: now, ..old(self)@ }),
    {
        self.last_generated = now;
    }

    /// The configured cut-off, in seconds since midnight.
    pub fn cut_off(&self) -> (r: u32)
        ensures
            r == self@.cut_off,
    {
        self.cut_off
    }

    /// The configured selection policy.
    pub fn limit_by(&self) -> (r: LimitTasksBy)
        ensures
            r == self@.limit_by,
    {
        self.limit_by
    }

    /// The effective day, memoized at construction.
    pub fn todays_date(&self) -> (r: Day)
        ensures
            r == self@.today,
    {
        self.today
    }

    /// How many days before the effective day a date lies; negative for a
    /// future date.
    pub fn days_since_today(&self, date: Day) -> (r: i64)
        ensures
            r == self@.today - date,
    {
        (self.today as i64) - (date as i64)
    }

    /// The total cost of today's set.
    pub fn current_spoons(&self) -> (r: u128)
        requires
            self.wf(),
        ensures
            r == spec_current_spoons(self@.tasks, self@.todays_tasks),
    {
        let ghost todays = self@.todays_tasks;
        let n = self.todays_tasks.len();
        let mut total: u128 = 0;
        let mut i: usize = 0;
        proof {
            assert(todays.skip(0) =~= todays);
        }
        while i < n
            invariant
                0 <= i <= n,
                n == self@.todays_tasks.len(),
                todays == self@.todays_tasks,
                self.wf(),
                total <= i * 65535,
                total + spec_current_spoons(self@.tasks, todays.skip(i as int))
                    == spec_current_spoons(self@.tasks, todays),
            decreases n - i,
        {
            let slug = self.todays_tasks.index(i).clone();
            proof {
                assert(slug@ == todays[i as int]);
                assert(todays.skip(i as int)[0] == todays[i as int]);
                assert(todays.skip(i as int).skip(1) =~= todays.skip(i as int + 1));
            }
            match self.find_index(slug.as_str()) {
                Some(j) => {
                    total = total + (self.tasks[j].config.spoons as u128);
                },
                None => {},
            }
            i = i + 1;
        }
        proof {
            assert(todays.skip(n as int) =~= Seq::<Seq<char>>::empty());
        }
        total
    }
}

} // verus!
