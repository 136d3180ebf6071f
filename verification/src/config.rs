//! The persisted configuration document: the task catalog and the selection
//! policy.

use vstd::prelude::*;
use crate::{Day, SECS_PER_DAY};
use crate::dates::{Timestamp, dt_with_cutoff, spec_day_with_cutoff};
use crate::error::RanddGoalsError;
use crate::task_config::{TaskConfig, TaskConfigV};

verus! {

/// Default daily cut-off time: 04:00, in seconds since midnight.
pub const DEFAULT_CUT_OFF: u32 = 14400;

/// How the number of tasks drawn per day is limited.
#[derive(Debug, Clone, Copy, PartialEq, Eq, Structural)]
pub enum LimitTasksBy {
    /// Draw until today's set holds this many tasks.
    Tasks { tasks: usize },
    /// Draw until the cost of today's set reaches this budget.
    Spoons { spoons: u16 },
}

/// The views of a catalog's task definitions.
pub open spec fn configs_view(tasks: Seq<TaskConfig>) -> Seq<TaskConfigV> {
    tasks.map_values(|c: TaskConfig| c@)
}

/// Whether a catalog holds a definition with the given slug.
pub open spec fn has_cfg_slug(cfgs: Seq<TaskConfigV>, slug: Seq<char>) -> bool {
    exists|i: int| 0 <= i < cfgs.len() && cfgs[i].slug == slug
}

/// The first definition in the catalog carrying the given slug.
pub open spec fn first_cfg_for(cfgs: Seq<TaskConfigV>, slug: Seq<char>) -> TaskConfigV
    decreases cfgs.len(),
{
    if cfgs.len() == 0 {
        arbitrary()
    } else if cfgs[0].slug == slug {
        cfgs[0]
    } else {
        first_cfg_for(cfgs.skip(1), slug)
    }
}

/// The catalog with the first definition of the given slug removed.
pub open spec fn remove_first_cfg(cfgs: Seq<TaskConfigV>, slug: Seq<char>) -> Seq<TaskConfigV>
    decreases cfgs.len(),
{
    if cfgs.len() == 0 {
        cfgs
    } else if cfgs[0].slug == slug {
        cfgs.skip(1)
    } else {
        seq![cfgs[0]] + remove_first_cfg(cfgs.skip(1), slug)
    }
}

/// The mathematical content of the configuration document.
pub struct ConfigV {
    pub tasks: Seq<TaskConfigV>,
    pub cut_off: u32,
    pub limit_by: LimitTasksBy,
}

/// The configuration document: the task catalog, the daily cut-off time
/// (seconds since midnight) and the selection policy.
#[derive(Debug)]
pub struct Config {
    pub tasks: Vec<TaskConfig>,
    pub cut_off: u32,
    pub limit_by: LimitTasksBy,
}

impl View for Config {
    type V = ConfigV;

    open spec fn view(&self) -> ConfigV {
        ConfigV {
            tasks: configs_view(self.tasks@),
            cut_off: self.cut_off,
            limit_by: self.limit_by,
        }
    }
}

impl Default for Config {
    /// An empty catalog with the default cut-off, drawing one task per day.
    fn default() -> (r: Config)
        ensures
            r@.tasks.len() == 0,
            r@.cut_off == DEFAULT_CUT_OFF,
            r@.limit_by == (LimitTasksBy::Tasks { tasks: 1 }),
            r.wf(),
    {
        Config {
            tasks: Vec::new(),
            cut_off: DEFAULT_CUT_OFF,
            limit_by: LimitTasksBy::Tasks { tasks: 1 },
        }
    }
}

impl Config {
    /// The cut-off must name a time of day.
    pub open spec fn wf(&self) -> bool {
        self.cut_off < SECS_PER_DAY
    }

    /// Whether the catalog holds a definition with this slug.
    pub fn contains_task(&self, slug: &str) -> (r: bool)
        ensures
            r == has_cfg_slug(self@.tasks, slug@),
    {
        let n = self.tasks.len();
        let mut i: usize = 0;
        while i < n
            invariant
                0 <= i <= n,
                n == self@.tasks.len(),
                forall|j: int| 0 <= j < i ==> (#[trigger] self@.tasks[j]).slug != slug@,
            decreases n - i,
        {
            if crate::strings::cmp_str(self.tasks[i].slug.as_str(), slug) == 0 {
                proof {
                    assert(self@.tasks[i as int].slug == slug@);
                }
                return true;
            }
            i = i + 1;
        }
        false
    }

    /// The first definition with this slug, if any.
    pub fn get_task(&self, slug: &str) -> (r: Option<&TaskConfig>)
        ensures
            r is Some <==> has_cfg_slug(self@.tasks, slug@),
            r matches Some(c) ==> c@ == first_cfg_for(self@.tasks, slug@) && c@.slug == slug@,
    {
        let n = self.tasks.len();
        let mut i: usize = 0;
        while i < n
            invariant
                0 <= i <= n,
                n == self@.tasks.len(),
                forall|j: int| 0 <= j < i ==> (#[trigger] self@.tasks[j]).slug != slug@,
            decreases n - i,
        {
            if crate::strings::cmp_str(self.tasks[i].slug.as_str(), slug) == 0 {
                proof {
                    assert(self@.tasks[i as int].slug == slug@);
                    lemma_first_cfg_at(self@.tasks, slug@, i as int);
                }
                return Some(&self.tasks[i]);
            }
            i = i + 1;
        }
        None
    }

    /// Adds a definition; refuses a slug that is already present, leaving
    /// the catalog unchanged.
    pub fn add_task(&mut self, task: TaskConfig) -> (r: Result<(), RanddGoalsError>)
        ensures
            r is Ok <==> !has_cfg_slug(old(self)@.tasks, task@.slug),
            r is Ok ==> final(self)@ == (ConfigV {
                tasks: old(self)@.tasks.push(task@),
                ..old(self)@
            }),
            r matches Err(e) ==> *final(self) == *old(self) && (e matches
                RanddGoalsError::TaskAlreadyExists { slug } && slug@ == task@.slug),
    {
        if self.contains_task(task.slug.as_str()) {
            let slug = task.slug.clone();
            Err(RanddGoalsError::TaskAlreadyExists { slug })
        } else {
            let ghost pre = self@.tasks;
            self.tasks.push(task);
            proof {
                assert(self@.tasks =~= pre.push(self.tasks@.last()@));
            }
            Ok(())
        }
    }

    /// The slugs of the catalog, in catalog order.
    pub fn task_slugs(&self) -> (r: Vec<String>)
        ensures
            r.deep_view() =~= self@.tasks.map_values(|c: TaskConfigV| c.slug),
    {
        let n = self.tasks.len();
        let mut r: Vec<String> = Vec::new();
        let mut i: usize = 0;
        while i < n
            invariant
                0 <= i <= n,
                n == self@.tasks.len(),
                r.deep_view() =~= self@.tasks.take(i as int).map_values(|c: TaskConfigV| c.slug),
            decreases n - i,
        {
            r.push(self.tasks[i].slug.clone());
            proof {
                assert(self@.tasks.take(i + 1).map_values(|c: TaskConfigV| c.slug)
                    =~= self@.tasks.take(i as int).map_values(|c: TaskConfigV| c.slug).push(
                    self@.tasks[i as int].slug,
                ));
            }
            i = i + 1;
        }
        proof {
            assert(self@.tasks.take(n as int) =~= self@.tasks);
        }
        r
    }

    /// Removes the first definition with this slug, if present.
    pub fn remove_task(&mut self, slug: &str)
        ensures
            final(self)@ == (ConfigV {
                tasks: remove_first_cfg(old(self)@.tasks, slug@),
                ..old(self)@
            }),
    {
        let n = self.tasks.len();
        let mut i: usize = 0;
        while i < n
            invariant
                0 <= i <= n,
                n == self@.tasks.len(),
                forall|j: int| 0 <= j < i ==> (#[trigger] self@.tasks[j]).slug != slug@,
                self == old(self),
            decreases n - i,
        {
            if crate::strings::cmp_str(self.tasks[i].slug.as_str(), slug) == 0 {
                proof {
                    assert(self@.tasks[i as int].slug == slug@);
                }
                let ghost pre = self@.tasks;
                self.tasks.remove(i);
                proof {
                    assert(self@.tasks =~= pre.remove(i as int));
                    lemma_remove_first_cfg_at(pre, slug@, i as int);
                }
                return ;
            }
            i = i + 1;
        }
        proof {
            lemma_remove_first_cfg_absent(self@.tasks, slug@);
        }
    }

    /// The effective day of the given instant under this configuration's
    /// cut-off.
    pub fn today(&self, now: Timestamp) -> (r: Day)
        requires
            self.wf(),
            now.wf(),
        ensures
            r == spec_day_with_cutoff(now, self@.cut_off),
    {
        dt_with_cutoff(now, self.cut_off)
    }
}

/// When position `i` holds the first occurrence of `slug`, it is what
/// `first_cfg_for` finds.
proof fn lemma_first_cfg_at(cfgs: Seq<TaskConfigV>, slug: Seq<char>, i: int)
    requires
        0 <= i < cfgs.len(),
        cfgs[i].slug == slug,
        forall|j: int| 0 <= j < i ==> (#[trigger] cfgs[j]).slug != slug,
    ensures
        first_cfg_for(cfgs, slug) == cfgs[i],
    decreases i,
{
    if i > 0 {
        lemma_first_cfg_at(cfgs.skip(1), slug, i - 1);
    }
}

/// When position `i` holds the first occurrence of `slug`, removing the
/// first occurrence removes exactly that position.
proof fn lemma_remove_first_cfg_at(cfgs: Seq<TaskConfigV>, slug: Seq<char>, i: int)
    requires
        0 <= i < cfgs.len(),
        cfgs[i].slug == slug,
        forall|j: int| 0 <= j < i ==> (#[trigger] cfgs[j]).slug != slug,
    ensures
        remove_first_cfg(cfgs, slug) =~= cfgs.remove(i),
    decreases i,
{
    if i > 0 {
        lemma_remove_first_cfg_at(cfgs.skip(1), slug, i - 1);
        assert(cfgs.skip(1).remove(i - 1) =~= cfgs.remove(i).skip(1));
        assert(remove_first_cfg(cfgs, slug) =~= seq![cfgs[0]] + remove_first_cfg(
            cfgs.skip(1),
            slug,
        ));
    }
}

/// Removing a slug that is not present changes nothing.
proof fn lemma_remove_first_cfg_absent(cfgs: Seq<TaskConfigV>, slug: Seq<char>)
    requires
        forall|j: int| 0 <= j < cfgs.len() ==> (#[trigger] cfgs[j]).slug != slug,
    ensures
        remove_first_cfg(cfgs, slug) =~= cfgs,
    decreases cfgs.len(),
{
    if cfgs.len() > 0 {
        lemma_remove_first_cfg_absent(cfgs.skip(1), slug);
    }
}

} // verus!
