//! Task definitions: identity, weight, tags, and eligibility settings.

use vstd::prelude::*;
use crate::Day;
use crate::error::RanddGoalsError;

verus! {

/// Default relative selection weight, in thousandths (1.000).
pub const DEFAULT_WEIGHT: u64 = 1000;

/// Default cost of a task in the budget selection policy.
pub const DEFAULT_SPOONS: u16 = 3;

/// How a task is suppressed from selection, if at all.
#[derive(Debug, Clone, Copy, PartialEq, Eq, Structural)]
pub enum DisabledOptions {
    /// Disabled for this many days, counted from the recorded disable date.
    For(u32),
    /// Disabled through the given day, inclusive.
    Until(Day),
    /// Disabled outright.
    Disabled,
    /// Not suppressed.
    Enabled,
}

impl Default for DisabledOptions {
    fn default() -> (r: DisabledOptions)
        ensures
            r == DisabledOptions::Enabled,
    {
        DisabledOptions::Enabled
    }
}

/// The mathematical content of a task definition.
pub struct TaskConfigV {
    pub slug: Seq<char>,
    pub task: Seq<char>,
    pub description: Option<Seq<char>>,
    pub max_occurrences: Option<u32>,
    pub min_frequency: Option<u32>,
    pub weight: u64,
    pub spoons: u16,
    pub disabled: DisabledOptions,
    pub tags: Seq<Seq<char>>,
}

/// A task definition: stable identity plus configured behaviour.
///
/// The slug is computed once, at construction, and none of the library's
/// operations ever changes it afterwards.
#[derive(Debug)]
pub struct TaskConfig {
    /// Stable identifier; unique within a catalog.
    pub slug: String,
    /// Human-readable title.
    pub task: String,
    /// Optional free text.
    pub description: Option<String>,
    /// The task becomes permanently ineligible after this many completions.
    pub max_occurrences: Option<u32>,
    /// Minimum days since the last selection before the task is eligible again.
    pub min_frequency: Option<u32>,
    /// Relative selection probability, in thousandths.
    pub weight: u64,
    /// Cost of the task under the budget selection policy.
    pub spoons: u16,
    /// Whether and how the task is suppressed.
    pub disabled: DisabledOptions,
    /// Labels, deduplicated when definitions are merged.
    pub tags: Vec<String>,
}

impl View for TaskConfig {
    type V = TaskConfigV;

    open spec fn view(&self) -> TaskConfigV {
        TaskConfigV {
            slug: self.slug@,
            task: self.task@,
            description: match self.description {
                Some(d) => Some(d@),
                None => None,
            },
            max_occurrences: self.max_occurrences,
            min_frequency: self.min_frequency,
            weight: self.weight,
            spoons: self.spoons,
            disabled: self.disabled,
            tags: self.tags.deep_view(),
        }
    }
}

/// The name of what `slug::slugify` computes from a title.
pub uninterp spec fn slug_of(s: Seq<char>) -> Seq<char>;

/// Relies on slug::slugify: the result is computed from the characters of the
/// input alone (ASCII lower-case letters, digits and single hyphens, with no
/// leading or trailing hyphen), and an empty input yields an empty slug.
#[verifier::external_body]
fn slugify(s: &str) -> (r: String)
    ensures
        r@ == slug_of(s@),
        s@.len() == 0 ==> r@.len() == 0,
{
    slug::slugify(s)
}

/// Clones a vector of strings, character for character.
pub fn clone_string_vec(v: &Vec<String>) -> (r: Vec<String>)
    ensures
        r.deep_view() == v.deep_view(),
{
    let r = v.clone();
    proof {
        assert(r.deep_view() =~= v.deep_view());
    }
    r
}

/// Clones an optional string, character for character.
pub fn clone_opt_string(v: &Option<String>) -> (r: Option<String>)
    ensures
        (match r {
            Some(s) => old_opt_view(v) == Some(s@),
            None => old_opt_view(v) is None,
        }),
{
    match v {
        Some(s) => Some(s.clone()),
        None => None,
    }
}

/// The view of an optional string.
pub open spec fn old_opt_view(v: &Option<String>) -> Option<Seq<char>> {
    match v {
        Some(s) => Some(s@),
        None => None,
    }
}

/// Whether a vector of strings holds one with the given characters.
pub fn vec_contains_str(v: &Vec<String>, s: &str) -> (r: bool)
    ensures
        r == v.deep_view().contains(s@),
{
    let n = v.len();
    let mut i: usize = 0;
    while i < n
        invariant
            0 <= i <= n,
            n == v@.len(),
            forall|j: int| 0 <= j < i ==> v.deep_view()[j] != s@,
        decreases n - i,
    {
        if crate::strings::cmp_str(v[i].as_str(), s) == 0 {
            proof {
                assert(v.deep_view()[i as int] == s@);
            }
            return true;
        }
        i = i + 1;
    }
    proof {
        if v.deep_view().contains(s@) {
            let j = choose|j: int| 0 <= j < v.deep_view().len() && v.deep_view()[j] == s@;
            assert(v.deep_view()[j] != s@);
        }
    }
    false
}

/// Tags of `inc` that are not yet in `base`, appended in order.
pub open spec fn union_tags(base: Seq<Seq<char>>, inc: Seq<Seq<char>>) -> Seq<Seq<char>>
    decreases inc.len(),
{
    if inc.len() == 0 {
        base
    } else {
        union_tags(
            if base.contains(inc[0]) {
                base
            } else {
                base.push(inc[0])
            },
            inc.skip(1),
        )
    }
}

/// A merge: fields of `other` that differ from their defaults override those
/// of `base`; tags are unioned; the slug is never altered.
pub open spec fn spec_merge(base: TaskConfigV, other: TaskConfigV) -> TaskConfigV {
    TaskConfigV {
        slug: base.slug,
        task: if other.task.len() > 0 {
            other.task
        } else {
            base.task
        },
        description: match other.description {
            Some(d) => if d.len() > 0 {
                Some(d)
            } else {
                base.description
            },
            None => base.description,
        },
        weight: if other.weight != DEFAULT_WEIGHT {
            other.weight
        } else {
            base.weight
        },
        spoons: if other.spoons != DEFAULT_SPOONS {
            other.spoons
        } else {
            base.spoons
        },
        min_frequency: match other.min_frequency {
            Some(f) => if f != 0 {
                Some(f)
            } else {
                base.min_frequency
            },
            None => base.min_frequency,
        },
        max_occurrences: match other.max_occurrences {
            Some(m) => if m != 0 {
                Some(m)
            } else {
                base.max_occurrences
            },
            None => base.max_occurrences,
        },
        disabled: if other.disabled != DisabledOptions::Enabled {
            other.disabled
        } else {
            base.disabled
        },
        tags: union_tags(base.tags, other.tags),
    }
}

impl Clone for TaskConfig {
    /// A clone carries the same characters and settings.
    fn clone(&self) -> (r: TaskConfig)
        ensures
            r@ == self@,
    {
        TaskConfig {
            slug: self.slug.clone(),
            task: self.task.clone(),
            description: clone_opt_string(&self.description),
            max_occurrences: self.max_occurrences,
            min_frequency: self.min_frequency,
            weight: self.weight,
            spoons: self.spoons,
            disabled: self.disabled,
            tags: clone_string_vec(&self.tags),
        }
    }
}

impl TaskConfig {
    /// The task's stable identifier.
    pub fn slug(&self) -> (r: &str)
        ensures
            r@ == self@.slug,
    {
        self.slug.as_str()
    }

    /// Lifts the simple suppression.
    pub fn enable(&mut self)
        ensures
            final(self)@ == (TaskConfigV { disabled: DisabledOptions::Enabled, ..old(self)@ }),
    {
        self.disabled = DisabledOptions::Enabled;
    }

    /// Imposes the simple suppression.
    pub fn disable(&mut self)
        ensures
            final(self)@ == (TaskConfigV { disabled: DisabledOptions::Disabled, ..old(self)@ }),
    {
        self.disabled = DisabledOptions::Disabled;
    }

    /// Overrides this definition with the non-default fields of `other`;
    /// tags are unioned and the slug is kept.
    pub fn merge(&mut self, other: TaskConfig)
        ensures
            final(self)@ == spec_merge(old(self)@, other@),
    {
        let ghost target = spec_merge(old(self)@, other@);
        if !other.task.as_str().is_empty() {
            self.task = other.task;
        }
        if let Some(description) = other.description {
            if !description.as_str().is_empty() {
                self.description = Some(description);
            }
        }
        if other.weight != DEFAULT_WEIGHT {
            self.weight = other.weight;
        }
        if other.spoons != DEFAULT_SPOONS {
            self.spoons = other.spoons;
        }
        if let Some(f) = other.min_frequency {
            if f != 0 {
                self.min_frequency = Some(f);
            }
        }
        if let Some(m) = other.max_occurrences {
            if m != 0 {
                self.max_occurrences = Some(m);
            }
        }
        if other.disabled != DisabledOptions::Enabled {
            self.disabled = other.disabled;
        }
        let ghost inc = other.tags.deep_view();
        proof {
            assert(self@ == (TaskConfigV { tags: self@.tags, ..target }));
            assert(union_tags(self@.tags, inc.skip(0)) == target.tags) by {
                assert(inc.skip(0) =~= inc);
            }
        }
        let n = other.tags.len();
        let mut k: usize = 0;
        while k < n
            invariant
                0 <= k <= n,
                n == inc.len(),
                n == other.tags@.len(),
                inc == other.tags.deep_view(),
                union_tags(self@.tags, inc.skip(k as int)) == target.tags,
                self@ == (TaskConfigV { tags: self@.tags, ..target }),
            decreases n - k,
        {
            let tag = other.tags[k].clone();
            proof {
                assert(tag@ == inc[k as int]);
            }
            let ghost before = self@.tags;
            if !vec_contains_str(&self.tags, tag.as_str()) {
                self.tags.push(tag);
                proof {
                    assert(self@.tags =~= before.push(inc[k as int]));
                }
            }
            proof {
                assert(inc.skip(k as int).skip(1) =~= inc.skip(k as int + 1));
                assert(inc.skip(k as int)[0] == inc[k as int]);
            }
            k = k + 1;
        }
        proof {
            assert(inc.skip(n as int) =~= Seq::<Seq<char>>::empty());
            assert(union_tags(self@.tags, inc.skip(n as int)) == self@.tags);
        }
    }
}


/// The mathematical content of a partially specified task definition.
pub struct TaskBuilderV {
    pub slug: Option<Seq<char>>,
    pub task: Option<Seq<char>>,
    pub description: Option<Option<Seq<char>>>,
    pub max_occurrences: Option<Option<u32>>,
    pub min_frequency: Option<Option<u32>>,
    pub weight: Option<u64>,
    pub spoons: Option<u16>,
    pub disabled: Option<DisabledOptions>,
    pub tags: Option<Seq<Seq<char>>>,
}

/// A partially specified task definition: unset fields fall back to their
/// defaults on build, or leave the target untouched on update.
#[derive(Debug)]
pub struct TaskBuilder {
    pub slug: Option<String>,
    pub task: Option<String>,
    pub description: Option<Option<String>>,
    pub max_occurrences: Option<Option<u32>>,
    pub min_frequency: Option<Option<u32>>,
    pub weight: Option<u64>,
    pub spoons: Option<u16>,
    pub disabled: Option<DisabledOptions>,
    pub tags: Option<Vec<String>>,
}

impl View for TaskBuilder {
    type V = TaskBuilderV;

    open spec fn view(&self) -> TaskBuilderV {
        TaskBuilderV {
            slug: match self.slug {
                Some(s) => Some(s@),
                None => None,
            },
            task: match self.task {
                Some(t) => Some(t@),
                None => None,
            },
            description: match self.description {
                Some(d) => Some(old_opt_view(&d)),
                None => None,
            },
            max_occurrences: self.max_occurrences,
            min_frequency: self.min_frequency,
            weight: self.weight,
            spoons: self.spoons,
            disabled: self.disabled,
            tags: match self.tags {
                Some(ts) => Some(ts.deep_view()),
                None => None,
            },
        }
    }
}

impl Default for TaskBuilder {
    /// A builder with every field unset.
    fn default() -> (r: TaskBuilder)
        ensures
            r@ == (TaskBuilderV {
                slug: None,
                task: None,
                description: None,
                max_occurrences: None,
                min_frequency: None,
                weight: None,
                spoons: None,
                disabled: None,
                tags: None,
            }),
    {
        TaskBuilder {
            slug: None,
            task: None,
            description: None,
            max_occurrences: None,
            min_frequency: None,
            weight: None,
            spoons: None,
            disabled: None,
            tags: None,
        }
    }
}

/// The slug a build would settle on: an explicitly set, non-empty slug wins;
/// otherwise the slug is derived from the title.
pub open spec fn spec_built_slug(b: TaskBuilderV) -> Seq<char> {
    let title = match b.task {
        Some(t) => t,
        None => Seq::<char>::empty(),
    };
    match b.slug {
        Some(s) => if s.len() > 0 {
            s
        } else {
            slug_of(title)
        },
        None => slug_of(title),
    }
}

/// A build succeeds exactly when a non-empty title is set and a non-empty
/// slug can be settled on.
pub open spec fn spec_build_ok(b: TaskBuilderV) -> bool {
    &&& b.task matches Some(t) && t.len() > 0
    &&& spec_built_slug(b).len() > 0
}

/// What a successful build produces: set fields are taken over, unset ones
/// fall back to their defaults.
pub open spec fn spec_build(b: TaskBuilderV) -> TaskConfigV {
    TaskConfigV {
        slug: spec_built_slug(b),
        task: match b.task {
            Some(t) => t,
            None => Seq::<char>::empty(),
        },
        description: match b.description {
            Some(d) => d,
            None => None,
        },
        max_occurrences: match b.max_occurrences {
            Some(m) => m,
            None => None,
        },
        min_frequency: match b.min_frequency {
            Some(f) => f,
            None => None,
        },
        weight: match b.weight {
            Some(w) => w,
            None => DEFAULT_WEIGHT,
        },
        spoons: match b.spoons {
            Some(p) => p,
            None => DEFAULT_SPOONS,
        },
        disabled: match b.disabled {
            Some(d) => d,
            None => DisabledOptions::Enabled,
        },
        tags: match b.tags {
            Some(ts) => ts,
            None => Seq::<Seq<char>>::empty(),
        },
    }
}

impl TaskBuilder {
    /// Sets the explicit slug; an empty string unsets it so that the slug is
    /// derived from the title instead.
    pub fn slug(&mut self, value: String)
        ensures
            final(self)@ == (TaskBuilderV {
                slug: if value@.len() == 0 {
                    None
                } else {
                    Some(value@)
                },
                ..old(self)@
            }),
    {
        if value.as_str().is_empty() {
            self.slug = None;
        } else {
            self.slug = Some(value);
        }
    }

    /// Appends one tag.
    pub fn tag(&mut self, tag: String)
        ensures
            final(self)@ == (TaskBuilderV {
                tags: Some(
                    match old(self)@.tags {
                        Some(ts) => ts.push(tag@),
                        None => seq![tag@],
                    },
                ),
                ..old(self)@
            }),
    {
        match &mut self.tags {
            Some(ts) => {
                ts.push(tag);
                proof {
                    assert(self@.tags matches Some(x)
                        && x =~= old(self)@.tags->Some_0.push(tag@));
                }
            },
            None => {
                let mut ts: Vec<String> = Vec::new();
                ts.push(tag);
                self.tags = Some(ts);
                proof {
                    assert(self@.tags matches Some(x) && x =~= seq![tag@]);
                }
            },
        }
    }

    /// Builds a task definition, validating that a title is present and a
    /// non-empty slug can be settled on.
    pub fn build(&self) -> (r: Result<TaskConfig, RanddGoalsError>)
        ensures
            r is Ok <==> spec_build_ok(self@),
            r matches Ok(c) ==> c@ == spec_build(self@),
            r matches Err(e) ==> e is Validation,
    {
        let task = match &self.task {
            Some(t) => t.clone(),
            None => {
                return Err(
                    RanddGoalsError::Validation { message: "a task needs a title".to_owned() },
                );
            },
        };
        if task.as_str().is_empty() {
            return Err(
                RanddGoalsError::Validation { message: "a task needs a non-empty title".to_owned() },
            );
        }
        let explicit = match &self.slug {
            Some(s) => if s.as_str().is_empty() {
                None
            } else {
                Some(s.clone())
            },
            None => None,
        };
        let slug = match explicit {
            Some(s) => s,
            None => slugify(task.as_str()),
        };
        if slug.as_str().is_empty() {
            return Err(
                RanddGoalsError::Validation {
                    message: "no slug can be derived from the title".to_owned(),
                },
            );
        }
        let description = match &self.description {
            Some(d) => clone_opt_string(d),
            None => None,
        };
        let tags = match &self.tags {
            Some(ts) => clone_string_vec(ts),
            None => Vec::new(),
        };
        let c = TaskConfig {
            slug,
            task,
            description,
            max_occurrences: match self.max_occurrences {
                Some(m) => m,
                None => None,
            },
            min_frequency: match self.min_frequency {
                Some(f) => f,
                None => None,
            },
            weight: match self.weight {
                Some(w) => w,
                None => DEFAULT_WEIGHT,
            },
            spoons: match self.spoons {
                Some(p) => p,
                None => DEFAULT_SPOONS,
            },
            disabled: match self.disabled {
                Some(d) => d,
                None => DisabledOptions::Enabled,
            },
            tags,
        };
        proof {
            assert(c@.tags =~= spec_build(self@).tags);
        }
        Ok(c)
    }
}

/// An update: set fields of the builder replace those of `base` outright;
/// tags are unioned; the slug is never altered.
pub open spec fn spec_update(base: TaskConfigV, b: TaskBuilderV) -> TaskConfigV {
    TaskConfigV {
        slug: base.slug,
        task: match b.task {
            Some(t) => t,
            None => base.task,
        },
        description: match b.description {
            Some(d) => d,
            None => base.description,
        },
        max_occurrences: match b.max_occurrences {
            Some(m) => m,
            None => base.max_occurrences,
        },
        min_frequency: match b.min_frequency {
            Some(f) => f,
            None => base.min_frequency,
        },
        weight: match b.weight {
            Some(w) => w,
            None => base.weight,
        },
        spoons: match b.spoons {
            Some(p) => p,
            None => base.spoons,
        },
        disabled: match b.disabled {
            Some(d) => d,
            None => base.disabled,
        },
        tags: match b.tags {
            Some(ts) => union_tags(base.tags, ts),
            None => base.tags,
        },
    }
}


impl TaskConfig {
    /// Overrides this definition with the set fields of the builder; tags
    /// are unioned and the slug is kept.
    pub fn update(&mut self, other: TaskBuilder)
        ensures
            final(self)@ == spec_update(old(self)@, other@),
    {
        let ghost target = spec_update(old(self)@, other@);
        if let Some(task) = other.task {
            self.task = task;
        }
        if let Some(description) = other.description {
            self.description = description;
        }
        if let Some(weight) = other.weight {
            self.weight = weight;
        }
        if let Some(spoons) = other.spoons {
            self.spoons = spoons;
        }
        if let Some(min_frequency) = other.min_frequency {
            self.min_frequency = min_frequency;
        }
        if let Some(max_occurrences) = other.max_occurrences {
            self.max_occurrences = max_occurrences;
        }
        if let Some(disabled) = other.disabled {
            self.disabled = disabled;
        }
        if let Some(tags) = other.tags {
            let ghost inc = tags.deep_view();
            proof {
                assert(self@ == (TaskConfigV { tags: self@.tags, ..target }));
                assert(union_tags(self@.tags, inc.skip(0)) == target.tags) by {
                    assert(inc.skip(0) =~= inc);
                }
            }
            let n = tags.len();
            let mut k: usize = 0;
            while k < n
                invariant
                    0 <= k <= n,
                    n == inc.len(),
                    n == tags@.len(),
                    inc == tags.deep_view(),
                    union_tags(self@.tags, inc.skip(k as int)) == target.tags,
                    self@ == (TaskConfigV { tags: self@.tags, ..target }),
                decreases n - k,
            {
                let tag = tags[k].clone();
                proof {
                    assert(tag@ == inc[k as int]);
                }
                let ghost before = self@.tags;
                if !vec_contains_str(&self.tags, tag.as_str()) {
                    self.tags.push(tag);
                    proof {
                        assert(self@.tags =~= before.push(inc[k as int]));
                    }
                }
                proof {
                    assert(inc.skip(k as int).skip(1) =~= inc.skip(k as int + 1));
                    assert(inc.skip(k as int)[0] == inc[k as int]);
                }
                k = k + 1;
            }
            proof {
                assert(inc.skip(n as int) =~= Seq::<Seq<char>>::empty());
            }
        }
    }
}

} // verus!
