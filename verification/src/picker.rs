//! The weighted daily picker: decides how many tasks are needed today,
//! filters the catalog to the choosable ones, and draws without replacement
//! proportionally to weight.

use vstd::prelude::*;
use crate::Day;
use crate::dates::{Timestamp, spec_day_with_cutoff};
use crate::state::{State, StateV, spec_current_spoons, tasks_have_slug};
use crate::task::{TaskV, spec_choosable};
use crate::task_set::slugs_contain;
use crate::task_state::TaskState;
use crate::config::LimitTasksBy;

verus! {

#[verifier::external_type_specification]
#[verifier::external_body]
pub struct ExSmallRng(rand::rngs::SmallRng);

/// A source of randomness for the picker.
pub struct RngSource {
    inner: rand::rngs::SmallRng,
}

impl RngSource {
    /// Relies on rand's SeedableRng::try_from_os_rng for SmallRng: a
    /// generator seeded from the operating system, or None when the
    /// operating system's randomness is unavailable.
    #[verifier::external_body]
    pub fn from_os() -> (r: Option<RngSource>) {
        match <rand::rngs::SmallRng as rand::SeedableRng>::try_from_os_rng() {
            Ok(inner) => Some(RngSource { inner }),
            Err(_) => None,
        }
    }

    /// Relies on rand's SeedableRng::seed_from_u64 for SmallRng: a
    /// deterministic generator for reproducible runs.
    #[verifier::external_body]
    pub fn from_seed(seed: u64) -> (r: RngSource) {
        RngSource { inner: <rand::rngs::SmallRng as rand::SeedableRng>::seed_from_u64(seed) }
    }

    /// Relies on rand's Rng::random_range over `0..bound`: a value below the
    /// bound, which must be positive.  Nothing more can be said of a random
    /// draw.
    #[verifier::external_body]
    pub(crate) fn below(&mut self, bound: u128) -> (r: u128)
        requires
            bound > 0,
        ensures
            r < bound,
    {
        rand::Rng::random_range(&mut self.inner, 0..bound)
    }
}

/// Whether the task at position `i` may be drawn, in the given state.
pub open spec fn choosable_in(s: StateV, i: int) -> bool {
    spec_choosable(
        s.tasks[i].config,
        s.tasks[i].state,
        s.today as int,
        slugs_contain(s.todays_tasks, s.tasks[i].config.slug),
    )
}

impl State {
    /// The positions of every choosable task, in catalog order.
    pub fn choosable_indices(&self) -> (r: Vec<usize>)
        requires
            self.wf(),
        ensures
            forall|k1: int, k2: int| 0 <= k1 < k2 < r@.len() ==> r@[k1] < r@[k2],
            forall|k: int|
                0 <= k < r@.len() ==> r@[k] < self@.tasks.len() && choosable_in(
                    self@,
                    #[trigger] r@[k] as int,
                ),
            forall|i: int|
                0 <= i < self@.tasks.len() && choosable_in(self@, i) ==> r@.contains(i as usize),
    {
        let n = self.tasks.len();
        let mut r: Vec<usize> = Vec::new();
        let mut i: usize = 0;
        while i < n
            invariant
                0 <= i <= n,
                n == self@.tasks.len(),
                self.wf(),
                forall|k1: int, k2: int| 0 <= k1 < k2 < r@.len() ==> r@[k1] < r@[k2],
                forall|k: int| 0 <= k < r@.len() ==> r@[k] < i,
                forall|k: int|
                    0 <= k < r@.len() ==> choosable_in(self@, #[trigger] r@[k] as int),
                forall|j: int|
                    0 <= j < i && choosable_in(self@, j) ==> r@.contains(j as usize),
            decreases n - i,
        {
            let in_todays = self.todays_tasks.contains(self.tasks[i].config.slug.as_str());
            proof {
                assert(self@.tasks[i as int] == self.tasks@[i as int]@);
            }
            let ghost pre = r@;
            if self.tasks[i].choosable(self.today, in_todays) {
                r.push(i);
                proof {
                    lemma_push_contains(pre, i);
                    assert(r@[r@.len() - 1] == i);
                }
            }
            i = i + 1;
        }
        r
    }
}

/// Everything `draw_from` promises of a draw: a duplicate-free selection
/// from the candidates, as large as the quota or the candidate pool allows,
/// never preferring a weightless candidate to a weighted one.
pub open spec fn draw_ok(tasks: Seq<TaskV>, cands: Seq<usize>, need: int, r: Seq<usize>) -> bool {
    &&& r.no_duplicates()
    &&& forall|k: int| 0 <= k < r.len() ==> cands.contains(#[trigger] r[k])
    &&& r.len() == vstd::math::min(need, cands.len() as int)
    &&& forall|x: usize, y: usize|
        r.contains(x) && tasks[x as int].config.weight == 0 && cands.contains(y) && tasks[
            y as int
        ].config.weight > 0 ==> r.contains(y)
}

impl State {
    /// Draws up to `need` positions from the candidates, without
    /// replacement, proportionally to weight.  A candidate of weight zero is
    /// drawn only once every weighted candidate has been drawn.
    pub fn draw_from(&self, cands: Vec<usize>, need: usize, rng: &mut RngSource) -> (r: Vec<
        usize,
    >)
        requires
            cands@.no_duplicates(),
            forall|k: int| 0 <= k < cands@.len() ==> #[trigger] cands@[k] < self@.tasks.len(),
        ensures
            draw_ok(self@.tasks, cands@, need as int, r@),
    {
        let ghost orig = cands@;
        let mut cands = cands;
        let mut drawn: Vec<usize> = Vec::new();
        while drawn.len() < need && cands.len() > 0
            invariant
                orig.no_duplicates(),
                cands@.no_duplicates(),
                drawn@.no_duplicates(),
                forall|k: int| 0 <= k < orig.len() ==> #[trigger] orig[k] < self@.tasks.len(),
                forall|k: int| 0 <= k < cands@.len() ==> orig.contains(#[trigger] cands@[k]),
                forall|k: int| 0 <= k < drawn@.len() ==> orig.contains(#[trigger] drawn@[k]),
                forall|x: usize| !(cands@.contains(x) && drawn@.contains(x)),
                forall|x: usize| orig.contains(x) ==> cands@.contains(x) || drawn@.contains(x),
                drawn@.len() + cands@.len() == orig.len(),
                drawn@.len() <= need,
                (exists|x: usize| drawn@.contains(x) && self@.tasks[x as int].config.weight == 0)
                    ==> (forall|y: usize| #[trigger]
                    cands@.contains(y) ==> self@.tasks[y as int].config.weight == 0),
            decreases need - drawn@.len(),
        {
            // total weight of the remaining candidates
            let m = cands.len();
            let mut total: u128 = 0;
            let mut j: usize = 0;
            while j < m
                invariant
                    0 <= j <= m,
                    m == cands@.len(),
                    forall|k: int| 0 <= k < cands@.len() ==> #[trigger] cands@[k]
                        < self@.tasks.len(),
                    total <= j * 0xffff_ffff_ffff_ffffu128,
                    (total == 0) ==> (forall|k: int|
                        0 <= k < j ==> self@.tasks[#[trigger] cands@[k] as int].config.weight
                            == 0),
                    total == weight_sum(self@.tasks, cands@, j as int),
                decreases m - j,
            {
                proof {
                    assert(self@.tasks[cands@[j as int] as int] == self.tasks@[
                        cands@[j as int] as int
                    ]@);
                }
                total = total + (self.tasks[cands[j]].config.weight as u128);
                j = j + 1;
            }
            let chosen_pos: usize;
            if total > 0 {
                let pick = rng.below(total);
                // walk the prefix sums to find the weighted position
                let mut acc: u128 = 0;
                let mut j: usize = 0;
                let mut found: usize = 0;
                let mut have: bool = false;
                while j < m && !have
                    invariant
                        0 <= j <= m,
                        m == cands@.len(),
                        forall|k: int| 0 <= k < cands@.len() ==> #[trigger] cands@[k]
                            < self@.tasks.len(),
                        !have ==> acc <= pick,
                        acc <= j * 0xffff_ffff_ffff_ffffu128,
                        have ==> found < m && self@.tasks[
                            cands@[found as int] as int
                        ].config.weight > 0,
                        pick < total,
                        total == weight_sum(self@.tasks, cands@, m as int),
                        !have ==> acc == weight_sum(self@.tasks, cands@, j as int),
                    decreases m - j,
                {
                    proof {
                        assert(self@.tasks[cands@[j as int] as int] == self.tasks@[
                            cands@[j as int] as int
                        ]@);
                    }
                    let w = self.tasks[cands[j]].config.weight as u128;
                    if pick < acc + w {
                        found = j;
                        have = true;
                        proof {
                            assert(w > 0);
                        }
                    } else {
                        acc = acc + w;
                    }
                    j = j + 1;
                }
                proof {
                    if !have {
                        assert(acc == total);
                        assert(false);
                    }
                }
                chosen_pos = found;
            } else {
                chosen_pos = 0;
                proof {
                    assert(forall|k: int|
                        0 <= k < m ==> self@.tasks[#[trigger] cands@[k] as int].config.weight
                            == 0);
                }
            }
            let chosen = cands[chosen_pos];
            let ghost pre_c = cands@;
            let ghost pre_d = drawn@;
            cands.remove(chosen_pos);
            drawn.push(chosen);
            proof {
                assert(cands@ =~= pre_c.remove(chosen_pos as int));
                assert(drawn@ =~= pre_d.push(chosen));
                lemma_remove_membership(pre_c, chosen_pos as int);
                lemma_push_contains(pre_d, chosen);
                assert(drawn@.no_duplicates()) by {
                    assert(!pre_d.contains(chosen));
                    assert(forall|k: int|
                        0 <= k < pre_d.len() ==> #[trigger] drawn@[k] == pre_d[k]);
                }
                assert(forall|x: usize| orig.contains(x) ==> cands@.contains(x)
                    || drawn@.contains(x)) by {
                    assert(forall|x: usize| pre_c.contains(x) && x != chosen ==> cands@.contains(
                        x,
                    ));
                    assert(drawn@.contains(chosen));
                    assert(forall|x: usize| pre_d.contains(x) ==> drawn@.contains(x));
                }
                if total == 0 {
                    assert(forall|y: usize| #[trigger] cands@.contains(y) ==> self@.tasks[
                        y as int
                    ].config.weight == 0);
                }
                if exists|x: usize| drawn@.contains(x) && self@.tasks[
                    x as int
                ].config.weight == 0 {
                    let x = choose|x: usize|
                        drawn@.contains(x) && self@.tasks[x as int].config.weight == 0;
                    if pre_d.contains(x) {
                    } else {
                        assert(x == chosen);
                        assert(total == 0);
                    }
                }
            }
        }
        proof {
            if drawn@.len() < need {
                assert(cands@.len() == 0);
                assert(forall|x: usize| orig.contains(x) ==> drawn@.contains(x));
            }
        }
        drawn
    }
}

/// The sum of the weights of the first `j` candidates.
pub open spec fn weight_sum(tasks: Seq<TaskV>, cands: Seq<usize>, j: int) -> int
    decreases j,
{
    if j <= 0 {
        0
    } else {
        weight_sum(tasks, cands, j - 1) + tasks[cands[j - 1] as int].config.weight
    }
}

/// A pushed value is a member, and pushing loses no member.
proof fn lemma_push_contains(s: Seq<usize>, v: usize)
    ensures
        s.push(v).contains(v),
        forall|x: usize| s.contains(x) ==> s.push(v).contains(x),
        forall|x: usize| s.push(v).contains(x) ==> s.contains(x) || x == v,
{
    assert(s.push(v)[s.len() as int] == v);
    assert forall|x: usize| s.contains(x) implies s.push(v).contains(x) by {
        let k = choose|k: int| 0 <= k < s.len() && s[k] == x;
        assert(s.push(v)[k] == x);
    }
    assert forall|x: usize| s.push(v).contains(x) implies s.contains(x) || x == v by {
        let k = choose|k: int| 0 <= k < s.push(v).len() && s.push(v)[k] == x;
        if k < s.len() {
            assert(s[k] == x);
        }
    }
}

/// Removing one position keeps every other value and loses the removed one.
proof fn lemma_remove_membership(s: Seq<usize>, i: int)
    requires
        s.no_duplicates(),
        0 <= i < s.len(),
    ensures
        s.remove(i).no_duplicates(),
        !s.remove(i).contains(s[i]),
        forall|x: usize| s.remove(i).contains(x) ==> s.contains(x),
        forall|x: usize| s.contains(x) && x != s[i] ==> s.remove(i).contains(x),
{
    let r = s.remove(i);
    assert forall|p: int, q: int| 0 <= p < q < r.len() implies r[p] != r[q] by {
        let po = if p < i {
            p
        } else {
            p + 1
        };
        let qo = if q < i {
            q
        } else {
            q + 1
        };
        assert(r[p] == s[po]);
        assert(r[q] == s[qo]);
    }
    if r.contains(s[i]) {
        let k = choose|k: int| 0 <= k < r.len() && r[k] == s[i];
        let ko = if k < i {
            k
        } else {
            k + 1
        };
        assert(s[ko] == s[i]);
    }
    assert forall|x: usize| r.contains(x) implies s.contains(x) by {
        let k = choose|k: int| 0 <= k < r.len() && r[k] == x;
        let ko = if k < i {
            k
        } else {
            k + 1
        };
        assert(s[ko] == x);
    }
    assert forall|x: usize| s.contains(x) && x != s[i] implies r.contains(x) by {
        let k = choose|k: int| 0 <= k < s.len() && s[k] == x;
        if k < i {
            assert(r[k] == x);
        } else {
            assert(r[k - 1] == x);
        }
    }
}


/// Whether the drawn positions include position `i`.
pub open spec fn drawn_has(drawn: Seq<usize>, i: int) -> bool {
    exists|k: int| 0 <= k < drawn.len() && drawn[k] == i
}

/// A pushed position is included, and pushing loses no position.
proof fn lemma_drawn_has_push(s: Seq<usize>, v: usize)
    ensures
        forall|i: int| drawn_has(s.push(v), i) <==> drawn_has(s, i) || v == i,
{
    assert forall|i: int| drawn_has(s.push(v), i) <==> drawn_has(s, i) || v == i by {
        if drawn_has(s.push(v), i) {
            let k = choose|k: int| 0 <= k < s.push(v).len() && s.push(v)[k] == i;
            if k < s.len() {
                assert(s[k] == i);
            }
        }
        if drawn_has(s, i) {
            let k = choose|k: int| 0 <= k < s.len() && s[k] == i;
            assert(s.push(v)[k] == i);
        }
        if v == i {
            assert(s.push(v)[s.len() as int] == i);
        }
    }
}

/// A freshly selected task: completion cleared, selection day stamped.
pub open spec fn chosen_task(t: TaskV, today: Day) -> TaskV {
    TaskV { state: TaskState { completed: false, last_chosen: Some(today), ..t.state }, ..t }
}

/// The drawn positions have been selected; every other task is untouched.
pub open spec fn tasks_picked(pre: Seq<TaskV>, post: Seq<TaskV>, drawn: Seq<usize>, today: Day) -> bool {
    &&& post.len() == pre.len()
    &&& drawn.no_duplicates()
    &&& forall|k: int| 0 <= k < drawn.len() ==> #[trigger] drawn[k] < pre.len()
    &&& forall|i: int|
        0 <= i < pre.len() ==> #[trigger] post[i] == (if drawn_has(drawn, i) {
            chosen_task(pre[i], today)
        } else {
            pre[i]
        })
}

impl State {
    /// Stamps each drawn task as selected today.
    pub fn apply_choose(&mut self, drawn: &Vec<usize>)
        requires
            old(self).wf(),
            drawn@.no_duplicates(),
            forall|k: int| 0 <= k < drawn@.len() ==> #[trigger] drawn@[k]
                < old(self)@.tasks.len(),
        ensures
            final(self).wf(),
            tasks_picked(old(self)@.tasks, final(self)@.tasks, drawn@, old(self)@.today),
            final(self)@ == (StateV { tasks: final(self)@.tasks, ..old(self)@ }),
    {
        let n = drawn.len();
        let mut k: usize = 0;
        while k < n
            invariant
                0 <= k <= n,
                n == drawn@.len(),
                drawn@.no_duplicates(),
                forall|kk: int| 0 <= kk < n ==> #[trigger] drawn@[kk] < old(self)@.tasks.len(),
                self.wf(),
                self@.tasks.len() == old(self)@.tasks.len(),
                forall|i: int|
                    0 <= i < old(self)@.tasks.len() ==> #[trigger] self@.tasks[i] == (if drawn_has(
                        drawn@.take(k as int),
                        i,
                    ) {
                        chosen_task(old(self)@.tasks[i], old(self)@.today)
                    } else {
                        old(self)@.tasks[i]
                    }),
                self@ == (StateV { tasks: self@.tasks, ..old(self)@ }),
            decreases n - k,
        {
            let i = drawn[k];
            proof {
                if drawn_has(drawn@.take(k as int), i as int) {
                    let kk = choose|kk: int|
                        0 <= kk < k && #[trigger] drawn@.take(k as int)[kk] == i as int;
                    assert(drawn@[kk] == drawn@[k as int]);
                    assert(false);
                }
            }
            let today = self.today;
            let ghost prev = self@.tasks;
            let mut t = self.tasks[i].clone();
            proof {
                assert(t@ == prev[i as int]);
                assert(prev[i as int] == old(self)@.tasks[i as int]);
            }
            t.choose_on(today);
            proof {
                assert(t@ == chosen_task(old(self)@.tasks[i as int], old(self)@.today));
            }
            self.put_task(i, t);
            proof {
                assert(self@.tasks == prev.update(i as int, t@));
                assert(drawn@.take(k + 1) =~= drawn@.take(k as int).push(drawn@[k as int]));
                lemma_drawn_has_push(drawn@.take(k as int), drawn@[k as int]);
                assert forall|p: int| 0 <= p < old(self)@.tasks.len() implies #[trigger] self@.tasks[p]
                    == (if drawn_has(drawn@.take(k + 1), p) {
                    chosen_task(old(self)@.tasks[p], old(self)@.today)
                } else {
                    old(self)@.tasks[p]
                }) by {
                    if p == i {
                        assert(drawn_has(drawn@.take(k + 1), p));
                    } else {
                        assert(self@.tasks[p] == prev[p]);
                    }
                }
            }
            k = k + 1;
        }
        proof {
            assert(drawn@.take(n as int) =~= drawn@);
        }
    }
}

/// A valid draw for a quota: all drawn tasks were choosable, the quota or
/// the candidate pool is exhausted, and no weightless task was preferred to
/// a weighted one.
pub open spec fn drawn_valid(mid: StateV, drawn: Seq<usize>, need: int) -> bool {
    &&& drawn.no_duplicates()
    &&& forall|k: int|
        0 <= k < drawn.len() ==> #[trigger] drawn[k] < mid.tasks.len() && choosable_in(
            mid,
            drawn[k] as int,
        )
    &&& drawn.len() <= need
    &&& (drawn.len() < need ==> forall|i: int|
        0 <= i < mid.tasks.len() && choosable_in(mid, i) ==> drawn_has(drawn, i))
    &&& forall|x: usize, y: int|
        drawn.contains(x) && mid.tasks[x as int].config.weight == 0 && 0 <= y < mid.tasks.len()
            && choosable_in(mid, y) && mid.tasks[y].config.weight > 0 ==> drawn_has(drawn, y)
}

/// Whether the effective day has moved past the day of the last pick.
pub open spec fn rolled_over(pre: StateV) -> bool {
    pre.today > spec_day_with_cutoff(pre.last_generated, pre.cut_off)
}

/// The state after the rollover check: a stale today's set is discarded.
pub open spec fn after_clear(pre: StateV) -> StateV {
    if rolled_over(pre) {
        StateV { todays_tasks: Seq::empty(), ..pre }
    } else {
        pre
    }
}

/// A committed draw: the drawn tasks are stamped as selected, their slugs
/// join today's set, and the pick instant is recorded.
pub open spec fn committed(mid: StateV, post: StateV, drawn: Seq<usize>, now: Timestamp) -> bool {
    &&& tasks_picked(mid.tasks, post.tasks, drawn, mid.today)
    &&& crate::strings::sorted_strict(post.todays_tasks)
    &&& (forall|x: Seq<char>|
        slugs_contain(post.todays_tasks, x) <==> slugs_contain(mid.todays_tasks, x) || exists|
            k: int,
        |
            0 <= k < drawn.len() && mid.tasks[#[trigger] drawn[k] as int].config.slug == x)
    &&& post.todays_tasks.len() == mid.todays_tasks.len() + drawn.len()
    &&& post.last_generated == now
    &&& post.cut_off == mid.cut_off
    &&& post.limit_by == mid.limit_by
    &&& post.today == mid.today
}

/// One invocation of the daily picker, witnessed by the drawn positions.
///
/// After a day rollover the stale today's set is discarded.  Under the
/// fixed-count policy, the quota is the configured count less what today's
/// set already holds; a draw that adds nothing leaves the state exactly as
/// it stood after the rollover check.  Under the budget policy, tasks are
/// drawn one at a time until the cost of today's set reaches the budget or
/// no choosable task remains.
pub open spec fn pick_transition_with(
    pre: StateV,
    post: StateV,
    now: Timestamp,
    b: bool,
    drawn: Seq<usize>,
) -> bool {
    let mid = after_clear(pre);
    match pre.limit_by {
        LimitTasksBy::Tasks { tasks: target } => {
            let needed = target - mid.todays_tasks.len();
            if needed <= 0 {
                post == mid && b == false && drawn.len() == 0
            } else {
                &&& drawn_valid(mid, drawn, needed)
                &&& b == (drawn.len() > 0)
                &&& (b ==> committed(mid, post, drawn, now))
                &&& (!b ==> post == mid)
            }
        },
        LimitTasksBy::Spoons { spoons: max } => {
            if spec_current_spoons(mid.tasks, mid.todays_tasks) >= max {
                post == mid && b == false && drawn.len() == 0
            } else {
                &&& drawn.no_duplicates()
                &&& forall|k: int|
                    0 <= k < drawn.len() ==> #[trigger] drawn[k] < mid.tasks.len()
                        && choosable_in(mid, drawn[k] as int)
                &&& b == (drawn.len() > 0)
                &&& (b ==> committed(mid, post, drawn, now))
                &&& (!b ==> post == mid)
                &&& (b ==> spec_current_spoons(post.tasks, post.todays_tasks) >= max || (forall|
                    i: int,
                |
                    0 <= i < mid.tasks.len() && choosable_in(mid, i) ==> drawn_has(drawn, i)))
                &&& (!b ==> forall|i: int| 0 <= i < mid.tasks.len() ==> !choosable_in(mid, i))
            }
        },
    }
}

/// One invocation of the daily picker.
pub open spec fn pick_transition(pre: StateV, post: StateV, now: Timestamp, b: bool) -> bool {
    exists|drawn: Seq<usize>| pick_transition_with(pre, post, now, b, drawn)
}


/// The set of all machine integers below `n` has exactly `n` members.
proof fn lemma_range_set(n: usize)
    ensures
        Set::new(|x: usize| x < n).finite(),
        Set::new(|x: usize| x < n).len() == n,
    decreases n,
{
    if n == 0 {
        assert(Set::new(|x: usize| x < n) =~= Set::<usize>::empty());
    } else {
        lemma_range_set((n - 1) as usize);
        assert(Set::new(|x: usize| x < n) =~= Set::new(
            |x: usize| x < (n - 1) as usize,
        ).insert((n - 1) as usize));
    }
}

/// A duplicate-free sequence of positions below `n` has at most `n` entries.
proof fn lemma_distinct_bounded(s: Seq<usize>, n: usize)
    requires
        s.no_duplicates(),
        forall|k: int| 0 <= k < s.len() ==> #[trigger] s[k] < n,
    ensures
        s.len() <= n,
{
    s.unique_seq_to_set();
    lemma_range_set(n);
    assert(s.to_set().subset_of(Set::new(|x: usize| x < n))) by {
        assert forall|x: usize| s.to_set().contains(x) implies Set::new(
            |x: usize| x < n,
        ).contains(x) by {
            let k = choose|k: int| 0 <= k < s.len() && s[k] == x;
        }
    }
    vstd::set_lib::lemma_len_subset(s.to_set(), Set::new(|x: usize| x < n));
}

/// After some draws are committed, a task is choosable exactly when it was
/// choosable before and has not been drawn.
pub proof fn lemma_choosable_preserved(mid: StateV, cur: StateV, drawn: Seq<usize>)
    requires
        crate::state::distinct_slugs(mid.tasks),
        tasks_picked(mid.tasks, cur.tasks, drawn, mid.today),
        forall|x: Seq<char>|
            slugs_contain(cur.todays_tasks, x) <==> slugs_contain(mid.todays_tasks, x) || exists|
                k: int,
            |
                0 <= k < drawn.len() && mid.tasks[#[trigger] drawn[k] as int].config.slug == x,
        forall|k: int|
            0 <= k < drawn.len() ==> #[trigger] drawn[k] < mid.tasks.len() && choosable_in(
                mid,
                drawn[k] as int,
            ),
        cur.today == mid.today,
    ensures
        forall|i: int|
            0 <= i < mid.tasks.len() ==> (choosable_in(cur, i) <==> (choosable_in(mid, i)
                && !drawn_has(drawn, i))),
{
    assert forall|i: int|
        0 <= i < mid.tasks.len() implies (choosable_in(cur, i) <==> (choosable_in(mid, i)
        && !drawn_has(drawn, i))) by {
        if drawn_has(drawn, i) {
            let k = choose|k: int| 0 <= k < drawn.len() && drawn[k] == i;
            assert(mid.tasks[drawn[k] as int].config.slug == mid.tasks[i].config.slug);
            assert(slugs_contain(cur.todays_tasks, cur.tasks[i].config.slug));
            assert(!choosable_in(cur, i));
        } else {
            assert(cur.tasks[i] == mid.tasks[i]);
            assert(slugs_contain(cur.todays_tasks, mid.tasks[i].config.slug) == slugs_contain(
                mid.todays_tasks,
                mid.tasks[i].config.slug,
            )) by {
                if exists|k: int|
                    0 <= k < drawn.len() && mid.tasks[#[trigger] drawn[k] as int].config.slug
                        == mid.tasks[i].config.slug {
                    let k = choose|k: int|
                        0 <= k < drawn.len() && mid.tasks[
                            #[trigger] drawn[k] as int
                        ].config.slug == mid.tasks[i].config.slug;
                    assert(drawn[k] != i);
                    assert(mid.tasks[drawn[k] as int].config.slug != mid.tasks[
                        i
                    ].config.slug) by {
                        if drawn[k] < i {
                            assert(mid.tasks[drawn[k] as int].config.slug != mid.tasks[
                                i
                            ].config.slug);
                        }
                    }
                }
            }
        }
    }
}

/// Draws up to `num_tasks` choosable tasks, stamps each as selected today,
/// and returns their slugs.  Today's set itself is not touched; committing
/// the drawn slugs into it is the caller's concern.
pub fn pick_tasks(num_tasks: usize, state: &mut State, rng: &mut RngSource) -> (r: Vec<String>)
    requires
        old(state).wf(),
    ensures
        final(state).wf(),
        final(state)@ == (StateV { tasks: final(state)@.tasks, ..old(state)@ }),
        exists|drawn: Seq<usize>|
            {
                &&& #[trigger] drawn_valid(old(state)@, drawn, num_tasks as int)
                &&& tasks_picked(old(state)@.tasks, final(state)@.tasks, drawn, old(state)@.today)
                &&& r.deep_view().len() == drawn.len()
                &&& forall|k: int|
                    0 <= k < drawn.len() ==> r.deep_view()[k] == old(state)@.tasks[
                        #[trigger] drawn[k] as int
                    ].config.slug
            },
{
    let cands = state.choosable_indices();
    let drawn = state.draw_from(cands, num_tasks, rng);
    let ghost pre = state@;
    proof {
        lemma_drawn_from_cands(pre, cands@, drawn@, num_tasks as int, state.tasks.len());
    }
    let n = drawn.len();
    let mut slugs: Vec<String> = Vec::new();
    let mut k: usize = 0;
    while k < n
        invariant
            0 <= k <= n,
            n == drawn@.len(),
            state.wf(),
            state@ == pre,
            forall|kk: int| 0 <= kk < n ==> #[trigger] drawn@[kk] < state@.tasks.len(),
            slugs.deep_view().len() == k,
            forall|kk: int|
                0 <= kk < k ==> slugs.deep_view()[kk] == state@.tasks[
                    #[trigger] drawn@[kk] as int
                ].config.slug,
        decreases n - k,
    {
        let ghost presl = slugs.deep_view();
        let i = drawn[k];
        slugs.push(state.tasks[i].config.slug.clone());
        proof {
            assert(state@.tasks[i as int] == state.tasks@[i as int]@);
            assert(slugs.deep_view() =~= presl.push(state@.tasks[i as int].config.slug));
        }
        k = k + 1;
    }
    state.apply_choose(&drawn);
    slugs
}

/// A draw out of the choosable candidates is a valid draw for the state.
proof fn lemma_drawn_from_cands(
    pre: StateV,
    cands: Seq<usize>,
    drawn: Seq<usize>,
    need: int,
    n: usize,
)
    requires
        n == pre.tasks.len(),
        forall|k1: int, k2: int| 0 <= k1 < k2 < cands.len() ==> cands[k1] < cands[k2],
        forall|k: int|
            0 <= k < cands.len() ==> cands[k] < pre.tasks.len() && choosable_in(
                pre,
                #[trigger] cands[k] as int,
            ),
        forall|i: int|
            0 <= i < pre.tasks.len() && choosable_in(pre, i) ==> cands.contains(i as usize),
        draw_ok(pre.tasks, cands, need, drawn),
    ensures
        drawn_valid(pre, drawn, need),
        drawn.no_duplicates(),
        forall|k: int| 0 <= k < drawn.len() ==> #[trigger] drawn[k] < pre.tasks.len(),
{
    assert(cands.no_duplicates());
    assert forall|k: int|
        0 <= k < drawn.len() implies #[trigger] drawn[k] < pre.tasks.len() && choosable_in(
        pre,
        drawn[k] as int,
    ) by {
        assert(cands.contains(drawn[k]));
        let j = choose|j: int| 0 <= j < cands.len() && cands[j] == drawn[k];
    }
    if drawn.len() < need {
        assert(drawn.len() == cands.len());
        drawn.unique_seq_to_set();
        cands.unique_seq_to_set();
        assert(drawn.to_set().subset_of(cands.to_set())) by {
            assert forall|x: usize| drawn.to_set().contains(x) implies cands.to_set().contains(
                x,
            ) by {
                assert(cands.contains(x));
            }
        }
        vstd::set_lib::lemma_subset_equality(drawn.to_set(), cands.to_set());
        assert forall|i: int|
            0 <= i < pre.tasks.len() && choosable_in(pre, i) implies drawn_has(drawn, i) by {
            assert(cands.contains(i as usize));
            assert(cands.to_set().contains(i as usize));
            assert(drawn.to_set().contains(i as usize));
            assert(drawn.contains(i as usize));
            let k = choose|k: int| 0 <= k < drawn.len() && drawn[k] == i as usize;
            assert(drawn[k] == i);
        }
    }
    assert forall|x: usize, y: int|
        drawn.contains(x) && pre.tasks[x as int].config.weight == 0 && 0 <= y < pre.tasks.len()
            && choosable_in(pre, y) && pre.tasks[y].config.weight > 0 implies drawn_has(
        drawn,
        y,
    ) by {
        assert(cands.contains(y as usize));
        assert(drawn.contains(y as usize));
        let k = choose|k: int| 0 <= k < drawn.len() && drawn[k] == y as usize;
        assert(drawn[k] == y);
    }
}


impl State {
    /// Commits a draw: stamps the drawn tasks as selected and adds their
    /// slugs to today's set.
    fn commit_drawn(&mut self, drawn: &Vec<usize>)
        requires
            old(self).wf(),
            drawn@.no_duplicates(),
            forall|k: int|
                0 <= k < drawn@.len() ==> #[trigger] drawn@[k] < old(self)@.tasks.len()
                    && choosable_in(old(self)@, drawn@[k] as int),
        ensures
            final(self).wf(),
            tasks_picked(old(self)@.tasks, final(self)@.tasks, drawn@, old(self)@.today),
            forall|x: Seq<char>|
                slugs_contain(final(self)@.todays_tasks, x) <==> slugs_contain(
                    old(self)@.todays_tasks,
                    x,
                ) || exists|k: int|
                    0 <= k < drawn@.len() && old(self)@.tasks[
                        #[trigger] drawn@[k] as int
                    ].config.slug == x,
            final(self)@.todays_tasks.len() == old(self)@.todays_tasks.len() + drawn@.len(),
            final(self)@.last_generated == old(self)@.last_generated,
            final(self)@.cut_off == old(self)@.cut_off,
            final(self)@.limit_by == old(self)@.limit_by,
            final(self)@.today == old(self)@.today,
    {
        let n = drawn.len();
        let mut slugs: Vec<String> = Vec::new();
        let mut k: usize = 0;
        while k < n
            invariant
                0 <= k <= n,
                n == drawn@.len(),
                self.wf(),
                self == old(self),
                forall|kk: int| 0 <= kk < n ==> #[trigger] drawn@[kk] < self@.tasks.len(),
                slugs.deep_view().len() == k,
                forall|kk: int|
                    0 <= kk < k ==> slugs.deep_view()[kk] == self@.tasks[
                        #[trigger] drawn@[kk] as int
                    ].config.slug,
            decreases n - k,
        {
            let ghost presl = slugs.deep_view();
            let i = drawn[k];
            slugs.push(self.tasks[i].config.slug.clone());
            proof {
                assert(self@.tasks[i as int] == self.tasks@[i as int]@);
                assert(slugs.deep_view() =~= presl.push(self@.tasks[i as int].config.slug));
            }
            k = k + 1;
        }
        self.apply_choose(drawn);
        let mut k: usize = 0;
        while k < n
            invariant
                0 <= k <= n,
                n == drawn@.len(),
                self.wf(),
                crate::state::distinct_slugs(old(self)@.tasks),
                drawn@.no_duplicates(),
                forall|kk: int|
                    0 <= kk < n ==> #[trigger] drawn@[kk] < old(self)@.tasks.len()
                        && choosable_in(old(self)@, drawn@[kk] as int),
                slugs.deep_view().len() == n,
                forall|kk: int|
                    0 <= kk < n ==> slugs.deep_view()[kk] == old(self)@.tasks[
                        #[trigger] drawn@[kk] as int
                    ].config.slug,
                tasks_picked(old(self)@.tasks, self@.tasks, drawn@, old(self)@.today),
                self@.last_generated == old(self)@.last_generated,
                self@.cut_off == old(self)@.cut_off,
                self@.limit_by == old(self)@.limit_by,
                self@.today == old(self)@.today,
                self@.todays_tasks.len() == old(self)@.todays_tasks.len() + k,
                forall|x: Seq<char>|
                    slugs_contain(self@.todays_tasks, x) <==> slugs_contain(
                        old(self)@.todays_tasks,
                        x,
                    ) || exists|kk: int|
                        0 <= kk < k && old(self)@.tasks[
                            #[trigger] drawn@[kk] as int
                        ].config.slug == x,
            decreases n - k,
        {
            let slugval = slugs[k].clone();
            let ghost sv = slugval@;
            proof {
                assert(sv == old(self)@.tasks[drawn@[k as int] as int].config.slug);
                // the slug is not yet in today's set
                if slugs_contain(self@.todays_tasks, sv) {
                    if slugs_contain(old(self)@.todays_tasks, sv) {
                        assert(choosable_in(old(self)@, drawn@[k as int] as int));
                        assert(false);
                    } else {
                        let kk = choose|kk: int|
                            0 <= kk < k && old(self)@.tasks[
                                #[trigger] drawn@[kk] as int
                            ].config.slug == sv;
                        assert(drawn@[kk] != drawn@[k as int]);
                        assert(old(self)@.tasks[drawn@[kk] as int].config.slug != old(
                            self,
                        )@.tasks[drawn@[k as int] as int].config.slug);
                        assert(false);
                    }
                }
            }
            let ghost pre_todays = self@.todays_tasks;
            self.insert_todays_task(slugval);
            proof {
                assert forall|x: Seq<char>|
                    slugs_contain(self@.todays_tasks, x) <==> slugs_contain(
                        old(self)@.todays_tasks,
                        x,
                    ) || exists|kk: int|
                        0 <= kk < k + 1 && old(self)@.tasks[
                            #[trigger] drawn@[kk] as int
                        ].config.slug == x by {
                    assert(self.todays_tasks.spec_contains(x) == slugs_contain(
                        self@.todays_tasks,
                        x,
                    ));
                    assert(slugs_contain(self@.todays_tasks, x) <==> slugs_contain(
                        pre_todays,
                        x,
                    ) || x == sv);
                    assert(slugs_contain(pre_todays, x) <==> slugs_contain(
                        old(self)@.todays_tasks,
                        x,
                    ) || exists|kk: int|
                        0 <= kk < k && old(self)@.tasks[
                            #[trigger] drawn@[kk] as int
                        ].config.slug == x);
                    if slugs_contain(self@.todays_tasks, x) {
                        if x == sv {
                            assert(old(self)@.tasks[drawn@[k as int] as int].config.slug == x);
                        }
                    }
                    if exists|kk: int|
                        0 <= kk < k + 1 && old(self)@.tasks[
                            #[trigger] drawn@[kk] as int
                        ].config.slug == x {
                        let kk = choose|kk: int|
                            0 <= kk < k + 1 && old(self)@.tasks[
                                #[trigger] drawn@[kk] as int
                            ].config.slug == x;
                        if kk == k {
                            assert(x == sv);
                        }
                    }
                }
            }
            k = k + 1;
        }
    }
}

/// Decides whether new tasks are needed today and, if so, draws and commits
/// them.  Returns whether any new tasks were added; callers persist the
/// state exactly when it returns true.
pub fn pick_todays_tasks(state: &mut State, rng: &mut RngSource, now: Timestamp) -> (b: bool)
    requires
        old(state).wf(),
        now.wf(),
    ensures
        final(state).wf(),
        pick_transition(old(state)@, final(state)@, now, b),
{
    let ghost pre = state@;
    if state.todays_date() > state.last_generated_date() {
        state.clear_todays_tasks();
        proof {
            assert(state@.todays_tasks == Seq::<Seq<char>>::empty()) by {
                assert(state@.todays_tasks =~= Seq::<Seq<char>>::empty());
            }
        }
    }
    let ghost mid = state@;
    proof {
        assert(mid == after_clear(pre));
    }
    match state.limit_by() {
        LimitTasksBy::Tasks { tasks: target } => {
            let cur = state.todays_tasks().len();
            if cur >= target {
                proof {
                    assert(pick_transition_with(pre, state@, now, false, Seq::<usize>::empty()));
                }
                return false;
            }
            let needed = target - cur;
            let cands = state.choosable_indices();
            let drawn = state.draw_from(cands, needed, rng);
            proof {
                vstd::std_specs::vec::axiom_spec_len(&state.tasks);
                lemma_drawn_from_cands(mid, cands@, drawn@, needed as int, state.tasks.len());
            }
            if drawn.len() == 0 {
                proof {
                    assert(pick_transition_with(pre, state@, now, false, drawn@));
                }
                return false;
            }
            state.commit_drawn(&drawn);
            state.mark_generated(now);
            proof {
                assert(committed(mid, state@, drawn@, now));
                assert(pick_transition_with(pre, state@, now, true, drawn@));
            }
            true
        },
        LimitTasksBy::Spoons { spoons: max } => {
            let ghost n_tasks = state@.tasks.len();
            let cur0 = state.current_spoons();
            if cur0 >= max as u128 {
                proof {
                    assert(pick_transition_with(pre, state@, now, false, Seq::<usize>::empty()));
                }
                return false;
            }
            let ghost mut drawn_all: Seq<usize> = Seq::<usize>::empty();
            let mut added = false;
            let mut done = false;
            while !done
                invariant
                    state.wf(),
                    now.wf(),
                    mid == after_clear(pre),
                    crate::state::state_wf(mid),
                    n_tasks == mid.tasks.len(),
                    spec_current_spoons(mid.tasks, mid.todays_tasks) < max,
                    pre.limit_by == (LimitTasksBy::Spoons { spoons: max }),
                    drawn_all.no_duplicates(),
                    forall|k: int|
                        0 <= k < drawn_all.len() ==> #[trigger] drawn_all[k] < mid.tasks.len()
                            && choosable_in(mid, drawn_all[k] as int),
                    tasks_picked(mid.tasks, state@.tasks, drawn_all, mid.today),
                    forall|x: Seq<char>|
                        slugs_contain(state@.todays_tasks, x) <==> slugs_contain(
                            mid.todays_tasks,
                            x,
                        ) || exists|k: int|
                            0 <= k < drawn_all.len() && mid.tasks[
                                #[trigger] drawn_all[k] as int
                            ].config.slug == x,
                    state@.todays_tasks.len() == mid.todays_tasks.len() + drawn_all.len(),
                    state@.last_generated == mid.last_generated,
                    state@.cut_off == mid.cut_off,
                    state@.limit_by == mid.limit_by,
                    state@.today == mid.today,
                    added == (drawn_all.len() > 0),
                    !added ==> state@ == mid,
                    done ==> (spec_current_spoons(state@.tasks, state@.todays_tasks)
                        >= max || (forall|i: int|
                        0 <= i < mid.tasks.len() && choosable_in(mid, i) ==> drawn_has(
                            drawn_all,
                            i,
                        ))),
                decreases (n_tasks - drawn_all.len()), (if done {
                    0int
                } else {
                    1int
                }),
            {
                let cur = state.current_spoons();
                if cur >= max as u128 {
                    done = true;
                } else {
                    let cands = state.choosable_indices();
                    proof {
                        lemma_choosable_preserved(mid, state@, drawn_all);
                    }
                    if cands.len() == 0 {
                        proof {
                            assert forall|i: int|
                                0 <= i < mid.tasks.len() && choosable_in(mid, i) implies drawn_has(
                                drawn_all,
                                i,
                            ) by {
                                if !drawn_has(drawn_all, i) {
                                    assert(choosable_in(state@, i));
                                    assert(cands@.contains(i as usize));
                                }
                            }
                        }
                        done = true;
                    } else {
                        let drawn1 = state.draw_from(cands, 1, rng);
                        proof {
                            vstd::std_specs::vec::axiom_spec_len(&state.tasks);
                            lemma_drawn_from_cands(
                                state@,
                                cands@,
                                drawn1@,
                                1,
                                state.tasks.len(),
                            );
                        }
                        let ghost cur_pre = state@;
                        let i = drawn1[0];
                        proof {
                            assert(choosable_in(cur_pre, i as int));
                            assert(choosable_in(mid, i as int) && !drawn_has(drawn_all, i as int));
                            assert(cur_pre.tasks[i as int] == mid.tasks[i as int]);
                        }
                        state.commit_drawn(&drawn1);
                        proof {
                            let ghost prev_all = drawn_all;
                            drawn_all = drawn_all.push(i);
                            lemma_drawn_has_push(prev_all, i);
                            assert(drawn_all.no_duplicates()) by {
                                if prev_all.contains(i) {
                                    let k = choose|k: int|
                                        0 <= k < prev_all.len() && prev_all[k] == i;
                                    assert(drawn_has(prev_all, i as int));
                                    assert(false);
                                }
                                assert(forall|k: int|
                                    0 <= k < prev_all.len() ==> #[trigger] drawn_all[k]
                                        == prev_all[k]);
                            }
                            assert forall|p: int|
                                0 <= p < mid.tasks.len() implies #[trigger] state@.tasks[p] == (
                            if drawn_has(drawn_all, p) {
                                chosen_task(mid.tasks[p], mid.today)
                            } else {
                                mid.tasks[p]
                            }) by {
                                if p == i as int {
                                    assert(drawn_has(drawn1@, p));
                                    assert(state@.tasks[p] == chosen_task(
                                        cur_pre.tasks[p],
                                        cur_pre.today,
                                    ));
                                } else {
                                    assert(!drawn_has(drawn1@, p)) by {
                                        if drawn_has(drawn1@, p) {
                                            let k = choose|k: int|
                                                0 <= k < drawn1@.len() && drawn1@[k] == p;
                                            assert(drawn1@.len() == 1);
                                            assert(k == 0);
                                        }
                                    }
                                    assert(state@.tasks[p] == cur_pre.tasks[p]);
                                }
                            }
                            assert forall|x: Seq<char>|
                                slugs_contain(state@.todays_tasks, x) <==> slugs_contain(
                                    mid.todays_tasks,
                                    x,
                                ) || exists|k: int|
                                    0 <= k < drawn_all.len() && mid.tasks[
                                        #[trigger] drawn_all[k] as int
                                    ].config.slug == x by {
                                if slugs_contain(state@.todays_tasks, x) {
                                    if exists|k: int|
                                        0 <= k < drawn1@.len() && cur_pre.tasks[
                                            #[trigger] drawn1@[k] as int
                                        ].config.slug == x {
                                        assert(mid.tasks[i as int].config.slug == x);
                                        assert(drawn_all[drawn_all.len() - 1] == i);
                                    }
                                }
                                if exists|k: int|
                                    0 <= k < drawn_all.len() && mid.tasks[
                                        #[trigger] drawn_all[k] as int
                                    ].config.slug == x {
                                    let k = choose|k: int|
                                        0 <= k < drawn_all.len() && mid.tasks[
                                            #[trigger] drawn_all[k] as int
                                        ].config.slug == x;
                                    if k == drawn_all.len() - 1 {
                                        assert(cur_pre.tasks[i as int].config.slug == x);
                                        assert(drawn1@[0] == i);
                                    }
                                }
                            }
                            lemma_distinct_bounded(drawn_all, n_tasks as usize);
                            assert(drawn_all.len() <= n_tasks);
                        }
                        added = true;
                    }
                }
            }
            if added {
                state.mark_generated(now);
                proof {
                    assert(committed(mid, state@, drawn_all, now));
                    assert(pick_transition_with(pre, state@, now, true, drawn_all));
                }
                true
            } else {
                proof {
                    assert(state@ == mid);
                    assert(pick_transition_with(pre, state@, now, false, drawn_all));
                }
                false
            }
        },
    }
}

} // verus!
