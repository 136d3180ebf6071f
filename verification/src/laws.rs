//! The properties the library stands on, proved once and for all: the
//! eligibility gates, idempotence of the daily pick, the rollover discard,
//! and the document round trip.

use vstd::prelude::*;
use crate::dates::{Timestamp, spec_day_with_cutoff};
use crate::picker::{
    pick_transition, pick_transition_with, after_clear, rolled_over, committed, drawn_valid,
    drawn_has, chosen_task, tasks_picked, lemma_choosable_preserved, choosable_in,
};
use crate::state::{
    StateV, state_wf, distinct_slugs, dedup_cfgs, first_state_for, orphan_slugs,
};
use crate::config::{LimitTasksBy, has_cfg_slug};
use crate::task::{TaskV, spec_choosable, spec_disabled};
use crate::task_config::{TaskConfigV};
use crate::task_set::slugs_contain;
use crate::task_state::TaskState;
use crate::Day;

verus! {

/// A task whose completion limit is reached is never choosable, whatever
/// its other state.
pub proof fn lemma_max_occurrences_exhausted(
    c: TaskConfigV,
    s: TaskState,
    today: int,
    in_todays: bool,
    n: u32,
)
    requires
        c.max_occurrences == Some(n),
        s.times_completed >= n,
    ensures
        !spec_choosable(c, s, today, in_todays),
{
}

/// With a minimum frequency `d` and a last selection `k` days ago, and
/// every other eligibility condition met, the task is choosable exactly
/// when at least `d` days have passed.
pub proof fn lemma_min_frequency_gate(
    c: TaskConfigV,
    s: TaskState,
    today: int,
    in_todays: bool,
    d: u32,
    lc: Day,
    k: int,
)
    requires
        c.min_frequency == Some(d),
        s.last_chosen == Some(lc),
        k == today - lc,
        !spec_disabled(c, s, today),
        !in_todays,
        (c.max_occurrences matches Some(m) ==> s.times_completed < m),
    ensures
        spec_choosable(c, s, today, in_todays) <==> k >= d,
{
}

/// Running the picker twice within one effective day, with no other change
/// in between, reports nothing added the second time and leaves the state
/// exactly as the first run left it.
pub proof fn lemma_pick_idempotent(
    s0: StateV,
    s1: StateV,
    s2: StateV,
    now1: Timestamp,
    now2: Timestamp,
    b1: bool,
    b2: bool,
)
    requires
        state_wf(s0),
        pick_transition(s0, s1, now1, b1),
        pick_transition(s1, s2, now2, b2),
        spec_day_with_cutoff(now1, s0.cut_off) == s0.today,
    ensures
        b2 == false,
        s2 == s1,
{
    let drawn1 = choose|d: Seq<usize>| pick_transition_with(s0, s1, now1, b1, d);
    let drawn2 = choose|d: Seq<usize>| pick_transition_with(s1, s2, now2, b2, d);
    let mid0 = after_clear(s0);
    // after the first run, the effective day never lies past the pick instant
    assert(s1.cut_off == s0.cut_off && s1.today == s0.today && s1.limit_by == s0.limit_by);
    let mid1 = after_clear(s1);
    assert(mid1 == s1) by {
        if rolled_over(s1) {
            // only possible when the first run changed nothing after a
            // rollover, which had already emptied today's set
            assert(s1.todays_tasks == Seq::<Seq<char>>::empty());
        }
    }
    match s0.limit_by {
        LimitTasksBy::Tasks { tasks: target } => {
            let needed0 = target - mid0.todays_tasks.len();
            let needed1 = target - s1.todays_tasks.len();
            if needed0 <= 0 {
                assert(s1 == mid0);
                assert(needed1 <= 0);
            } else if !b1 {
                assert(s1 == mid0);
                assert(drawn1.len() == 0);
                // no task was choosable, and nothing has changed since
                assert(forall|i: int|
                    0 <= i < mid0.tasks.len() ==> !choosable_in(mid0, i));
                if needed1 > 0 {
                    assert(drawn2.len() == 0) by {
                        if drawn2.len() > 0 {
                            assert(choosable_in(s1, drawn2[0] as int));
                        }
                    }
                }
            } else {
                // the first run committed a draw
                assert(committed(mid0, s1, drawn1, now1));
                assert(s1.todays_tasks.len() == mid0.todays_tasks.len() + drawn1.len());
                if drawn1.len() == needed0 {
                    assert(needed1 <= 0);
                } else {
                    // the candidate pool was exhausted
                    assert(forall|i: int|
                        0 <= i < mid0.tasks.len() && choosable_in(mid0, i) ==> drawn_has(
                            drawn1,
                            i,
                        ));
                    lemma_choosable_preserved(mid0, s1, drawn1);
                    assert(needed1 > 0);
                    assert(drawn2.len() == 0) by {
                        if drawn2.len() > 0 {
                            assert(choosable_in(s1, drawn2[0] as int));
                            assert(choosable_in(mid0, drawn2[0] as int) && !drawn_has(
                                drawn1,
                                drawn2[0] as int,
                            ));
                        }
                    }
                }
            }
        },
        LimitTasksBy::Spoons { spoons: max } => {
            let spoons0 = crate::state::spec_current_spoons(mid0.tasks, mid0.todays_tasks);
            if spoons0 >= max {
                assert(s1 == mid0);
                assert(crate::state::spec_current_spoons(s1.tasks, s1.todays_tasks) >= max);
            } else if !b1 {
                assert(s1 == mid0);
                assert(forall|i: int| 0 <= i < mid0.tasks.len() ==> !choosable_in(mid0, i));
                if crate::state::spec_current_spoons(s1.tasks, s1.todays_tasks) < max {
                    assert(drawn2.len() == 0) by {
                        if drawn2.len() > 0 {
                            assert(choosable_in(s1, drawn2[0] as int));
                        }
                    }
                }
            } else {
                assert(committed(mid0, s1, drawn1, now1));
                if crate::state::spec_current_spoons(s1.tasks, s1.todays_tasks) < max {
                    // the first run stopped because no choosable task remained
                    assert(forall|i: int|
                        0 <= i < mid0.tasks.len() && choosable_in(mid0, i) ==> drawn_has(
                            drawn1,
                            i,
                        ));
                    lemma_choosable_preserved(mid0, s1, drawn1);
                    assert(drawn2.len() == 0) by {
                        if drawn2.len() > 0 {
                            assert(choosable_in(s1, drawn2[0] as int));
                            assert(choosable_in(mid0, drawn2[0] as int) && !drawn_has(
                                drawn1,
                                drawn2[0] as int,
                            ));
                        }
                    }
                }
            }
        },
    }
}

/// After a day rollover, the pick discards the stale set: every slug in
/// today's set afterwards belongs to a task freshly selected by this very
/// run, whatever the completion status of the tasks chosen before.
pub proof fn lemma_rollover_discards(s0: StateV, s1: StateV, now: Timestamp, b: bool)
    requires
        state_wf(s0),
        pick_transition(s0, s1, now, b),
        rolled_over(s0),
    ensures
        forall|x: Seq<char>|
            slugs_contain(s1.todays_tasks, x) ==> exists|i: int|
                0 <= i < s0.tasks.len() && (#[trigger] s0.tasks[i]).config.slug == x
                    && s1.tasks[i].state.last_chosen == Some(s0.today)
                    && s1.tasks[i].state.completed == false,
{
    let drawn = choose|d: Seq<usize>| pick_transition_with(s0, s1, now, b, d);
    let mid = after_clear(s0);
    assert(mid.todays_tasks == Seq::<Seq<char>>::empty());
    assert forall|x: Seq<char>| slugs_contain(s1.todays_tasks, x) implies exists|i: int|
        0 <= i < s0.tasks.len() && (#[trigger] s0.tasks[i]).config.slug == x && s1.tasks[
        i
    ].state.last_chosen == Some(s0.today) && s1.tasks[i].state.completed == false by {
        if b {
            assert(committed(mid, s1, drawn, now));
            assert(!slugs_contain(mid.todays_tasks, x));
            let k = choose|k: int|
                0 <= k < drawn.len() && mid.tasks[#[trigger] drawn[k] as int].config.slug == x;
            let i = drawn[k] as int;
            assert(drawn_has(drawn, i));
            assert(s1.tasks[i] == chosen_task(mid.tasks[i], mid.today));
            assert(s0.tasks[i].config.slug == x);
        } else {
            assert(s1 == mid);
            assert(!slugs_contain(s1.todays_tasks, x));
        }
    }
}

/// Deduplicating a catalog whose slugs are already unique changes nothing.
proof fn lemma_dedup_distinct(acc: Seq<TaskConfigV>, rest: Seq<TaskConfigV>)
    requires
        forall|i: int, j: int|
            0 <= i < j < (acc + rest).len() ==> (#[trigger] (acc + rest)[i]).slug != (
            #[trigger] (acc + rest)[j]).slug,
    ensures
        dedup_cfgs(acc, rest) == acc + rest,
    decreases rest.len(),
{
    if rest.len() == 0 {
        assert(acc + rest =~= acc);
    } else {
        assert(!has_cfg_slug(acc, rest[0].slug)) by {
            if has_cfg_slug(acc, rest[0].slug) {
                let i = choose|i: int| 0 <= i < acc.len() && acc[i].slug == rest[0].slug;
                assert((acc + rest)[i].slug == (acc + rest)[acc.len() as int].slug);
            }
        }
        assert(acc.push(rest[0]) + rest.skip(1) =~= acc + rest);
        lemma_dedup_distinct(acc.push(rest[0]), rest.skip(1));
    }
}

/// In a map with unique slugs, looking a slug up finds its own state.
proof fn lemma_first_state_roundtrip(ts: Seq<TaskV>, k: int)
    requires
        distinct_slugs(ts),
        0 <= k < ts.len(),
    ensures
        first_state_for(ts.map_values(|t: TaskV| (t.config.slug, t.state)), ts[k].config.slug)
            == ts[k].state,
    decreases ts.len(),
{
    let pairs = ts.map_values(|t: TaskV| (t.config.slug, t.state));
    if k == 0 {
        assert(pairs[0] == (ts[0].config.slug, ts[0].state));
    } else {
        assert(pairs[0].0 == ts[0].config.slug);
        assert(ts[0].config.slug != ts[k].config.slug);
        assert(pairs.skip(1) =~= ts.skip(1).map_values(|t: TaskV| (t.config.slug, t.state)));
        assert(distinct_slugs(ts.skip(1))) by {
            assert(forall|i: int|
                0 <= i < ts.skip(1).len() ==> #[trigger] ts.skip(1)[i] == ts[i + 1]);
        }
        lemma_first_state_roundtrip(ts.skip(1), k - 1);
        assert(ts.skip(1)[k - 1] == ts[k]);
    }
}

/// A state document whose every record matches the catalog reports no
/// orphans.
proof fn lemma_no_orphans(states: Seq<(Seq<char>, TaskState)>, cfgs: Seq<TaskConfigV>)
    requires
        forall|j: int| 0 <= j < states.len() ==> has_cfg_slug(cfgs, (#[trigger] states[j]).0),
    ensures
        orphan_slugs(states, cfgs) == Seq::<Seq<char>>::empty(),
    decreases states.len(),
{
    if states.len() > 0 {
        assert(forall|j: int|
            0 <= j < states.skip(1).len() ==> #[trigger] states.skip(1)[j] == states[j + 1]);
        lemma_no_orphans(states.skip(1), cfgs);
    }
}

/// Round trip: the documents a state writes out reconcile back into the
/// very same catalog and task-state map, with no orphans.  Together with
/// the contracts of the save and load steps, saving then loading
/// reproduces the task map, today's set and the pick instant; only the
/// memoized effective day is recomputed.
pub proof fn lemma_docs_round_trip(s: StateV)
    requires
        state_wf(s),
    ensures
        dedup_cfgs(Seq::empty(), s.tasks.map_values(|t: TaskV| t.config)) == s.tasks.map_values(
            |t: TaskV| t.config,
        ),
        forall|k: int|
            0 <= k < s.tasks.len() ==> first_state_for(
                s.tasks.map_values(|t: TaskV| (t.config.slug, t.state)),
                (#[trigger] s.tasks[k]).config.slug,
            ) == s.tasks[k].state,
        orphan_slugs(
            s.tasks.map_values(|t: TaskV| (t.config.slug, t.state)),
            s.tasks.map_values(|t: TaskV| t.config),
        ) == Seq::<Seq<char>>::empty(),
{
    let cfgs = s.tasks.map_values(|t: TaskV| t.config);
    let pairs = s.tasks.map_values(|t: TaskV| (t.config.slug, t.state));
    assert(dedup_cfgs(Seq::empty(), cfgs) == cfgs) by {
        assert(Seq::<TaskConfigV>::empty() + cfgs =~= cfgs);
        lemma_dedup_distinct(Seq::empty(), cfgs);
    }
    assert forall|k: int|
        0 <= k < s.tasks.len() implies first_state_for(
        pairs,
        (#[trigger] s.tasks[k]).config.slug,
    ) == s.tasks[k].state by {
        lemma_first_state_roundtrip(s.tasks, k);
    }
    assert(orphan_slugs(pairs, cfgs) == Seq::<Seq<char>>::empty()) by {
        assert forall|j: int| 0 <= j < pairs.len() implies has_cfg_slug(
            cfgs,
            (#[trigger] pairs[j]).0,
        ) by {
            assert(cfgs[j].slug == pairs[j].0);
        }
        lemma_no_orphans(pairs, cfgs);
    }
}

} // verus!
