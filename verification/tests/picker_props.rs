use randd_tasks::config::{Config, LimitTasksBy};
use randd_tasks::dates::Timestamp;
use randd_tasks::picker::{pick_tasks, pick_todays_tasks, RngSource};
use randd_tasks::state::{State, StateModel};
use randd_tasks::task_config::{TaskBuilder, TaskConfig};

const NOW: Timestamp = Timestamp { day: 2_460_000, secs: 36_000 };

fn weighted_task(title: &str, slug: &str, weight: u64) -> TaskConfig {
    let mut b = TaskBuilder::default();
    b.task = Some(title.to_string());
    b.slug(slug.to_string());
    b.weight = Some(weight);
    b.build().unwrap()
}

fn state_with(cfgs: Vec<TaskConfig>, limit_by: LimitTasksBy) -> State {
    let mut config = Config::default();
    config.limit_by = limit_by;
    for c in cfgs {
        config.add_task(c).unwrap();
    }
    let model = StateModel::fresh(NOW);
    let (state, orphans) = State::reconcile(config, model, NOW);
    assert!(orphans.is_empty());
    state
}

fn todays(state: &State) -> Vec<String> {
    state.todays_tasks().to_vec()
}

#[test]
fn picker_fills_the_quota() {
    let mut state = state_with(
        vec![
            weighted_task("A", "a", 1_000),
            weighted_task("B", "b", 1_000),
            weighted_task("C", "c", 1_000),
        ],
        LimitTasksBy::Tasks { tasks: 2 },
    );
    let mut rng = RngSource::from_seed(11);
    let changed = pick_todays_tasks(&mut state, &mut rng, NOW);
    assert!(changed);
    assert_eq!(todays(&state).len(), 2);
    assert_eq!(state.last_generated(), NOW);
}

#[test]
fn picker_partial_fill_is_not_an_error() {
    // quota of five, but only two tasks exist: a partial fill
    let mut state = state_with(
        vec![weighted_task("A", "a", 1_000), weighted_task("B", "b", 1_000)],
        LimitTasksBy::Tasks { tasks: 5 },
    );
    let mut rng = RngSource::from_seed(3);
    let changed = pick_todays_tasks(&mut state, &mut rng, NOW);
    assert!(changed);
    let mut got = todays(&state);
    got.sort();
    assert_eq!(got, vec!["a".to_string(), "b".to_string()]);
}

#[test]
fn picker_twice_in_one_day_changes_nothing() {
    // idempotence: the second run reports nothing changed and leaves the
    // state exactly as the first run left it
    let mut state = state_with(
        vec![
            weighted_task("A", "a", 1_000),
            weighted_task("B", "b", 1_000),
            weighted_task("C", "c", 1_000),
        ],
        LimitTasksBy::Tasks { tasks: 2 },
    );
    let mut rng = RngSource::from_seed(5);
    assert!(pick_todays_tasks(&mut state, &mut rng, NOW));
    let first = todays(&state);
    let first_gen = state.last_generated();
    let first_states: Vec<_> = state.tasks().iter().map(|t| t.state).collect();

    let changed = pick_todays_tasks(&mut state, &mut rng, NOW);
    assert!(!changed);
    assert_eq!(todays(&state), first);
    assert_eq!(state.last_generated(), first_gen);
    let second_states: Vec<_> = state.tasks().iter().map(|t| t.state).collect();
    assert_eq!(first_states, second_states);
}

#[test]
fn day_rollover_discards_the_stale_set() {
    let mut state = state_with(
        vec![weighted_task("A", "a", 1_000), weighted_task("B", "b", 1_000)],
        LimitTasksBy::Tasks { tasks: 1 },
    );
    let mut rng = RngSource::from_seed(9);
    assert!(pick_todays_tasks(&mut state, &mut rng, NOW));
    let yesterday = todays(&state);
    assert_eq!(yesterday.len(), 1);
    // complete it; a completed task still leaves the set on rollover
    state.complete_task(&yesterday[0]).unwrap();

    let tomorrow = Timestamp { day: NOW.day + 1, secs: NOW.secs };
    // a later invocation loads the documents anew and memoizes the new day
    let (cfg, model) = state.to_docs();
    let (mut fresh, orphans) = State::reconcile(cfg, model, tomorrow);
    assert!(orphans.is_empty());
    assert!(pick_todays_tasks(&mut fresh, &mut rng, tomorrow));
    let now_set = todays(&fresh);
    assert_eq!(now_set.len(), 1);
    // everything in the new set was freshly chosen today
    for slug in &now_set {
        let t = fresh.get_task(slug).unwrap();
        assert_eq!(t.state.last_chosen, Some(fresh.todays_date()));
        assert!(!t.state.completed);
    }
}

#[test]
fn disabled_task_is_never_picked() {
    // catalog = {A: weight 1, disabled}, {B: weight 1, enabled}, one task a
    // day: the picker always selects B
    for seed in 0..40 {
        let mut a = weighted_task("A", "a", 1_000);
        a.disable();
        let b = weighted_task("B", "b", 1_000);
        let mut state = state_with(vec![a, b], LimitTasksBy::Tasks { tasks: 1 });
        let mut rng = RngSource::from_seed(seed);
        assert!(pick_todays_tasks(&mut state, &mut rng, NOW));
        assert_eq!(todays(&state), vec!["b".to_string()]);
    }
}

#[test]
fn zero_weight_yields_to_weighted_tasks() {
    for seed in 0..40 {
        let mut state = state_with(
            vec![weighted_task("Z", "z", 0), weighted_task("W", "w", 1_000)],
            LimitTasksBy::Tasks { tasks: 1 },
        );
        let mut rng = RngSource::from_seed(seed);
        assert!(pick_todays_tasks(&mut state, &mut rng, NOW));
        assert_eq!(todays(&state), vec!["w".to_string()]);
    }
}

#[test]
fn zero_weight_still_fills_an_otherwise_unmet_quota() {
    let mut state = state_with(
        vec![weighted_task("Z", "z", 0), weighted_task("W", "w", 1_000)],
        LimitTasksBy::Tasks { tasks: 2 },
    );
    let mut rng = RngSource::from_seed(2);
    assert!(pick_todays_tasks(&mut state, &mut rng, NOW));
    let mut got = todays(&state);
    got.sort();
    assert_eq!(got, vec!["w".to_string(), "z".to_string()]);
}

#[test]
fn selection_frequency_grows_with_weight() {
    // over many runs, the heavier task is selected more often
    let trials = 2_000;
    let mut heavy = 0;
    let mut light = 0;
    for seed in 0..trials {
        let mut state = state_with(
            vec![weighted_task("L", "light", 1_000), weighted_task("H", "heavy", 3_000)],
            LimitTasksBy::Tasks { tasks: 1 },
        );
        let mut rng = RngSource::from_seed(seed);
        assert!(pick_todays_tasks(&mut state, &mut rng, NOW));
        match todays(&state)[0].as_str() {
            "heavy" => heavy += 1,
            "light" => light += 1,
            other => panic!("unexpected slug {other}"),
        }
    }
    assert_eq!(heavy + light, trials);
    assert!(heavy > light, "heavy {heavy} vs light {light}");
}

#[test]
fn pick_tasks_marks_the_chosen_ones() {
    let mut state = state_with(
        vec![weighted_task("A", "a", 1_000), weighted_task("B", "b", 1_000)],
        LimitTasksBy::Tasks { tasks: 1 },
    );
    let mut rng = RngSource::from_seed(4);
    let picked = pick_tasks(1, &mut state, &mut rng);
    assert_eq!(picked.len(), 1);
    let t = state.get_task(&picked[0]).unwrap();
    assert_eq!(t.state.last_chosen, Some(state.todays_date()));
    // pick_tasks leaves today's set to its caller
    assert!(todays(&state).is_empty());
}

#[test]
fn spoon_budget_stops_the_draw() {
    // three tasks of three spoons each; a budget of five holds two of them
    let mut state = state_with(
        vec![
            weighted_task("A", "a", 1_000),
            weighted_task("B", "b", 1_000),
            weighted_task("C", "c", 1_000),
        ],
        LimitTasksBy::Spoons { spoons: 5 },
    );
    let mut rng = RngSource::from_seed(8);
    assert!(pick_todays_tasks(&mut state, &mut rng, NOW));
    assert_eq!(todays(&state).len(), 2);
    assert_eq!(state.current_spoons(), 6);
    // the budget is now exhausted; a second run adds nothing
    assert!(!pick_todays_tasks(&mut state, &mut rng, NOW));
    assert_eq!(todays(&state).len(), 2);
}
