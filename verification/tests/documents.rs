use randd_tasks::commands::{
    CompleteTaskCommand, DisableTaskCommand, GetTodaysTasksCommand, RefreshTodaysTasksCommand,
    ResetTodaysTasksCommand, SetTodaysTasksCommand, TaskDetailsCommand,
};
use randd_tasks::task_config::DisabledOptions;
use randd_tasks::config::{Config, LimitTasksBy};
use randd_tasks::dates::Timestamp;
use randd_tasks::error::RanddGoalsError;
use randd_tasks::picker::{pick_todays_tasks, RngSource};
use randd_tasks::state::{State, StateModel};
use randd_tasks::task::TaskStatus;
use randd_tasks::task_config::{TaskBuilder, TaskConfig};
use randd_tasks::task_set::TaskSet;
use randd_tasks::task_state::TaskState;

const NOW: Timestamp = Timestamp { day: 2_460_000, secs: 36_000 };

fn named_task(title: &str, slug: &str) -> TaskConfig {
    let mut b = TaskBuilder::default();
    b.task = Some(title.to_string());
    b.slug(slug.to_string());
    b.build().unwrap()
}

fn full_state() -> State {
    let mut config = Config::default();
    config.limit_by = LimitTasksBy::Tasks { tasks: 2 };
    config.add_task(named_task("Water the plants", "plants")).unwrap();
    config.add_task(named_task("Take a walk", "walk")).unwrap();
    config.add_task(named_task("Read a chapter", "read")).unwrap();
    let model = StateModel::fresh(NOW);
    let (mut state, orphans) = State::reconcile(config, model, NOW);
    assert!(orphans.is_empty());
    let mut rng = RngSource::from_seed(21);
    assert!(pick_todays_tasks(&mut state, &mut rng, NOW));
    state.complete_task("plants").ok();
    state
}

#[test]
fn saving_then_loading_reproduces_the_state() {
    // round trip: the two documents reproduce catalog, task states, the
    // set of today's tasks and the pick instant
    let state = full_state();
    let (config, model) = state.to_docs();
    let (reloaded, orphans) = State::reconcile(config, model, NOW);
    assert!(orphans.is_empty());

    assert_eq!(state.task_names(), reloaded.task_names());
    for slug in state.task_names() {
        let a = state.get_task(&slug).unwrap();
        let b = reloaded.get_task(&slug).unwrap();
        assert_eq!(a.config.slug, b.config.slug);
        assert_eq!(a.config.task, b.config.task);
        assert_eq!(a.config.description, b.config.description);
        assert_eq!(a.config.weight, b.config.weight);
        assert_eq!(a.config.spoons, b.config.spoons);
        assert_eq!(a.config.max_occurrences, b.config.max_occurrences);
        assert_eq!(a.config.min_frequency, b.config.min_frequency);
        assert_eq!(a.config.disabled, b.config.disabled);
        assert_eq!(a.config.tags, b.config.tags);
        assert_eq!(a.state, b.state);
    }
    assert_eq!(state.todays_tasks().to_vec(), reloaded.todays_tasks().to_vec());
    assert_eq!(state.last_generated(), reloaded.last_generated());
    assert_eq!(state.cut_off(), reloaded.cut_off());
    assert_eq!(state.limit_by(), reloaded.limit_by());
}

#[test]
fn orphaned_state_records_are_reported_not_fatal() {
    let mut config = Config::default();
    config.add_task(named_task("Water the plants", "plants")).unwrap();
    let mut model = StateModel::fresh(NOW);
    model.tasks.push(("plants".to_string(), TaskState::default()));
    model.tasks.push(("gone".to_string(), TaskState::default()));
    model.todays_tasks.insert("gone".to_string());
    let (state, orphans) = State::reconcile(config, model, NOW);
    assert_eq!(orphans, vec!["gone".to_string()]);
    assert_eq!(state.task_names(), vec!["plants".to_string()]);
    // the stale slug in today's set is tolerated
    assert!(state.todays_tasks().contains("gone"));
}

#[test]
fn catalog_entry_without_state_gets_a_fresh_one() {
    let mut config = Config::default();
    config.add_task(named_task("Water the plants", "plants")).unwrap();
    let model = StateModel::fresh(NOW);
    let (state, orphans) = State::reconcile(config, model, NOW);
    assert!(orphans.is_empty());
    let t = state.get_task("plants").unwrap();
    assert_eq!(t.state, TaskState::default());
}

#[test]
fn import_skips_duplicates_without_failing() {
    let mut state = {
        let mut config = Config::default();
        config.add_task(named_task("Water the plants", "plants")).unwrap();
        let (s, _) = State::reconcile(config, StateModel::fresh(NOW), NOW);
        s
    };
    let skipped = state.import_tasks(
        vec![
            named_task("Water the plants again", "plants"),
            named_task("Take a walk", "walk"),
        ],
        false,
    );
    assert_eq!(skipped, vec!["plants".to_string()]);
    assert_eq!(state.task_names(), vec!["plants".to_string(), "walk".to_string()]);
    // the duplicate was skipped, not merged
    assert_eq!(state.get_task("plants").unwrap().config.task, "Water the plants");
}

#[test]
fn import_with_update_merges_duplicates() {
    let mut state = {
        let mut config = Config::default();
        config.add_task(named_task("Water the plants", "plants")).unwrap();
        let (s, _) = State::reconcile(config, StateModel::fresh(NOW), NOW);
        s
    };
    let skipped = state.import_tasks(
        vec![named_task("Water the plants thoroughly", "plants")],
        true,
    );
    assert!(skipped.is_empty());
    assert_eq!(
        state.get_task("plants").unwrap().config.task,
        "Water the plants thoroughly"
    );
}

#[test]
fn complete_command_handles_all_of_todays() {
    let mut state = full_state();
    let cmd = CompleteTaskCommand { all: true, tasks: Vec::new() };
    cmd.run(&mut state).unwrap();
    for slug in state.todays_tasks().to_vec() {
        assert!(state.get_task(&slug).unwrap().state.completed);
    }
}

#[test]
fn details_command_lists_the_catalog_when_unscoped() {
    let state = full_state();
    let cmd = TaskDetailsCommand { tasks: Vec::new() };
    let infos = cmd.run(&state);
    assert_eq!(infos.len(), 3);
    let slugs: Vec<_> = infos.iter().map(|i| i.slug.clone()).collect();
    assert_eq!(slugs, state.task_names());
    for info in &infos {
        if state.todays_tasks().contains(&info.slug) {
            assert!(matches!(info.status, TaskStatus::Complete | TaskStatus::InProgress));
        } else {
            assert_eq!(info.status, TaskStatus::Inactive);
        }
    }
}

#[test]
fn set_command_replaces_todays_set() {
    let mut state = full_state();
    let cmd = SetTodaysTasksCommand { tasks: vec!["read".to_string()] };
    cmd.run(&mut state).unwrap();
    assert_eq!(state.todays_tasks().to_vec(), vec!["read".to_string()]);

    let bad = SetTodaysTasksCommand { tasks: vec!["missing".to_string()] };
    assert!(matches!(
        bad.run(&mut state),
        Err(RanddGoalsError::TaskNotFound { .. })
    ));
    assert_eq!(state.todays_tasks().to_vec(), vec!["read".to_string()]);
}

#[test]
fn refresh_command_replaces_listed_tasks() {
    let mut state = full_state();
    let before = state.todays_tasks().to_vec();
    let target = before[0].clone();
    let cmd = RefreshTodaysTasksCommand { completed: false, tasks: vec![target.clone()] };
    let mut rng = RngSource::from_seed(33);
    let changed = cmd.run(&mut state, &mut rng, NOW).unwrap();
    assert!(changed);
    let after = state.todays_tasks().to_vec();
    assert_eq!(after.len(), before.len());

    let bad = RefreshTodaysTasksCommand { completed: false, tasks: vec!["absent".to_string()] };
    assert!(matches!(
        bad.run(&mut state, &mut rng, NOW),
        Err(RanddGoalsError::TaskNotFound { .. })
    ));
}

#[test]
fn reset_command_redraws_everything() {
    let mut state = full_state();
    let cmd = ResetTodaysTasksCommand {};
    let mut rng = RngSource::from_seed(13);
    let changed = cmd.run(&mut state, &mut rng, NOW);
    assert!(changed);
    assert_eq!(state.todays_tasks().len(), 2);
    // everything in the set was freshly drawn
    for slug in state.todays_tasks().to_vec() {
        let t = state.get_task(&slug).unwrap();
        assert_eq!(t.state.last_chosen, Some(state.todays_date()));
        assert!(!t.state.completed);
    }
}

#[test]
fn get_command_reports_todays_summaries() {
    let mut config = Config::default();
    config.limit_by = LimitTasksBy::Tasks { tasks: 1 };
    config.add_task(named_task("Water the plants", "plants")).unwrap();
    let (mut state, _) = State::reconcile(config, StateModel::fresh(NOW), NOW);
    let cmd = GetTodaysTasksCommand { notify: false, quiet: false };
    let mut rng = RngSource::from_seed(17);
    let (changed, infos) = cmd.run(&mut state, &mut rng, NOW);
    assert!(changed);
    assert_eq!(infos.len(), 1);
    assert_eq!(infos[0].slug, "plants");
    assert_eq!(infos[0].status, TaskStatus::InProgress);
}

#[test]
fn duplicate_catalog_entries_keep_the_first_definition() {
    // a hand-edited catalog may duplicate a slug; the first wins
    let config = Config {
        tasks: vec![
            named_task("First definition", "twin"),
            named_task("Second definition", "twin"),
        ],
        cut_off: 14_400,
        limit_by: LimitTasksBy::Tasks { tasks: 1 },
    };
    let (state, orphans) = State::reconcile(config, StateModel::fresh(NOW), NOW);
    assert!(orphans.is_empty());
    assert_eq!(state.task_names(), vec!["twin".to_string()]);
    assert_eq!(state.get_task("twin").unwrap().config.task, "First definition");
}

#[test]
fn fresh_model_forces_a_first_day_rollover() {
    let model = StateModel::fresh(NOW);
    // exactly one day earlier at the same time of day, so the effective
    // dates differ whatever the cut-off
    assert_eq!(
        model.last_generated,
        Timestamp { day: NOW.day - 1, secs: NOW.secs }
    );
    assert!(model.tasks.is_empty());
    assert_eq!(model.todays_tasks.len(), 0);
    let _unused: TaskSet = model.todays_tasks;
}

#[test]
fn disable_command_for_days_sets_a_window() {
    let mut state = full_state();
    let cmd = DisableTaskCommand { until: None, for_: Some(3), tasks: vec!["walk".to_string()] };
    cmd.run(&mut state).unwrap();
    let today = state.todays_date();
    let t = state.get_task("walk").unwrap();
    assert_eq!(t.config.disabled, DisabledOptions::For(3));
    assert_eq!(t.state.disabled_on, Some(today));
    assert!(t.disabled(today + 2));
    assert!(!t.disabled(today + 3));
}

#[test]
fn disable_command_until_sets_a_bound() {
    let mut state = full_state();
    let today = state.todays_date();
    let cmd = DisableTaskCommand {
        until: Some(today + 1),
        for_: None,
        tasks: vec!["walk".to_string()],
    };
    cmd.run(&mut state).unwrap();
    let t = state.get_task("walk").unwrap();
    assert_eq!(t.config.disabled, DisabledOptions::Until(today + 1));
    assert!(t.disabled(today + 1));
    assert!(!t.disabled(today + 2));
}

#[test]
fn disable_command_without_flags_is_the_plain_toggle() {
    let mut state = full_state();
    let cmd = DisableTaskCommand { until: None, for_: None, tasks: vec!["walk".to_string()] };
    cmd.run(&mut state).unwrap();
    assert_eq!(
        state.get_task("walk").unwrap().config.disabled,
        DisabledOptions::Disabled
    );
}

#[test]
fn refresh_error_keeps_the_drops_already_applied() {
    let mut state = full_state();
    let before = state.todays_tasks().to_vec();
    assert_eq!(before.len(), 2);
    let first = before[0].clone();
    let cmd = RefreshTodaysTasksCommand {
        completed: false,
        tasks: vec![first.clone(), "absent".to_string()],
    };
    let mut rng = RngSource::from_seed(6);
    match cmd.run(&mut state, &mut rng, NOW) {
        Err(RanddGoalsError::TaskNotFound { slug }) => assert_eq!(slug, "absent"),
        other => panic!("expected TaskNotFound, got {:?}", other.err()),
    }
    // the drop before the failure stuck; no replacement was drawn
    let after = state.todays_tasks().to_vec();
    assert!(!after.contains(&first));
    assert_eq!(after.len(), 1);
}

#[test]
fn refresh_with_completed_replaces_finished_tasks() {
    let mut state = full_state();
    let before = state.todays_tasks().to_vec();
    // full_state completed "plants" if it was drawn; complete everything to
    // make the target set definite
    for slug in &before {
        state.complete_task(slug).unwrap();
    }
    let cmd = RefreshTodaysTasksCommand { completed: true, tasks: Vec::new() };
    let mut rng = RngSource::from_seed(7);
    let changed = cmd.run(&mut state, &mut rng, NOW).unwrap();
    assert!(changed);
    // the set was refilled and nothing in it is completed
    for slug in state.todays_tasks().to_vec() {
        assert!(!state.get_task(&slug).unwrap().state.completed);
    }
}
