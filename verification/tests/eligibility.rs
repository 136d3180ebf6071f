use randd_tasks::task::{Task, TaskStatus};
use randd_tasks::task_config::{DisabledOptions, TaskBuilder, TaskConfig};
use randd_tasks::task_state::TaskState;

fn plain_task(title: &str) -> TaskConfig {
    let mut b = TaskBuilder::default();
    b.task = Some(title.to_string());
    b.build().unwrap()
}

fn fresh_state() -> TaskState {
    TaskState::default()
}

const TODAY: i32 = 2_460_000;

#[test]
fn enabled_task_is_not_disabled() {
    let t = Task::new(plain_task("Water plants"), fresh_state());
    assert!(!t.disabled(TODAY));
}

#[test]
fn disabled_task_is_disabled() {
    let mut cfg = plain_task("Water plants");
    cfg.disable();
    let t = Task::new(cfg, fresh_state());
    assert!(t.disabled(TODAY));
}

#[test]
fn until_is_inclusive() {
    let mut cfg = plain_task("Water plants");
    cfg.disabled = DisabledOptions::Until(TODAY);
    let t = Task::new(cfg, fresh_state());
    assert!(t.disabled(TODAY));
    let mut cfg2 = plain_task("Water plants");
    cfg2.disabled = DisabledOptions::Until(TODAY - 1);
    let t2 = Task::new(cfg2, fresh_state());
    assert!(!t2.disabled(TODAY));
}

#[test]
fn disabled_for_window() {
    // disabled = For(3), disabled_on = today - 2: still disabled
    let mut cfg = plain_task("Water plants");
    cfg.disabled = DisabledOptions::For(3);
    let mut st = fresh_state();
    st.disabled_on = Some(TODAY - 2);
    let t = Task::new(cfg, st);
    assert!(t.disabled(TODAY));
    // disabled_on = today - 3: no longer disabled
    let mut cfg2 = plain_task("Water plants");
    cfg2.disabled = DisabledOptions::For(3);
    let mut st2 = fresh_state();
    st2.disabled_on = Some(TODAY - 3);
    let t2 = Task::new(cfg2, st2);
    assert!(!t2.disabled(TODAY));
}

#[test]
fn max_occurrences_blocks_choosing() {
    // once times_completed reaches the limit the task is never choosable
    let mut cfg = plain_task("Water plants");
    cfg.max_occurrences = Some(2);
    let mut st = fresh_state();
    st.times_completed = 2;
    let t = Task::new(cfg, st);
    assert!(!t.choosable(TODAY, false));

    let mut cfg2 = plain_task("Water plants");
    cfg2.max_occurrences = Some(2);
    let mut st2 = fresh_state();
    st2.times_completed = 1;
    let t2 = Task::new(cfg2, st2);
    assert!(t2.choosable(TODAY, false));
}

#[test]
fn min_frequency_blocks_until_gap_passes() {
    // choosable exactly when the last selection lies at least D days back
    for k in 0..6 {
        let mut cfg = plain_task("Water plants");
        cfg.min_frequency = Some(3);
        let mut st = TaskState::default();
        st.last_chosen = Some(TODAY - k);
        let t = Task::new(cfg, st);
        assert_eq!(t.choosable(TODAY, false), k >= 3, "k = {k}");
    }
}

#[test]
fn min_frequency_without_history_is_open() {
    let mut cfg = plain_task("Water plants");
    cfg.min_frequency = Some(3);
    let t = Task::new(cfg, TaskState::default());
    assert!(t.choosable(TODAY, false));
}

#[test]
fn membership_in_todays_blocks_choosing() {
    let t = Task::new(plain_task("Water plants"), fresh_state());
    assert!(t.choosable(TODAY, false));
    assert!(!t.choosable(TODAY, true));
}

#[test]
fn status_reflects_membership_and_completion() {
    let t = Task::new(plain_task("Water plants"), fresh_state());
    assert_eq!(t.status(TODAY, false), TaskStatus::Inactive);
    assert_eq!(t.status(TODAY, true), TaskStatus::InProgress);

    let mut st = TaskState::default();
    st.completed = true;
    let done = Task::new(plain_task("Water plants"), st);
    assert_eq!(done.status(TODAY, true), TaskStatus::Complete);

    let mut cfg = plain_task("Water plants");
    cfg.disable();
    let off = Task::new(cfg, TaskState::default());
    assert_eq!(off.status(TODAY, true), TaskStatus::Disabled);
}
