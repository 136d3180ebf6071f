use randd_tasks::config::Config;
use randd_tasks::dates::{dt_with_cutoff, Timestamp};
use randd_tasks::error::RanddGoalsError;
use randd_tasks::state::{State, StateModel};
use randd_tasks::strings::cmp_str;
use randd_tasks::task_config::{DisabledOptions, TaskBuilder, TaskConfig, DEFAULT_WEIGHT};
use randd_tasks::task_set::TaskSet;

const NOW: Timestamp = Timestamp { day: 2_460_000, secs: 36_000 };

fn named_task(title: &str, slug: &str) -> TaskConfig {
    let mut b = TaskBuilder::default();
    b.task = Some(title.to_string());
    b.slug(slug.to_string());
    b.build().unwrap()
}

fn small_state(cfgs: Vec<TaskConfig>) -> State {
    let mut config = Config::default();
    for c in cfgs {
        config.add_task(c).unwrap();
    }
    let model = StateModel::fresh(NOW);
    let (state, orphans) = State::reconcile(config, model, NOW);
    assert!(orphans.is_empty());
    state
}

#[test]
fn builder_derives_slug_from_title() {
    let mut b = TaskBuilder::default();
    b.task = Some("My Test String!!!1!1".to_string());
    let cfg = b.build().unwrap();
    assert_eq!(cfg.slug(), "my-test-string-1-1");
}

#[test]
fn builder_explicit_slug_wins() {
    let mut b = TaskBuilder::default();
    b.task = Some("Water the plants".to_string());
    b.slug("plants".to_string());
    let cfg = b.build().unwrap();
    assert_eq!(cfg.slug(), "plants");
}

#[test]
fn builder_empty_slug_falls_back_to_title() {
    let mut b = TaskBuilder::default();
    b.task = Some("Water the plants".to_string());
    b.slug(String::new());
    let cfg = b.build().unwrap();
    assert_eq!(cfg.slug(), "water-the-plants");
}

#[test]
fn builder_rejects_missing_title() {
    let b = TaskBuilder::default();
    assert!(matches!(b.build(), Err(RanddGoalsError::Validation { .. })));
}

#[test]
fn builder_rejects_empty_title() {
    let mut b = TaskBuilder::default();
    b.task = Some(String::new());
    assert!(matches!(b.build(), Err(RanddGoalsError::Validation { .. })));
}

#[test]
fn builder_rejects_underivable_slug() {
    let mut b = TaskBuilder::default();
    b.task = Some("!!!".to_string());
    assert!(matches!(b.build(), Err(RanddGoalsError::Validation { .. })));
}

#[test]
fn builder_tag_appends() {
    let mut b = TaskBuilder::default();
    b.task = Some("Water the plants".to_string());
    b.tag("home".to_string());
    b.tag("green".to_string());
    let cfg = b.build().unwrap();
    assert_eq!(cfg.tags, vec!["home".to_string(), "green".to_string()]);
}

#[test]
fn merge_overrides_non_default_fields_only() {
    let mut base = named_task("Water the plants", "plants");
    base.weight = 2_000;
    base.description = Some("old".to_string());
    base.tags = vec!["home".to_string()];

    let mut incoming = named_task("ignored-title-stays", "other-slug");
    incoming.task = String::new(); // default: keep the base title
    incoming.weight = DEFAULT_WEIGHT; // default: keep the base weight
    incoming.min_frequency = Some(4);
    incoming.disabled = DisabledOptions::Disabled;
    incoming.tags = vec!["home".to_string(), "green".to_string()];

    base.merge(incoming);
    assert_eq!(base.slug(), "plants"); // slug never changes
    assert_eq!(base.task, "Water the plants");
    assert_eq!(base.weight, 2_000);
    assert_eq!(base.description.as_deref(), Some("old"));
    assert_eq!(base.min_frequency, Some(4));
    assert_eq!(base.disabled, DisabledOptions::Disabled);
    assert_eq!(base.tags, vec!["home".to_string(), "green".to_string()]);
}

#[test]
fn update_applies_set_fields_only() {
    let mut base = named_task("Water the plants", "plants");
    base.weight = 2_000;

    let mut b = TaskBuilder::default();
    b.weight = Some(500);
    b.description = Some(Some("fresh".to_string()));
    base.update(b);

    assert_eq!(base.weight, 500);
    assert_eq!(base.description.as_deref(), Some("fresh"));
    assert_eq!(base.task, "Water the plants");
}

#[test]
fn add_duplicate_slug_fails_and_catalog_unchanged() {
    // add_task with a duplicate slug "foo" fails with AlreadyExists
    let mut state = small_state(vec![named_task("Foo things", "foo")]);
    let before: Vec<String> = state.task_names();
    let dup = named_task("Other foo", "foo");
    match state.add_task(dup) {
        Err(RanddGoalsError::TaskAlreadyExists { slug }) => assert_eq!(slug, "foo"),
        other => panic!("expected TaskAlreadyExists, got {:?}", other.err()),
    }
    assert_eq!(state.task_names(), before);
}

#[test]
fn complete_twice_counts_twice_and_stays_complete() {
    let mut state = small_state(vec![named_task("Foo things", "foo")]);
    state.complete_task("foo").unwrap();
    state.complete_task("foo").unwrap();
    let t = state.get_task("foo").unwrap();
    assert_eq!(t.state.times_completed, 2);
    assert!(t.state.completed);
}

#[test]
fn enable_and_disable_touch_both_documents() {
    let mut state = small_state(vec![named_task("Foo things", "foo")]);
    state.disable_task("foo").unwrap();
    {
        let t = state.get_task("foo").unwrap();
        assert_eq!(t.config.disabled, DisabledOptions::Disabled);
        assert_eq!(t.state.disabled_on, Some(state.todays_date()));
    }
    state.enable_task("foo").unwrap();
    let t = state.get_task("foo").unwrap();
    assert_eq!(t.config.disabled, DisabledOptions::Enabled);
    assert_eq!(t.state.disabled_on, None);
}

#[test]
fn missing_slug_reports_not_found() {
    let mut state = small_state(vec![named_task("Foo things", "foo")]);
    match state.enable_task("bar") {
        Err(RanddGoalsError::TaskNotFound { slug }) => assert_eq!(slug, "bar"),
        other => panic!("expected TaskNotFound, got {:?}", other.err()),
    }
    assert!(state.remove_task("bar").is_err());
    assert!(state.update_task(named_task("Bar", "bar")).is_err());
    assert!(state.complete_task("bar").is_err());
}

#[test]
fn batch_ops_fail_fast_keeping_earlier_mutations() {
    let mut state = small_state(vec![
        named_task("Foo things", "foo"),
        named_task("Bar things", "bar"),
    ]);
    let r = state.disable_tasks(&vec![
        "foo".to_string(),
        "missing".to_string(),
        "bar".to_string(),
    ]);
    match r {
        Err(RanddGoalsError::TaskNotFound { slug }) => assert_eq!(slug, "missing"),
        other => panic!("expected TaskNotFound, got {:?}", other.err()),
    }
    // the first disable stuck; the one after the failure never ran
    assert_eq!(state.get_task("foo").unwrap().config.disabled, DisabledOptions::Disabled);
    assert_eq!(state.get_task("bar").unwrap().config.disabled, DisabledOptions::Enabled);
}

#[test]
fn upsert_adds_then_updates() {
    let mut state = small_state(vec![]);
    state.upsert_task(named_task("Foo things", "foo"));
    assert_eq!(state.task_names(), vec!["foo".to_string()]);
    let mut newer = named_task("Fancier foo things", "foo");
    newer.weight = 3_000;
    state.upsert_task(newer);
    let t = state.get_task("foo").unwrap();
    assert_eq!(t.config.task, "Fancier foo things");
    assert_eq!(t.config.weight, 3_000);
    assert_eq!(state.task_names(), vec!["foo".to_string()]);
}

#[test]
fn task_set_is_sorted_and_deduplicated() {
    let mut s = TaskSet::new();
    s.insert("pear".to_string());
    s.insert("apple".to_string());
    s.insert("mango".to_string());
    s.insert("apple".to_string());
    assert_eq!(s.len(), 3);
    assert_eq!(
        s.to_vec(),
        vec!["apple".to_string(), "mango".to_string(), "pear".to_string()]
    );
    assert!(s.contains("mango"));
    assert!(!s.contains("kiwi"));
    assert!(s.remove("mango"));
    assert!(!s.remove("mango"));
    assert_eq!(s.to_vec(), vec!["apple".to_string(), "pear".to_string()]);
    s.clear();
    assert!(s.is_empty());
}

#[test]
fn task_set_difference_keeps_order() {
    let mut a = TaskSet::new();
    a.extend(vec!["apple".to_string(), "fig".to_string(), "pear".to_string()]);
    let mut b = TaskSet::new();
    b.insert("fig".to_string());
    assert_eq!(
        a.difference(&b).to_vec(),
        vec!["apple".to_string(), "pear".to_string()]
    );
}

#[test]
fn task_set_extend_unions() {
    let mut s = TaskSet::new();
    s.insert("pear".to_string());
    s.extend(vec!["apple".to_string(), "pear".to_string(), "fig".to_string()]);
    assert_eq!(
        s.to_vec(),
        vec!["apple".to_string(), "fig".to_string(), "pear".to_string()]
    );
}

#[test]
fn cmp_str_orders_lexicographically() {
    assert_eq!(cmp_str("apple", "pear"), -1);
    assert_eq!(cmp_str("pear", "apple"), 1);
    assert_eq!(cmp_str("pear", "pear"), 0);
    assert_eq!(cmp_str("app", "apple"), -1);
    assert_eq!(cmp_str("apple", "app"), 1);
    assert_eq!(cmp_str("", "a"), -1);
}

#[test]
fn cutoff_shifts_the_effective_day() {
    let cut = 4 * 3600;
    let before = Timestamp { day: 100, secs: cut - 1 };
    let after = Timestamp { day: 100, secs: cut };
    assert_eq!(dt_with_cutoff(before, cut), 99);
    assert_eq!(dt_with_cutoff(after, cut), 100);
}

#[test]
fn days_since_today_counts_backwards() {
    let state = small_state(vec![]);
    let today = state.todays_date();
    assert_eq!(state.days_since_today(today - 5), 5);
    assert_eq!(state.days_since_today(today + 2), -2);
}
