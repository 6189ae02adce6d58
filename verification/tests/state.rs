use aerospace_helper::icons::IconMap;
use aerospace_helper::state::{time_since, HelperState, SpaceItems, DEBOUNCE_NANOS, MAX_CHILD_PROCS};

fn fresh() -> HelperState {
    HelperState::new(IconMap::new(), true)
}

#[test]
fn an_event_soon_after_another_of_its_kind_is_held_back() {
    let mut state = fresh();
    assert!(state.should_process("focus", 1_000));
    assert!(!state.should_process("focus", 1_000));
    assert!(!state.should_process("focus", 1_000 + DEBOUNCE_NANOS - 1));
    assert!(state.should_process("focus", 1_000 + DEBOUNCE_NANOS));
    assert!(!state.should_process("focus", 1_001 + DEBOUNCE_NANOS));
}

#[test]
fn the_debounce_time_is_150_milliseconds() {
    let mut state = fresh();
    assert!(state.should_process("focus", 0));
    assert!(!state.should_process("focus", 149_999_999));
    assert!(state.should_process("focus", 150_000_000));
}

#[test]
fn a_held_back_event_does_not_put_off_the_next() {
    let mut state = fresh();
    assert!(state.should_process("focus", 0));
    assert!(!state.should_process("focus", 100_000_000));
    assert!(state.should_process("focus", 160_000_000));
}

#[test]
fn kinds_of_events_do_not_hold_each_other_back() {
    let mut state = fresh();
    assert!(state.should_process("focus", 0));
    assert!(state.should_process("other", 1));
    assert!(!state.should_process("focus", 2));
}

#[test]
fn time_that_runs_backwards_counts_as_none() {
    assert_eq!(time_since(5, 3), 2);
    assert_eq!(time_since(3, 5), 0);
    let mut state = fresh();
    assert!(state.should_process("focus", 1_000_000_000));
    assert!(!state.should_process("focus", 0));
}

#[test]
fn children_are_counted_up_to_the_limit() {
    let mut state = fresh();
    assert_eq!(MAX_CHILD_PROCS, 20);
    for n in 0..MAX_CHILD_PROCS {
        assert!(state.may_spawn());
        assert_eq!(state.child_count(), n);
        assert!(state.child_spawned(true));
    }
    assert!(!state.may_spawn());
    state.child_reaped();
    assert_eq!(state.child_count(), MAX_CHILD_PROCS - 1);
    assert!(state.may_spawn());
}

#[test]
fn events_of_a_kind_are_processed_apart_whatever_comes_between() {
    let mut state = fresh();
    let mut last: Option<u64> = None;
    for now in [200, 500, 100, 349, 350, 0, 450, 499, 500, 10, 900, 1000, 1050].map(|ms| ms * 1_000_000) {
        state.should_process("other", now / 2);
        if state.should_process("focus", now) {
            if let Some(last) = last {
                assert!(now >= last + DEBOUNCE_NANOS);
            }
            last = Some(now);
        }
    }
    assert_eq!(last, Some(1_050_000_000));
}

#[test]
fn children_that_run_were_started_and_have_not_ended() {
    let mut state = fresh();
    let (mut started, mut ended) = (0, 0);
    for step in 0..100 {
        if step % 3 == 2 {
            state.child_reaped();
            ended += 1;
        } else if state.may_spawn() && state.child_spawned(step % 5 != 0) {
            started += 1;
        }
        assert_eq!(state.child_count(), started - ended, "{}", step);
    }
    assert!(started > 20 && ended > 20);
}

#[test]
fn a_child_that_fails_to_start_is_not_counted() {
    let mut state = fresh();
    assert!(!state.child_spawned(false));
    assert_eq!(state.child_count(), 0);
    state.child_reaped();
    assert_eq!(state.child_count(), 0);
}

#[test]
fn without_a_bar_there_is_no_snapshot() {
    assert!(HelperState::new(IconMap::new(), false).bar_snapshot().is_none());
    let snapshot = fresh().bar_snapshot().unwrap();
    assert_eq!(snapshot.icons.len(), 0);
    assert!(snapshot.items.is_empty());
}

#[test]
fn a_snapshot_keeps_what_it_was_taken_of() {
    let mut icons = IconMap::new();
    icons.insert("Code".to_string(), ":code:".to_string());
    let mut state = HelperState::new(icons, true);
    state.set_items(vec![SpaceItems { space: "1".to_string(), names: vec!["ws1.g0".to_string()] }]);
    let snapshot = state.bar_snapshot().unwrap();
    state.set_icon_map(IconMap::new());
    state.set_items(Vec::new());
    assert_eq!(snapshot.icons.icon_for("Code"), ":code:");
    assert_eq!(snapshot.items.len(), 1);
    assert_eq!(snapshot.items[0].space, "1");
    assert_eq!(snapshot.items[0].names, vec!["ws1.g0"]);
    let later = state.bar_snapshot().unwrap();
    assert_eq!(later.icons.icon_for("Code"), ":default:");
    assert!(later.items.is_empty());
}
