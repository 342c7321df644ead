use unreact::server::watch::{
    after_rebuild, check_listener, check_watched_folders, now_millis, ChangeKind, DebounceState,
    WatchAction, WatchedEvent, FILE_SAVE_WAIT, MIN_RECOMPILE_INTERVAL,
};
use unreact::Error;

fn event(kind: ChangeKind, at: i64) -> WatchedEvent {
    WatchedEvent { kind, at }
}

fn rebuilds(state: &mut DebounceState, events: &[WatchedEvent]) -> Vec<i64> {
    let mut times = Vec::new();
    for e in events {
        if state.on_event(*e) != WatchAction::Ignore {
            times.push(e.at);
        }
    }
    times
}

#[test]
fn defaults_are_800_and_300_milliseconds() {
    assert_eq!(MIN_RECOMPILE_INTERVAL, 800);
    assert_eq!(FILE_SAVE_WAIT, 300);
    let state = DebounceState::new(5);
    assert_eq!(state, DebounceState { last_compile: 5, min_interval: 800, settle_delay: 300 });
}

#[test]
fn burst_after_a_trigger_rebuilds_once() {
    let mut state = DebounceState::new(0);
    let burst = [
        event(ChangeKind::Modified, 1_000),
        event(ChangeKind::Created, 1_001),
        event(ChangeKind::Removed, 1_400),
        event(ChangeKind::Modified, 1_799),
    ];
    assert_eq!(rebuilds(&mut state, &burst), vec![1_000]);
    assert_eq!(state.last_compile, 1_000);
}

#[test]
fn first_event_asks_for_the_settle_delay() {
    let mut state = DebounceState::new(0);
    assert_eq!(
        state.on_event(event(ChangeKind::Modified, 800)),
        WatchAction::Rebuild { settle_millis: 300 }
    );
    assert_eq!(state.on_event(event(ChangeKind::Modified, 1_599)), WatchAction::Ignore);
    assert_eq!(
        state.on_event(event(ChangeKind::Modified, 1_600)),
        WatchAction::Rebuild { settle_millis: 300 }
    );
}

#[test]
fn event_just_inside_the_interval_is_ignored() {
    let mut state = DebounceState::new(10_000);
    assert!(state.in_cooldown(10_799));
    assert!(!state.in_cooldown(10_800));
    assert!(state.in_cooldown(9_000));
    assert_eq!(state.on_event(event(ChangeKind::Created, 10_799)), WatchAction::Ignore);
    assert_eq!(state.last_compile, 10_000);
}

#[test]
fn spaced_events_each_rebuild() {
    let mut state = DebounceState::new(0);
    let spaced = [
        event(ChangeKind::Modified, 800),
        event(ChangeKind::Modified, 1_600),
        event(ChangeKind::Removed, 5_000),
    ];
    assert_eq!(rebuilds(&mut state, &spaced), vec![800, 1_600, 5_000]);
}

#[test]
fn other_events_never_rebuild() {
    let mut state = DebounceState::new(0);
    let before = state;
    for at in [1_000, 5_000, 100_000, i64::MAX] {
        assert_eq!(state.on_event(event(ChangeKind::Other, at)), WatchAction::Ignore);
    }
    assert_eq!(state, before);
    assert!(!ChangeKind::Other.is_qualifying());
    assert!(ChangeKind::Created.is_qualifying());
    assert!(ChangeKind::Modified.is_qualifying());
    assert!(ChangeKind::Removed.is_qualifying());
}

#[test]
fn extreme_times_do_not_overflow() {
    let mut state = DebounceState::new(i64::MAX - 10);
    assert_eq!(state.on_event(event(ChangeKind::Modified, i64::MAX)), WatchAction::Ignore);
    let mut state = DebounceState::new(i64::MIN);
    assert_eq!(
        state.on_event(event(ChangeKind::Modified, i64::MAX)),
        WatchAction::Rebuild { settle_millis: 300 }
    );
    let mut state = DebounceState::new(i64::MAX);
    assert_eq!(state.on_event(event(ChangeKind::Modified, i64::MIN)), WatchAction::Ignore);
}

#[test]
fn clock_event_is_debounced_like_any_other() {
    let mut state = DebounceState::new(now_millis());
    assert_eq!(state.on_event_now(ChangeKind::Other), WatchAction::Ignore);
    assert_eq!(state.on_event_now(ChangeKind::Modified), WatchAction::Ignore);
    let mut old = DebounceState::new(0);
    assert_eq!(old.on_event_now(ChangeKind::Modified), WatchAction::Rebuild { settle_millis: 300 });
    assert!(old.last_compile > 1_600_000_000_000);
    let started = DebounceState::start();
    assert!(started.last_compile >= old.last_compile);
}

#[test]
fn failed_rebuild_is_logged_and_still_broadcast() {
    let ok = after_rebuild(&Ok(()));
    assert!(ok.broadcast);
    assert_eq!(ok.log, None);

    let failed = after_rebuild(&Err(Error::TemplateNotExist("page".to_string())));
    assert!(failed.broadcast);
    assert_eq!(failed.log, Some("Template does not exist: page".to_string()));
}

#[test]
fn unwatched_folder_is_fatal_and_named() {
    let folders = vec!["templates".to_string(), "styles".to_string(), "public".to_string()];
    assert!(check_watched_folders(&folders, &vec![true, true, true]).is_ok());
    assert!(matches!(
        check_watched_folders(&folders, &vec![true, false, false]),
        Err(Error::WatchDirectoryNotExist(name)) if name == "styles",
    ));
    assert!(matches!(
        check_watched_folders(&folders, &vec![true, true]),
        Err(Error::WatchDirectoryNotExist(name)) if name == "public",
    ));
    assert!(check_watched_folders(&vec![], &vec![]).is_ok());
}

#[test]
fn unwrap_works() {
    let result: Result<i32, &str> = Ok(123);
    assert_eq!(unreact::server::unwrap::unwrap(result, "uh oh!"), 123);
}

#[test]
fn taken_port_is_fatal_and_named() {
    assert!(check_listener(3001, true).is_ok());
    assert!(matches!(check_listener(3001, false), Err(Error::PortUnavailable(3001))));
}

#[test]
fn spaced_events_rebuild_but_for_a_first_one_in_the_cooldown() {
    let mut state = DebounceState::new(0);
    let spaced = [
        event(ChangeKind::Modified, 100),
        event(ChangeKind::Modified, 900),
        event(ChangeKind::Created, 1_700),
    ];
    assert_eq!(rebuilds(&mut state, &spaced), vec![900, 1_700]);
}
