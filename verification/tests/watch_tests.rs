use xbase::message::{Level, Message, Stream};
use xbase::watch::{
    coalesce, trigger_outcome_messages, Decision, Event, EventKind, Operation, RawEvent,
    Watchable, WatchStore,
};

fn watchable(sig: &str) -> Watchable {
    Watchable {
        signature: sig.to_string(),
        target: "App".to_string(),
        client_pid: 7,
        op: Operation::Build,
    }
}

fn event(kind: EventKind) -> Event {
    Event {
        path: "/proj/Sources/Main.swift".to_string(),
        kind,
        seen: false,
    }
}

#[test]
fn registering_the_same_signature_twice_keeps_one_registration() {
    let mut store = WatchStore::new();
    store.register(watchable("build:App:Debug"));
    store.register(watchable("build:App:Debug"));
    assert_eq!(store.registrations.len(), 1);
    assert_eq!(store.registrations[0].signature, "build:App:Debug");
}

#[test]
fn registering_replaces_the_equivalent_request() {
    let mut store = WatchStore::new();
    let mut first = watchable("build:App:Debug");
    first.client_pid = 1;
    let mut second = watchable("build:App:Debug");
    second.client_pid = 2;
    store.register(first);
    store.register(second);
    assert_eq!(store.registrations.len(), 1);
    assert_eq!(store.registrations[0].client_pid, 2);
}

#[test]
fn distinct_signatures_coexist() {
    let mut store = WatchStore::new();
    store.register(watchable("build:App:Debug"));
    store.register(watchable("run:App:Debug"));
    assert_eq!(store.registrations.len(), 2);
}

#[test]
fn unregister_removes_only_the_named_signature() {
    let mut store = WatchStore::new();
    store.register(watchable("build:App:Debug"));
    store.register(watchable("run:App:Debug"));
    assert!(store.unregister("build:App:Debug").is_ok());
    assert_eq!(store.registrations.len(), 1);
    assert_eq!(store.registrations[0].signature, "run:App:Debug");
    assert!(store.unregister("build:App:Debug").is_err());
}

#[test]
fn content_update_triggers_a_watching_registration() {
    let w = watchable("build:App:Debug");
    let d = w.decide(&event(EventKind::ContentUpdate), true, true);
    assert_eq!(d, Decision::Trigger);
}

#[test]
fn create_remove_and_rename_trigger_too() {
    let w = watchable("build:App:Debug");
    assert_eq!(w.decide(&event(EventKind::Create), true, true), Decision::Trigger);
    assert_eq!(w.decide(&event(EventKind::Remove), true, true), Decision::Trigger);
    assert_eq!(w.decide(&event(EventKind::Rename), true, true), Decision::Trigger);
}

#[test]
fn unmatched_event_is_a_no_op() {
    let w = watchable("build:App:Debug");
    assert_eq!(w.decide(&event(EventKind::Other), true, true), Decision::Skip);
}

#[test]
fn missing_backing_path_triggers_until_observed() {
    let w = watchable("build:App:Debug");
    let mut e = event(EventKind::Other);
    assert!(w.should_trigger(&e, false));
    // once the disappearance has been observed, no redundant re-trigger
    e.seen = true;
    assert!(!w.should_trigger(&e, false));
}

#[test]
fn disconnected_client_discards_the_registration() {
    let w = watchable("build:App:Debug");
    assert_eq!(w.decide(&event(EventKind::ContentUpdate), true, false), Decision::Discard);
}

#[test]
fn failed_trigger_reports_once_and_keeps_the_registration() {
    let mut store = WatchStore::new();
    store.register(watchable("build:App:Debug"));
    let before = store.registrations.len();

    let d = store.registrations[0].decide(&event(EventKind::ContentUpdate), true, true);
    assert_eq!(d, Decision::Trigger);

    // the action ran exactly once and failed
    let msgs = trigger_outcome_messages("App", false);
    assert_eq!(msgs.len(), 2);
    assert!(matches!(
        &msgs[0],
        Message::Notify { level: Level::Error, .. }
    ));
    assert!(matches!(
        &msgs[1],
        Message::Log { stream: Stream::Stderr, level: Level::Error, .. }
    ));
    // nothing removed the registration: the next edit retries
    assert_eq!(store.registrations.len(), before);
}

#[test]
fn successful_trigger_notifies_once() {
    let msgs = trigger_outcome_messages("App", true);
    assert_eq!(msgs.len(), 1);
    assert_eq!(
        msgs[0],
        Message::Notify { level: Level::Info, text: "[App] Built".to_string() }
    );
}

fn raw(path: &str, t: u64) -> RawEvent {
    RawEvent {
        path: path.to_string(),
        kind: EventKind::ContentUpdate,
        time_ms: t,
    }
}

#[test]
fn burst_within_the_window_coalesces_to_one_event() {
    let burst = vec![raw("/p/a.swift", 0), raw("/p/a.swift", 10), raw("/p/a.swift", 40)];
    let kept = coalesce(&burst, 50);
    assert_eq!(kept.len(), 1);
    assert_eq!(kept[0].time_ms, 0);
}

#[test]
fn events_beyond_the_window_stay_separate() {
    let events = vec![raw("/p/a.swift", 0), raw("/p/a.swift", 60)];
    let kept = coalesce(&events, 50);
    assert_eq!(kept.len(), 2);
}

#[test]
fn distinct_paths_do_not_interfere() {
    let events = vec![raw("/p/a.swift", 0), raw("/p/b.swift", 1), raw("/p/a.swift", 2)];
    let kept = coalesce(&events, 50);
    assert_eq!(kept.len(), 2);
    assert_eq!(kept[0].path, "/p/a.swift");
    assert_eq!(kept[1].path, "/p/b.swift");
}

#[test]
fn on_event_evaluates_every_registration_in_order() {
    let mut store = WatchStore::new();
    store.register(watchable("build:App:Debug"));
    store.register(watchable("run:App:Debug"));
    let ds = store.on_event(&event(EventKind::ContentUpdate), &vec![true, true], &vec![true, false]);
    assert_eq!(ds, vec![Decision::Trigger, Decision::Discard]);
}
