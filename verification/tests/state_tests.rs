use xbase::command::Drop;
use xbase::response::Response;
use xbase::state::DaemonState;
use xbase::DaemonError;

#[test]
fn first_client_creates_the_project_entry() {
    let mut state = DaemonState::new();
    assert!(state.add_client("/proj/a"));
    assert!(!state.add_client("/proj/a"));
    assert_eq!(state.projects.len(), 1);
    assert_eq!(state.projects[0].num_clients, 2);
}

#[test]
fn at_most_one_entry_per_root() {
    let mut state = DaemonState::new();
    state.add_client("/proj/a");
    state.add_client("/proj/b");
    state.add_client("/proj/a");
    assert_eq!(state.projects.len(), 2);
}

#[test]
fn entry_is_removed_exactly_when_the_count_reaches_zero() {
    let mut state = DaemonState::new();
    state.add_client("/proj/a");
    state.add_client("/proj/a");
    assert_eq!(state.drop_client("/proj/a"), Ok(false));
    assert_eq!(state.projects[0].num_clients, 1);
    assert_eq!(state.drop_client("/proj/a"), Ok(true));
    assert_eq!(state.projects.len(), 0);
}

#[test]
fn dropping_an_unknown_root_is_a_state_error() {
    let mut state = DaemonState::new();
    state.add_client("/proj/a");
    assert_eq!(state.drop_client("/proj/b"), Err(DaemonError::StateError));
    // the error touches nothing
    assert_eq!(state.projects.len(), 1);
    assert_eq!(state.projects[0].num_clients, 1);
}

#[test]
fn drop_request_spells_the_datagram() {
    let args = Drop::request(42, "/proj/a".to_string());
    assert_eq!(args, vec!["drop".to_string(), "42".to_string(), "/proj/a".to_string()]);
    let args = Drop::request(-7, "/proj/b".to_string());
    assert_eq!(args[1], "-7");
    assert_eq!(Drop::KEY, "drop");
}

#[test]
fn drop_parses_its_argument_list() {
    let args = vec!["42".to_string(), "/proj/a".to_string()];
    let d = Drop::try_from(&args).expect("well-formed request");
    assert_eq!(d.pid, 42);
    assert_eq!(d.root, "/proj/a");
}

#[test]
fn drop_rejects_short_or_malformed_requests() {
    assert!(Drop::try_from(&vec!["42".to_string()]).is_err());
    assert!(Drop::try_from(&Vec::new()).is_err());
    assert!(Drop::try_from(&vec!["4x2".to_string(), "/proj/a".to_string()]).is_err());
}

#[test]
fn drop_handle_deregisters_the_client() {
    let mut state = DaemonState::new();
    state.add_client("/proj/a");
    let d = Drop { pid: 42, root: "/proj/a".to_string() };
    assert_eq!(d.handle(&mut state), Ok(true));
    assert_eq!(state.projects.len(), 0);
    assert_eq!(d.handle(&mut state), Err(DaemonError::StateError));
}

#[test]
fn response_carries_payload_or_error_never_both() {
    let ok = Response::new(Ok("{\"targets\":[]}".to_string()));
    assert_eq!(ok.data.as_deref(), Some("{\"targets\":[]}"));
    assert!(ok.error.is_none());

    let err = Response::new(Err(DaemonError::StateError));
    assert!(err.data.is_none());
    assert_eq!(err.error, Some(DaemonError::StateError));
}
