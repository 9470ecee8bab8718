use korun::clock::Timestamp;
use korun::daemon::buffer::Stream;
use korun::daemon::env_map::EnvMap;
use korun::daemon::session::{Session, SessionCommand, SessionState};
use korun::daemon::session_mgr::SessionManager;
use korun::daemon::shutdown::{build_shutdown, SHUTDOWN_PAUSE_MS};
use korun::ids::{new_session_id, SessionId};

fn make_session(id: SessionId) -> Session {
    Session::new(id, vec!["echo".into()], "/tmp".into(), EnvMap::new(), vec![])
}

fn at(secs: i64) -> Timestamp {
    Timestamp::from_parts(secs, 0).unwrap()
}

#[test]
fn session_state_serializes() {
    assert_eq!(serde_json::to_string(SessionState::Running.as_str()).unwrap(), "\"running\"");
    assert_eq!(serde_json::to_string(SessionState::Exited.as_str()).unwrap(), "\"exited\"");
    assert_eq!(serde_json::to_string(SessionState::Failed.as_str()).unwrap(), "\"failed\"");
}

#[test]
fn session_command_is_send() {
    fn assert_send<T: Send>() {}
    assert_send::<SessionCommand>();
}

#[test]
fn insert_and_get() {
    let mut mgr = SessionManager::new();
    let id = new_session_id();
    mgr.insert(make_session(id));
    assert!(mgr.get(&id).is_some());
}

#[test]
fn list_returns_all() {
    let mut mgr = SessionManager::new();
    mgr.insert(make_session(new_session_id()));
    mgr.insert(make_session(new_session_id()));
    assert_eq!(mgr.list().len(), 2);
}

#[test]
fn get_missing_returns_none() {
    let mgr = SessionManager::new();
    assert!(mgr.get(&new_session_id()).is_none());
}

#[test]
fn state_names() {
    assert_eq!(SessionState::Starting.as_str(), "starting");
    assert_eq!(SessionState::Stopping.as_str(), "stopping");
}

#[test]
fn a_new_session_has_done_nothing() {
    let before = Timestamp::now();
    let s = make_session(5);
    assert_eq!(s.id, 5);
    assert_eq!(s.state, SessionState::Starting);
    assert_eq!((s.pid, s.exit_code, s.term_signal), (None, None, None));
    assert_eq!((s.last_started_at, s.last_stopped_at, s.last_change_at), (None, None, None));
    assert_eq!((s.restart_count, s.manual_restart_count, s.watch_restart_count), (0, 0, 0));
    assert_eq!(s.file_change_count, 0);
    assert_eq!(s.next_seq(), 0);
    assert!(s.started_at.secs() >= before.secs());
    assert!(s.stdout_buf.is_empty() && s.stderr_buf.is_empty() && s.blended_buf.is_empty());
    assert_eq!(s.uptime_ms(), 0);
}

#[test]
fn uptime_counts_while_the_command_is_up() {
    let mut s = make_session(1);
    s.last_started_at = Some(at(100));
    for state in [SessionState::Starting, SessionState::Exited, SessionState::Failed] {
        s.state = state;
        assert_eq!(s.uptime_ms_at(at(181)), 0);
    }
    for state in [SessionState::Running, SessionState::Stopping] {
        s.state = state;
        assert_eq!(s.uptime_ms_at(at(181)), 81_000);
        assert_eq!(s.uptime_ms_at(at(182)), 82_000);
        assert_eq!(s.uptime_ms_at(at(99)), 0);
        assert!(s.uptime_ms() > 81_000);
    }
    s.last_started_at = None;
    assert_eq!(s.uptime_ms_at(at(181)), 0);
}

#[test]
fn exit_metadata_is_forgotten() {
    let mut s = make_session(1);
    s.exit_code = Some(7);
    s.term_signal = Some(9);
    s.clear_exit_metadata();
    assert_eq!((s.exit_code, s.term_signal), (None, None));
}

#[test]
fn restarts_add_up() {
    let mut s = make_session(1);
    s.count_restart(true);
    s.count_restart(false);
    s.count_restart(true);
    assert_eq!((s.restart_count, s.manual_restart_count, s.watch_restart_count), (3, 1, 2));
}

#[test]
fn file_changes_are_recorded() {
    let mut s = make_session(1);
    let command = s.record_file_changes(vec!["/tmp/a".into()], at(3));
    assert_eq!(command, Some(SessionCommand::Restart { is_watch: true }));
    s.record_file_changes(vec!["/tmp/b".into()], at(4));
    assert_eq!(s.file_change_count, 2);
    assert_eq!(s.last_change_at, Some(at(4)));
    assert_eq!(s.last_change_path.as_deref(), Some("/tmp/b"));
    assert_eq!(s.restart_count, 0);
}

#[test]
fn changes_of_one_window_ask_for_one_restart() {
    let mut s = make_session(1);
    let window = vec!["/tmp/a".to_string(), "/tmp/b".to_string()];
    let command = s.record_file_changes(window, at(3));
    assert_eq!(command, Some(SessionCommand::Restart { is_watch: true }));
    assert_eq!(s.file_change_count, 2);
    assert_eq!(s.last_change_path.as_deref(), Some("/tmp/b"));
    assert_eq!(s.last_change_at, Some(at(3)));
}

#[test]
fn a_window_without_changes_asks_for_nothing() {
    let mut s = make_session(1);
    s.record_file_changes(vec!["/tmp/a".into()], at(3));
    assert_eq!(s.record_file_changes(vec![], at(4)), None);
    assert_eq!(s.file_change_count, 1);
    assert_eq!(s.last_change_at, Some(at(3)));
    assert_eq!(s.last_change_path.as_deref(), Some("/tmp/a"));
}

#[test]
fn manager_gives_access_to_its_sessions() {
    let mut mgr = SessionManager::default();
    mgr.insert(make_session(1));
    mgr.insert(make_session(2));
    assert_eq!(mgr.get(&2), Some(2));
    assert_eq!(mgr.with(&1, |s| s.cwd.clone()), Some("/tmp".to_string()));
    assert_eq!(mgr.with(&3, |s| s.id), None);
    let seq = mgr.with_mut(&1, |s| s.stdout_buf.push(Stream::Stdout, "x".into(), at(1)));
    assert_eq!(seq, Some(0));
    assert_eq!(mgr.with(&1, |s| s.stdout_buf.len()), Some(1));
    assert_eq!(mgr.with(&2, |s| s.stdout_buf.len()), Some(0));
    assert_eq!(mgr.with_mut(&3, |s| s.id), None);
    mgr.get_mut(&2).unwrap().state = SessionState::Failed;
    assert_eq!(mgr.get_ref(&2).unwrap().state, SessionState::Failed);
    assert!(mgr.get_mut(&4).is_none());
    assert!(mgr.get_ref(&4).is_none());
    assert_eq!(mgr.list().len(), 2);
}

#[test]
fn inserting_again_replaces() {
    let mut mgr = SessionManager::new();
    mgr.insert(make_session(1));
    let mut s = make_session(1);
    s.state = SessionState::Exited;
    mgr.insert(s);
    assert_eq!(mgr.list(), vec![1]);
    assert_eq!(mgr.with(&1, |s| s.state), Some(SessionState::Exited));
}

#[test]
fn shutdown_stops_every_session() {
    let mut mgr = SessionManager::new();
    assert!(build_shutdown(&mgr).is_empty());
    for id in [3, 1, 2] {
        mgr.insert(make_session(id));
    }
    let mut stops = build_shutdown(&mgr);
    stops.sort_by_key(|(id, _)| *id);
    assert_eq!(
        stops,
        vec![(1, SessionCommand::Stop), (2, SessionCommand::Stop), (3, SessionCommand::Stop)]
    );
    assert_eq!(SHUTDOWN_PAUSE_MS, 300);
}

#[test]
fn environment_holds_each_name_once() {
    let mut env = EnvMap::new();
    env.insert("A".into(), "1".into());
    env.insert("B".into(), "2".into());
    env.insert("A".into(), "3".into());
    assert_eq!(env.get("A"), Some("3"));
    assert_eq!(env.get("B"), Some("2"));
    assert_eq!(env.get("C"), None);
    assert_eq!(env.pairs().len(), 2);
    let copy = env.clone();
    env.insert("C".into(), "4".into());
    assert_eq!(copy.get("C"), None);
    assert_eq!(copy.get("A"), Some("3"));
}
