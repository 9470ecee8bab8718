use korun::clock::Timestamp;
use korun::daemon::buffer::{LogEntry, Stream};
use korun::daemon::env_map::EnvMap;
use korun::daemon::error::AppError;
use korun::daemon::handlers::{
    conclude_control, create_session, create_session_with, follow_chunk, follow_chunk_at,
    format_entry, get_head, get_logs, get_session, get_session_at, get_tail, healthz, healthz_at,
    list_sessions, render_snapshot, resolve_watch_path, restart_session, stop_session,
    stream_entry, stream_label, ControlPlan, CreateSessionRequest, FollowEvent, LogsQuery,
    LogsReply, Snapshot,
};
use korun::daemon::process::{read_stream, ReadEvent};
use korun::daemon::session::{SessionCommand, SessionState};
use korun::daemon::session_mgr::SessionManager;
use korun::ids::session_id_text;

fn at(secs: i64) -> Timestamp {
    Timestamp::from_parts(secs, 0).unwrap()
}

const NOON: i64 = 1_773_662_400;

fn request(command: &[&str], cwd: Option<&str>) -> CreateSessionRequest {
    CreateSessionRequest {
        command: command.iter().map(|w| w.to_string()).collect(),
        cwd: cwd.map(|c| c.to_string()),
        watch: None,
        env: None,
    }
}

fn one_session() -> SessionManager {
    let mut mgr = SessionManager::new();
    let req = request(&["cargo", "run"], Some("/tmp/app"));
    create_session_with(&mut mgr, req, true, 7, at(NOON)).unwrap();
    mgr
}

fn say(mgr: &mut SessionManager, stream: Stream, text: &str) {
    let s = mgr.get_mut(&7).unwrap();
    read_stream(s, stream, ReadEvent::Line(text.into()), at(NOON + 60));
}

fn query() -> LogsQuery {
    LogsQuery { stream: None, limit: None, since_seq: None, follow: None, format: None }
}

fn text_query(stream: &str) -> LogsQuery {
    LogsQuery { stream: Some(stream.into()), format: Some("text".into()), ..query() }
}

fn snapshot_text(reply: LogsReply) -> String {
    match reply {
        LogsReply::Snapshot(Snapshot::Text(text)) => text,
        other => panic!("no text snapshot: {other:?}"),
    }
}

fn shown_seqs(reply: LogsReply) -> (Vec<u64>, u64) {
    match reply {
        LogsReply::Snapshot(Snapshot::Json(shown)) => {
            (shown.entries.iter().map(|e| e.seq).collect(), shown.next_seq)
        }
        other => panic!("no JSON snapshot: {other:?}"),
    }
}

fn entry(seq: u64, stream: Stream, line: &str) -> LogEntry {
    LogEntry { seq, ts: at(NOON + 62), stream, line: line.into() }
}

#[test]
fn healthz_returns_200() {
    let health = healthz();
    assert!(health.ok);
    assert_eq!(health.service, "korun");
    assert_eq!(healthz_at(at(NOON)).time, "2026-03-16T12:00:00+00:00");
}

#[test]
fn list_sessions_empty() {
    let mgr = SessionManager::new();
    assert_eq!(list_sessions(&mgr).len(), 0);
}

#[test]
fn get_unknown_session_returns_404() {
    let mgr = SessionManager::new();
    let refused = get_session(&mgr, &0).unwrap_err();
    assert_eq!(refused.status(), 404);
    assert_eq!(refused.body().code, "not_found");
    assert_eq!(refused.body().message, "session not found");
}

#[test]
fn create_session_returns_201() {
    let mut mgr = SessionManager::new();
    let req = request(&["echo", "hello"], Some("/tmp"));
    let created = create_session(&mut mgr, req, true).unwrap();
    assert_eq!(created.reply.id, session_id_text(created.id));
    assert_eq!(created.reply.state, "starting");
    assert_eq!(mgr.list(), vec![created.id]);
}

#[test]
fn create_session_rejects_invalid_cwd() {
    let mut mgr = SessionManager::new();
    let req = request(&["echo", "hello"], Some("/definitely/not/a/real/path"));
    assert_eq!(req.requested_cwd(), "/definitely/not/a/real/path");
    let refused = create_session(&mut mgr, req, false).unwrap_err();
    assert_eq!(refused.status(), 400);
    assert_eq!(refused.body().code, "bad_request");
    assert!(mgr.list().is_empty());
}

#[test]
fn an_empty_command_makes_no_session() {
    let mut mgr = one_session();
    for cwd_is_dir in [true, false] {
        let refused = create_session(&mut mgr, request(&[], None), cwd_is_dir).unwrap_err();
        assert_eq!(refused.status(), 400);
        assert_eq!(refused.body().message, "command must not be empty");
    }
    assert_eq!(mgr.list(), vec![7]);
}

#[test]
fn a_session_is_made_as_asked_for() {
    let mut mgr = SessionManager::new();
    let mut env = EnvMap::new();
    env.insert("RUST_LOG".into(), "debug".into());
    let req = CreateSessionRequest {
        command: vec!["cargo".into(), "run".into()],
        cwd: Some("/tmp/app".into()),
        watch: Some(vec!["src".into(), "/etc/hosts".into(), "".into()]),
        env: Some(env),
    };
    let created = create_session_with(&mut mgr, req, true, 7, at(NOON)).unwrap();
    assert_eq!(created.watch, vec!["/tmp/app/src", "/etc/hosts", "/tmp/app/"]);
    let s = mgr.get_ref(&7).unwrap();
    assert_eq!(s.command, vec!["cargo", "run"]);
    assert_eq!(s.cwd, "/tmp/app");
    assert_eq!(s.watch, created.watch);
    assert_eq!(s.env_overrides.get("RUST_LOG"), Some("debug"));
    assert_eq!(s.started_at, at(NOON));
    assert_eq!(s.state, SessionState::Starting);
}

#[test]
fn the_directory_defaults_to_tmp() {
    let mut mgr = SessionManager::new();
    create_session_with(&mut mgr, request(&["x"], None), true, 1, at(NOON)).unwrap();
    assert_eq!(mgr.get_ref(&1).unwrap().cwd, "/tmp");
}

#[test]
fn watch_paths_are_taken_from_the_directory() {
    assert_eq!(resolve_watch_path("/tmp/app", "src"), "/tmp/app/src");
    assert_eq!(resolve_watch_path("/tmp/app", "/src"), "/src");
    assert_eq!(resolve_watch_path("/tmp/", "a/b"), "/tmp//a/b");
}

#[test]
fn sessions_accumulate() {
    let mut mgr = one_session();
    create_session_with(&mut mgr, request(&["x"], None), true, 8, at(NOON)).unwrap();
    assert_eq!(mgr.list().len(), 2);
    assert_eq!(mgr.get_ref(&7).unwrap().cwd, "/tmp/app");
}

#[test]
fn a_session_in_short() {
    let mut mgr = one_session();
    let s = mgr.get_mut(&7).unwrap();
    s.state = SessionState::Running;
    s.pid = Some(43122);
    s.count_restart(false);
    let list = list_sessions(&mgr);
    assert_eq!(list.len(), 1);
    assert_eq!(list[0].id, "00000000-0000-0000-0000-000000000007");
    assert_eq!(list[0].state, "running");
    assert_eq!(list[0].command, vec!["cargo", "run"]);
    assert_eq!(list[0].cwd, "/tmp/app");
    assert_eq!(list[0].pid, Some(43122));
    assert_eq!(list[0].started_at, "2026-03-16T12:00:00+00:00");
    assert_eq!(list[0].restart_count, 1);
}

#[test]
fn a_session_in_full() {
    let mut mgr = one_session();
    say(&mut mgr, Stream::Stdout, "out");
    say(&mut mgr, Stream::Stderr, "error");
    let s = mgr.get_mut(&7).unwrap();
    s.state = SessionState::Running;
    s.pid = Some(43122);
    s.last_started_at = Some(at(NOON + 60));
    s.last_stopped_at = Some(at(NOON + 59));
    s.count_restart(true);
    s.record_file_changes(vec!["src/main.rs".into()], at(NOON + 58));
    let d = get_session_at(&mgr, &7, at(NOON + 141)).unwrap();
    assert_eq!(d.id, "00000000-0000-0000-0000-000000000007");
    assert_eq!(d.state, "running");
    assert_eq!(d.started_at, "2026-03-16T12:00:00+00:00");
    assert_eq!(d.last_started_at.as_deref(), Some("2026-03-16T12:01:00+00:00"));
    assert_eq!(d.last_stopped_at.as_deref(), Some("2026-03-16T12:00:59+00:00"));
    assert_eq!(d.uptime_ms, 81_000);
    assert_eq!((d.restart_count, d.manual_restart_count, d.watch_restart_count), (1, 0, 1));
    assert_eq!(d.file_change_count, 1);
    assert_eq!(d.last_change_at.as_deref(), Some("2026-03-16T12:00:58+00:00"));
    assert_eq!(d.last_change_path.as_deref(), Some("src/main.rs"));
    assert_eq!((d.exit_code, d.term_signal), (None, None));
    assert_eq!((d.stdout_lines, d.stderr_lines, d.blended_lines), (1, 1, 2));
    assert_eq!((d.stdout_dropped_lines, d.stderr_dropped_lines, d.blended_dropped_lines), (0, 0, 0));
    assert_eq!((d.stdout_bytes, d.stderr_bytes), (4, 6));
    assert!(get_session(&mgr, &7).unwrap().uptime_ms > 0);
}

#[test]
fn error_codes() {
    let errors = [
        (AppError::BadRequest("a".into()), 400, "bad_request"),
        (AppError::NotFound("a".into()), 404, "not_found"),
        (AppError::Conflict("a".into()), 409, "conflict"),
        (AppError::Internal("a".into()), 500, "internal"),
    ];
    for (error, status, code) in errors {
        assert_eq!(error.status(), status);
        assert_eq!(error.body().code, code);
        assert_eq!(error.body().message, "a");
    }
}

fn set_state(mgr: &mut SessionManager, state: SessionState) {
    mgr.get_mut(&7).unwrap().state = state;
}

#[test]
fn any_session_but_a_stopping_one_is_restarted() {
    let mut mgr = one_session();
    for state in [
        SessionState::Starting,
        SessionState::Running,
        SessionState::Exited,
        SessionState::Failed,
    ] {
        set_state(&mut mgr, state);
        match restart_session(&mgr, &7).unwrap() {
            ControlPlan::Send { command, reply } => {
                assert_eq!(command, SessionCommand::Restart { is_watch: false });
                assert!(reply.ok);
                assert_eq!(reply.id, "00000000-0000-0000-0000-000000000007");
                assert_eq!(reply.state, "starting");
            }
            other => panic!("{other:?}"),
        }
    }
    set_state(&mut mgr, SessionState::Stopping);
    match restart_session(&mgr, &7).unwrap() {
        ControlPlan::Answer(reply) => assert_eq!(reply.state, "stopping"),
        other => panic!("{other:?}"),
    }
    assert_eq!(restart_session(&mgr, &8).unwrap_err().status(), 404);
}

#[test]
fn a_session_is_stopped_once() {
    let mut mgr = one_session();
    for state in [SessionState::Starting, SessionState::Running] {
        set_state(&mut mgr, state);
        match stop_session(&mgr, &7).unwrap() {
            ControlPlan::Send { command, reply } => {
                assert_eq!(command, SessionCommand::Stop);
                assert_eq!(reply.state, "stopping");
            }
            other => panic!("{other:?}"),
        }
    }
    set_state(&mut mgr, SessionState::Stopping);
    match stop_session(&mgr, &7).unwrap() {
        ControlPlan::Answer(reply) => assert_eq!(reply.state, "stopping"),
        other => panic!("{other:?}"),
    }
    for state in [SessionState::Exited, SessionState::Failed] {
        set_state(&mut mgr, state);
        let refused = stop_session(&mgr, &7).unwrap_err();
        assert_eq!(refused.status(), 409);
        assert_eq!(refused.body().message, "session already in terminal state");
    }
    assert_eq!(stop_session(&mgr, &8).unwrap_err().status(), 404);
}

#[test]
fn a_command_that_is_not_delivered_is_an_error() {
    let mgr = one_session();
    for delivered in [true, false] {
        let reply = match stop_session(&mgr, &7).unwrap() {
            ControlPlan::Send { reply, .. } => reply,
            other => panic!("{other:?}"),
        };
        match conclude_control(reply, delivered) {
            Ok(reply) => {
                assert!(delivered);
                assert_eq!(reply.state, "stopping");
            }
            Err(error) => {
                assert!(!delivered);
                assert_eq!(error.status(), 500);
                assert_eq!(error.body().message, "supervisor task gone");
            }
        }
    }
}

#[test]
fn stream_names() {
    assert_eq!(stream_label(Stream::Stdout), "stdout");
    assert_eq!(stream_label(Stream::Stderr), "stderr");
    assert_eq!(stream_label(Stream::System), "system");
}

#[test]
fn entries_in_either_format() {
    let e = entry(103, Stream::Stdout, "hello");
    assert_eq!(format_entry(&e, "text"), "[stdout] hello\n");
    assert_eq!(
        format_entry(&e, "json"),
        "{\"seq\":103,\"ts\":\"2026-03-16T12:01:02Z\",\"stream\":\"stdout\",\"line\":\"hello\"}\n"
    );
    assert_eq!(format_entry(&e, "anything"), format_entry(&e, "json"));
    assert_eq!(stream_entry("blended", &e, "text"), "[stdout] hello\n");
    assert_eq!(stream_entry("stdout", &e, "text"), "hello\n");
    assert_eq!(stream_entry("stderr", &e, "text"), "hello\n");
    assert_eq!(stream_entry("other", &e, "text"), "[stdout] hello\n");
    assert_eq!(stream_entry("stdout", &e, "json"), format_entry(&e, "json"));
}

#[test]
fn json_entries_are_one_line_each() {
    let line = "q\" b\\ t\t n\n r\r 1\u{1} 1f\u{1f} e\u{1b} del\u{7f} ü€😀\u{2028}";
    let chunk = format_entry(&entry(1, Stream::Stderr, line), "json");
    assert!(chunk.ends_with("}\n"));
    assert_eq!(chunk.matches('\n').count(), 1);
    assert!(chunk.contains("q\\\" b\\\\ t\\t n\\n r\\r 1\\u0001 1f\\u001f e\\u001b del\u{7f}"));
    let value: serde_json::Value = serde_json::from_str(&chunk).unwrap();
    assert_eq!(value["line"].as_str().unwrap(), line);
    assert_eq!(value["stream"].as_str().unwrap(), "stderr");
    assert_eq!(value["seq"].as_u64().unwrap(), 1);
}

#[test]
fn json_entries_tell_entries_apart() {
    let lines = ["", "a", "n", "\n", "\\n", "\\", "\"", "\",\"line\":\"", "\u{1}", "\\u0001", "u0001"];
    let mut chunks = Vec::new();
    for seq in [0, 1, 10, 11] {
        for stream in [Stream::Stdout, Stream::Stderr] {
            for line in lines {
                let chunk = format_entry(&entry(seq, stream, line), "json");
                let value: serde_json::Value = serde_json::from_str(&chunk).unwrap();
                assert_eq!(value["seq"].as_u64(), Some(seq));
                assert_eq!(value["stream"].as_str(), Some(stream_label(stream)));
                assert_eq!(value["line"].as_str(), Some(line));
                assert_eq!(value["ts"].as_str(), Some("2026-03-16T12:01:02Z"));
                assert!(!chunks.contains(&chunk));
                chunks.push(chunk);
            }
        }
    }
}

#[test]
fn logs_default_to_the_newest_hundred_of_both_streams() {
    let mut mgr = one_session();
    for i in 0..150u64 {
        say(&mut mgr, if i % 3 == 0 { Stream::Stderr } else { Stream::Stdout }, "x");
    }
    let (seqs, next) = shown_seqs(get_logs(&mgr, &7, &query()).unwrap());
    assert_eq!(seqs, (50..150).collect::<Vec<u64>>());
    assert_eq!(next, 150);
    let (seqs, _) = shown_seqs(get_tail(&mgr, &7, &query()).unwrap());
    assert_eq!(seqs.len(), 100);
    match get_head(&mgr, &7, &LogsQuery { since_seq: Some(90), ..query() }).unwrap() {
        Snapshot::Json(shown) => {
            assert_eq!(shown.entries[0].seq, 0);
            assert_eq!(shown.entries.len(), 100);
            assert_eq!(shown.session_id, "00000000-0000-0000-0000-000000000007");
            assert_eq!(shown.stream, "blended");
            assert_eq!(shown.entries[0].ts, "2026-03-16T12:01:00Z");
            assert_eq!(shown.entries[0].stream, "stderr");
            assert_eq!(shown.entries[0].line, "x");
        }
        other => panic!("{other:?}"),
    }
}

#[test]
fn logs_of_one_stream() {
    let mut mgr = one_session();
    say(&mut mgr, Stream::Stdout, "server started on :3000");
    say(&mut mgr, Stream::Stderr, "warning: config file missing");
    say(&mut mgr, Stream::Stdout, "ready");
    let text = |stream: &str| snapshot_text(get_logs(&mgr, &7, &text_query(stream)).unwrap());
    assert_eq!(text("stdout"), "server started on :3000\nready\n");
    assert_eq!(text("stderr"), "warning: config file missing\n");
    assert_eq!(
        text("blended"),
        "[stdout] server started on :3000\n[stderr] warning: config file missing\n[stdout] ready\n"
    );
    assert_eq!(
        text("other"),
        "server started on :3000\nwarning: config file missing\nready\n"
    );
    let q = LogsQuery { stream: Some("stdout".into()), limit: Some(1), ..query() };
    assert_eq!(shown_seqs(get_logs(&mgr, &7, &q).unwrap()), (vec![2], 3));
    let q = LogsQuery { stream: Some("stderr".into()), ..query() };
    assert_eq!(shown_seqs(get_logs(&mgr, &7, &q).unwrap()), (vec![1], 2));
}

#[test]
fn unknown_sessions_have_no_logs() {
    let mgr = one_session();
    assert_eq!(get_logs(&mgr, &8, &query()).unwrap_err().status(), 404);
    assert_eq!(get_tail(&mgr, &8, &query()).unwrap_err().status(), 404);
    assert_eq!(get_head(&mgr, &8, &query()).unwrap_err().status(), 404);
}

#[test]
fn asking_again_resumes() {
    let mut mgr = one_session();
    for _ in 0..3 {
        say(&mut mgr, Stream::Stdout, "a");
    }
    let (_, next) = shown_seqs(get_logs(&mgr, &7, &query()).unwrap());
    let again = LogsQuery { since_seq: Some(next), ..query() };
    assert_eq!(shown_seqs(get_logs(&mgr, &7, &again).unwrap()), (vec![], 3));
    say(&mut mgr, Stream::Stderr, "b");
    say(&mut mgr, Stream::Stdout, "c");
    assert_eq!(shown_seqs(get_logs(&mgr, &7, &again).unwrap()), (vec![3, 4], 5));
    let out = LogsQuery { stream: Some("stdout".into()), since_seq: Some(3), ..query() };
    assert_eq!(shown_seqs(get_logs(&mgr, &7, &out).unwrap()), (vec![4], 5));
}

#[test]
fn following_starts_with_the_lines_of_the_moment() {
    let mut mgr = one_session();
    say(&mut mgr, Stream::Stdout, "a");
    say(&mut mgr, Stream::Stderr, "b");
    let q = LogsQuery { follow: Some(1), ..text_query("blended") };
    match get_logs(&mgr, &7, &q).unwrap() {
        LogsReply::Follow(f) => {
            assert_eq!(f.initial, vec!["[stdout] a\n", "[stderr] b\n"]);
            assert_eq!(f.stream, "blended");
            assert_eq!(f.format, "text");
            let text = snapshot_text(get_logs(&mgr, &7, &text_query("blended")).unwrap());
            assert_eq!(f.initial.concat(), text);
        }
        other => panic!("{other:?}"),
    }
    let q = LogsQuery { follow: Some(1), ..text_query("stderr") };
    match get_tail(&mgr, &7, &q).unwrap() {
        LogsReply::Follow(f) => assert_eq!(f.initial, vec!["b\n"]),
        other => panic!("{other:?}"),
    }
    let q = LogsQuery { follow: Some(1), ..text_query("other") };
    match get_logs(&mgr, &7, &q).unwrap() {
        LogsReply::Follow(f) => assert_eq!(f.initial, vec!["[stdout] a\n", "[stderr] b\n"]),
        other => panic!("{other:?}"),
    }
    for follow in [Some(0), Some(2), None] {
        let q = LogsQuery { follow, ..query() };
        assert!(matches!(get_logs(&mgr, &7, &q).unwrap(), LogsReply::Snapshot(_)));
    }
}

#[test]
fn readers_get_the_lines_of_their_stream() {
    let out = FollowEvent::Entry(entry(1, Stream::Stdout, "a"));
    let err = FollowEvent::Entry(entry(2, Stream::Stderr, "b"));
    assert_eq!(follow_chunk("blended", "text", &out).as_deref(), Some("[stdout] a\n"));
    assert_eq!(follow_chunk("blended", "text", &err).as_deref(), Some("[stderr] b\n"));
    assert_eq!(follow_chunk("stdout", "text", &out).as_deref(), Some("a\n"));
    assert_eq!(follow_chunk("stdout", "text", &err), None);
    assert_eq!(follow_chunk("stderr", "text", &out), None);
    assert_eq!(follow_chunk("stderr", "text", &err).as_deref(), Some("b\n"));
    assert_eq!(follow_chunk("other", "text", &out), None);
    assert_eq!(
        follow_chunk("stdout", "json", &out),
        Some(format_entry(&entry(1, Stream::Stdout, "a"), "json"))
    );
}

#[test]
fn following_goes_on_from_the_buffer() {
    for stream in ["blended", "stdout", "stderr"] {
        for format in ["text", "json"] {
            let mut mgr = one_session();
            say(&mut mgr, Stream::Stdout, "a");
            say(&mut mgr, Stream::Stderr, "b");
            let q = || LogsQuery {
                follow: Some(1),
                format: Some(format.into()),
                ..text_query(stream)
            };
            let mut sent = match get_logs(&mgr, &7, &q()).unwrap() {
                LogsReply::Follow(f) => f.initial,
                other => panic!("{other:?}"),
            };
            for (i, from) in [Stream::Stderr, Stream::Stdout, Stream::Stdout].iter().enumerate() {
                say(&mut mgr, *from, "c");
                let ts = at(NOON + 60);
                let e = LogEntry { seq: 2 + i as u64, ts, stream: *from, line: "c".into() };
                sent.extend(follow_chunk(stream, format, &FollowEvent::Entry(e)));
            }
            match get_logs(&mgr, &7, &q()).unwrap() {
                LogsReply::Follow(f) => assert_eq!(sent, f.initial),
                other => panic!("{other:?}"),
            }
        }
    }
}

#[test]
fn slow_readers_are_told() {
    let lagged = FollowEvent::Lagged(42);
    for stream in ["blended", "stdout", "other"] {
        assert_eq!(
            follow_chunk_at(stream, "text", &lagged, at(NOON)).as_deref(),
            Some("[korun: dropped 42 lines]\n")
        );
        assert_eq!(
            follow_chunk_at(stream, "json", &lagged, at(NOON)).as_deref(),
            Some(
                "{\"line\":\"dropped 42 lines\",\"seq\":0,\"stream\":\"system\",\
                 \"ts\":\"2026-03-16T12:00:00+00:00\"}\n"
            )
        );
    }
}

#[test]
fn snapshots_without_lines() {
    match render_snapshot(7, "stdout", &vec![], 5, "text") {
        Snapshot::Text(text) => assert_eq!(text, ""),
        other => panic!("{other:?}"),
    }
    match render_snapshot(7, "stdout", &vec![], 5, "json") {
        Snapshot::Json(shown) => {
            assert!(shown.entries.is_empty());
            assert_eq!(shown.stream, "stdout");
            assert_eq!(shown.next_seq, 5);
        }
        other => panic!("{other:?}"),
    }
}
