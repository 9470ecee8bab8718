use korun::clock::Timestamp;
use korun::daemon::buffer::Stream;
use korun::daemon::env_map::EnvMap;
use korun::daemon::process::{
    read_stream, record_spawn, record_terminal_exit, record_termination, resume_with_command,
    run_supervisor, spawn_child, supervise_running_session, terminate_child, ExitStatus, ReadEvent,
    ReadStep, RunningEvent, RunningStep, SpawnError, SupervisorTurn, TerminationEvent,
    TerminationStep,
};
use korun::daemon::session::{Session, SessionCommand, SessionState};

fn at(secs: i64) -> Timestamp {
    Timestamp::from_parts(secs, 0).unwrap()
}

fn words(list: &[&str]) -> Vec<String> {
    list.iter().map(|w| w.to_string()).collect()
}

fn session(command: &[&str]) -> Session {
    Session::new_at(1, words(command), "/tmp".into(), EnvMap::new(), vec![], at(100))
}

fn exited(code: i32) -> ExitStatus {
    ExitStatus { code: Some(code), signal: None }
}

fn killed(signal: i32) -> ExitStatus {
    ExitStatus { code: None, signal: Some(signal) }
}

fn line(s: &mut Session, stream: Stream, text: &str) -> u64 {
    match read_stream(s, stream, ReadEvent::Line(text.into()), at(200)) {
        ReadStep::Publish(entry) => {
            assert_eq!(entry.line, text);
            assert_eq!(entry.stream, stream);
            assert_eq!(entry.ts, at(200));
            entry.seq
        }
        ReadStep::Finish => panic!("a line does not end the reading"),
    }
}

fn start(s: &mut Session, pid: u32, now: i64) {
    assert_eq!(run_supervisor(s), SupervisorTurn::Spawn);
    assert!(record_spawn(s, Some(pid), at(now)));
}

#[test]
fn spawn_echo_captures_stdout() {
    let mut s = session(&["echo", "hello from korun"]);
    let plan = spawn_child(&s.command, &s.cwd, &s.env_overrides).unwrap();
    assert_eq!(plan.program, "echo");
    assert_eq!(plan.args, vec!["hello from korun"]);
    assert_eq!(plan.cwd, "/tmp");
    line(&mut s, Stream::Stdout, "hello from korun");

    let entries = s.stdout_buf.tail(10);
    assert!(!entries.is_empty());
    assert_eq!(entries[0].line, "hello from korun");
    assert_eq!(entries[0].stream, Stream::Stdout);
}

#[test]
fn supervisor_stop_transitions_to_exited() {
    let mut s = session(&["sleep", "10"]);
    start(&mut s, 50, 101);
    assert_eq!(s.state, SessionState::Running);

    let step =
        supervise_running_session(&mut s, RunningEvent::Command(SessionCommand::Stop), at(102));
    assert_eq!(step, RunningStep::Terminate { restart_after: false });
    assert_eq!(s.state, SessionState::Stopping);
    assert!(!record_termination(&mut s, killed(15), false, at(103)));

    assert_eq!(s.state, SessionState::Exited);
    assert_eq!(s.pid, None);
    assert!(s.last_stopped_at.is_some());
    assert_eq!((s.exit_code, s.term_signal), (None, Some(15)));
    assert_eq!(s.last_stopped_at, Some(at(103)));
}

#[test]
fn supervisor_persists_natural_exit_metadata() {
    let mut s = session(&["sh", "-c", "exit 7"]);
    start(&mut s, 50, 101);
    let step = supervise_running_session(&mut s, RunningEvent::Exited(exited(7)), at(102));
    assert_eq!(step, RunningStep::Over);
    assert_eq!(run_supervisor(&mut s), SupervisorTurn::AwaitCommand);

    assert_eq!(s.state, SessionState::Exited);
    assert_eq!(s.exit_code, Some(7));
    assert_eq!(s.pid, None);
}

#[test]
fn supervisor_restart_from_exited_returns_to_running() {
    let mut s = session(&["sleep", "10"]);
    start(&mut s, 50, 101);
    supervise_running_session(&mut s, RunningEvent::Command(SessionCommand::Stop), at(102));
    record_termination(&mut s, killed(15), false, at(103));
    assert_eq!(s.state, SessionState::Exited);

    assert_eq!(run_supervisor(&mut s), SupervisorTurn::AwaitCommand);
    assert!(resume_with_command(&mut s, Some(SessionCommand::Restart { is_watch: false })));
    assert_eq!(s.state, SessionState::Starting);
    assert_eq!((s.pid, s.exit_code, s.term_signal), (None, None, None));
    start(&mut s, 51, 104);
    assert_eq!(s.state, SessionState::Running);
    assert_eq!(s.manual_restart_count, 1);
    assert_eq!(s.restart_count, 1);
    assert_eq!(s.pid, Some(51));
    assert_eq!(s.last_started_at, Some(at(104)));
}

#[test]
fn spawn_child_uses_global_log_sequence_across_streams() {
    let mut s = session(&["sh", "-c", "printf 'out\\n'; printf 'err\\n' 1>&2"]);
    let plan = spawn_child(&s.command, &s.cwd, &s.env_overrides).unwrap();
    assert_eq!(plan.program, "sh");
    assert_eq!(plan.args, vec!["-c", "printf 'out\\n'; printf 'err\\n' 1>&2"]);
    assert_eq!(plan.cwd, "/tmp");
    line(&mut s, Stream::Stdout, "out");
    line(&mut s, Stream::Stderr, "err");

    let blended = s.blended_buf.tail(10);
    assert_eq!(blended.len(), 2);
    assert_ne!(blended[0].seq, blended[1].seq);
    assert!(blended[0].seq < blended[1].seq);
}

#[test]
fn an_empty_command_is_refused() {
    let refused = spawn_child(&vec![], "/tmp", &EnvMap::new());
    assert!(matches!(refused, Err(SpawnError::EmptyCommand)));
    assert_eq!(SpawnError::EmptyCommand.message(), "empty command");
}

#[test]
fn a_plan_keeps_the_environment() {
    let mut env = EnvMap::new();
    env.insert("RUST_LOG".into(), "debug".into());
    let plan = spawn_child(&words(&["cargo", "run", "-q"]), "/tmp/app", &env).unwrap();
    assert_eq!(plan.program, "cargo");
    assert_eq!(plan.args, vec!["run", "-q"]);
    assert_eq!(plan.cwd, "/tmp/app");
    assert_eq!(plan.env.get("RUST_LOG"), Some("debug"));
}

#[test]
fn lines_go_to_their_stream_and_to_the_blend() {
    let mut s = session(&["x"]);
    assert_eq!(line(&mut s, Stream::Stdout, "a"), 0);
    assert_eq!(line(&mut s, Stream::Stderr, "bb"), 1);
    assert_eq!(line(&mut s, Stream::Stdout, "ccc"), 2);
    assert_eq!(s.next_seq(), 3);
    let seqs = |b: Vec<korun::daemon::buffer::LogEntry>| -> Vec<u64> {
        b.iter().map(|e| e.seq).collect()
    };
    assert_eq!(seqs(s.stdout_buf.head(9)), vec![0, 2]);
    assert_eq!(seqs(s.stderr_buf.head(9)), vec![1]);
    assert_eq!(seqs(s.blended_buf.head(9)), vec![0, 1, 2]);
    assert_eq!(s.stdout_buf.stats().bytes, 6);
    assert_eq!(s.stderr_buf.stats().bytes, 3);
    assert_eq!(s.blended_buf.stats().bytes, 0);
    assert_eq!(s.stdout_buf.peek_next_seq(), 3);
    assert_eq!(s.stderr_buf.peek_next_seq(), 2);
}

#[test]
fn reading_ends_with_the_stream() {
    let mut s = session(&["x"]);
    for event in [ReadEvent::End, ReadEvent::Broken] {
        let step = read_stream(&mut s, Stream::Stderr, event, at(1));
        assert!(matches!(step, ReadStep::Finish));
    }
    assert_eq!(s.next_seq(), 0);
}

#[test]
fn a_session_keeps_the_newest_lines() {
    let mut s = session(&["x"]);
    for i in 0..25_000u64 {
        let stream = if i % 2 == 0 { Stream::Stdout } else { Stream::Stderr };
        assert_eq!(line(&mut s, stream, "x"), i);
    }
    assert_eq!(s.stdout_buf.len(), 10_000);
    assert_eq!(s.stdout_buf.dropped, 2_500);
    assert_eq!(s.stdout_buf.head(1)[0].seq, 5_000);
    assert_eq!(s.stderr_buf.head(1)[0].seq, 5_001);
    assert_eq!(s.blended_buf.len(), 20_000);
    assert_eq!(s.blended_buf.dropped, 5_000);
    assert_eq!(s.blended_buf.head(1)[0].seq, 5_000);
    assert_eq!(s.blended_buf.tail(1)[0].seq, 24_999);
    assert_eq!(s.stdout_buf.total_bytes, 25_000);
    assert_eq!(s.blended_buf.total_bytes, 0);
}

#[test]
fn the_first_start_is_the_making() {
    let mut s = session(&["x"]);
    start(&mut s, 50, 130);
    assert_eq!(s.last_started_at, Some(at(100)));
    assert_eq!(s.uptime_ms_at(at(131)), 31_000);
}

#[test]
fn a_restart_comes_around() {
    let mut s = session(&["x"]);
    start(&mut s, 50, 101);
    line(&mut s, Stream::Stdout, "before");
    let told = RunningEvent::Command(SessionCommand::Restart { is_watch: true });
    let step = supervise_running_session(&mut s, told, at(102));
    assert_eq!(step, RunningStep::Terminate { restart_after: true });
    assert_eq!(s.state, SessionState::Stopping);
    assert_eq!((s.restart_count, s.watch_restart_count, s.manual_restart_count), (1, 1, 0));
    assert_eq!(s.pid, Some(50));

    assert!(record_termination(&mut s, killed(9), true, at(103)));
    assert_eq!(s.state, SessionState::Starting);
    assert_eq!((s.pid, s.exit_code, s.term_signal), (None, None, None));
    assert_eq!(s.last_stopped_at, Some(at(103)));

    start(&mut s, 51, 104);
    assert_eq!(s.state, SessionState::Running);
    assert_eq!(s.last_started_at, Some(at(104)));
    assert_eq!(s.restart_count, 1);
    assert_eq!(line(&mut s, Stream::Stdout, "after"), 1);
    assert_eq!(s.stdout_buf.head(1)[0].line, "before");
    assert_eq!(s.started_at, at(100));
}

#[test]
fn a_command_that_cannot_start_fails() {
    let mut s = session(&["/no/such/program"]);
    assert_eq!(run_supervisor(&mut s), SupervisorTurn::Spawn);
    assert!(!record_spawn(&mut s, None, at(101)));
    assert_eq!(s.state, SessionState::Failed);
    assert_eq!((s.pid, s.exit_code, s.term_signal), (None, None, None));
    assert_eq!(s.last_stopped_at, Some(at(101)));
    assert_eq!(run_supervisor(&mut s), SupervisorTurn::AwaitCommand);
    assert!(resume_with_command(&mut s, Some(SessionCommand::Restart { is_watch: true })));
    assert_eq!(s.state, SessionState::Starting);
    assert_eq!(s.watch_restart_count, 1);
}

#[test]
fn a_command_that_cannot_be_waited_for_fails() {
    let mut s = session(&["x"]);
    start(&mut s, 50, 101);
    let step = supervise_running_session(&mut s, RunningEvent::WaitFailed, at(102));
    assert_eq!(step, RunningStep::Over);
    assert_eq!(s.state, SessionState::Failed);
    assert_eq!(s.pid, None);
}

#[test]
fn nothing_but_a_restart_revives_a_session() {
    let mut s = session(&["x"]);
    start(&mut s, 50, 101);
    supervise_running_session(&mut s, RunningEvent::Exited(exited(1)), at(102));
    for _ in 0..3 {
        assert_eq!(run_supervisor(&mut s), SupervisorTurn::AwaitCommand);
        assert!(resume_with_command(&mut s, Some(SessionCommand::Stop)));
    }
    s.record_file_changes(vec!["/tmp/a".into()], at(103));
    assert!(!resume_with_command(&mut s, None));
    assert_eq!(s.state, SessionState::Exited);
    assert_eq!(s.exit_code, Some(1));
    assert_eq!(s.restart_count, 0);
}

#[test]
fn closed_commands_leave_the_session() {
    let mut s = session(&["x"]);
    start(&mut s, 50, 101);
    let step = supervise_running_session(&mut s, RunningEvent::CommandsClosed, at(102));
    assert_eq!(step, RunningStep::Over);
    assert_eq!(s.state, SessionState::Running);
    assert_eq!(run_supervisor(&mut s), SupervisorTurn::Again);
    assert_eq!(s.state, SessionState::Starting);
}

#[test]
fn a_turn_puts_a_stopping_session_to_rest() {
    let mut s = session(&["x"]);
    s.state = SessionState::Stopping;
    assert_eq!(run_supervisor(&mut s), SupervisorTurn::Again);
    assert_eq!(s.state, SessionState::Exited);
}

#[test]
fn a_terminal_exit_is_recorded() {
    let mut s = session(&["x"]);
    start(&mut s, 50, 101);
    record_terminal_exit(&mut s, SessionState::Failed, killed(11), at(102));
    assert_eq!(s.state, SessionState::Failed);
    assert_eq!((s.pid, s.exit_code, s.term_signal), (None, None, Some(11)));
    assert_eq!(s.last_stopped_at, Some(at(102)));
}

#[test]
fn stopping_asks_first_and_kills_later() {
    assert_eq!(
        terminate_child(43122, TerminationEvent::Begin),
        TerminationStep::Terminate { target: -43122, grace_secs: 2 }
    );
    assert_eq!(
        terminate_child(43122, TerminationEvent::GraceElapsed),
        TerminationStep::Kill { target: -43122 }
    );
    assert_eq!(
        terminate_child(43122, TerminationEvent::WaitFailed),
        TerminationStep::WaitAgain
    );
    assert_eq!(
        terminate_child(43122, TerminationEvent::Exited(exited(0))),
        TerminationStep::Done(exited(0))
    );
}

#[test]
fn group_numbers_wrap_as_signed_numbers_do() {
    for pid in [1u32, 2, i32::MAX as u32, 0x8000_0001, u32::MAX] {
        let expected = -(pid as i32);
        assert_eq!(
            terminate_child(pid, TerminationEvent::GraceElapsed),
            TerminationStep::Kill { target: expected }
        );
    }
}

#[test]
fn a_session_lives_consistently() {
    let mut s = session(&["x"]);
    let mut seed: u64 = 7;
    let mut restarts = 0;
    let mut lines = 0;
    let mut starts = 0;
    let mut again = false;
    for i in 0..2_000i64 {
        seed = seed.wrapping_mul(6364136223846793005).wrapping_add(1442695040888963407);
        let pick = (seed >> 33) % 6;
        let now = at(101 + i);
        let restart = SessionCommand::Restart { is_watch: pick % 2 == 0 };
        match (s.state, pick) {
            (_, 0) => {
                line(&mut s, if i % 2 == 0 { Stream::Stdout } else { Stream::Stderr }, "x");
                lines += 1;
            }
            (_, 1) => {
                s.record_file_changes(vec!["/tmp/a".into()], now);
            }
            (SessionState::Starting, 2) => {
                record_spawn(&mut s, None, now);
                starts += 1;
            }
            (SessionState::Starting, _) => {
                record_spawn(&mut s, Some(pick as u32 + 1), now);
                starts += 1;
            }
            (SessionState::Running, 2) => {
                supervise_running_session(&mut s, RunningEvent::Exited(exited(3)), now);
            }
            (SessionState::Running, 3) => {
                let told = RunningEvent::Command(SessionCommand::Stop);
                supervise_running_session(&mut s, told, now);
                again = false;
            }
            (SessionState::Running, _) => {
                supervise_running_session(&mut s, RunningEvent::Command(restart), now);
                again = true;
                restarts += 1;
            }
            (SessionState::Stopping, _) => {
                record_termination(&mut s, killed(15), again, now);
            }
            (SessionState::Exited | SessionState::Failed, 2) => {
                resume_with_command(&mut s, Some(SessionCommand::Stop));
            }
            (SessionState::Exited | SessionState::Failed, _) => {
                resume_with_command(&mut s, Some(restart));
                restarts += 1;
            }
        }
        assert_eq!(s.restart_count, restarts);
        assert_eq!(s.restart_count, s.manual_restart_count + s.watch_restart_count);
        let due = s.state == SessionState::Starting || s.state == SessionState::Stopping && again;
        assert_eq!(starts + due as u32, 1 + restarts);
        assert_eq!(s.next_seq(), lines);
        assert_eq!(s.blended_buf.len() as u64, lines);
        if s.state == SessionState::Running {
            assert!(s.pid.is_some() && s.last_started_at.is_some());
        }
        if s.exit_code.is_some() || s.term_signal.is_some() {
            assert_eq!(s.state, SessionState::Exited);
        }
        if s.state == SessionState::Failed {
            assert!(s.pid.is_none() && s.last_stopped_at.is_some());
        }
        assert_eq!((s.id, s.started_at), (1, at(100)));
    }
    assert!(restarts > 100 && lines > 100);
}
