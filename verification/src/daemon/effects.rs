//! What each event changes in a session, field by field, and what stays.

use vstd::prelude::*;

use crate::clock::Timestamp;
use crate::daemon::buffer;
use crate::daemon::buffer::{LogEntry, Stream};
use crate::daemon::env_map::EnvMap;
use crate::daemon::process;
use crate::daemon::process::{
    ExitStatus, RunningEvent, RunningStep, SupervisorTurn, TerminationEvent, TerminationStep,
};
use crate::daemon::session::{Session, SessionCommand, SessionState};
use crate::ids::SessionId;

verus! {

/// However a command ends for good, on its own or stopped without a restart, the
/// session afterwards has the very exit code and signal that it ended with, 0 as
/// any other; it has exited, has no process, stopped then, and is else as it was.
pub proof fn law_the_end_is_recorded_as_it_was(s: Session, status: ExitStatus, now: Timestamp)
    ensures
        ({
            let alone = s.after_running(RunningEvent::Exited(status), now);
            let stopped = s.after_termination(status, false, now);
            &&& alone.exit_code == status.code && alone.term_signal == status.signal
            &&& stopped.exit_code == status.code && stopped.term_signal == status.signal
            &&& alone.state == SessionState::Exited && stopped.state == SessionState::Exited
            &&& alone.pid is None && stopped.pid is None
            &&& alone.last_stopped_at == Some(now) && stopped.last_stopped_at == Some(now)
            &&& alone == Session {
                state: alone.state,
                pid: alone.pid,
                last_stopped_at: alone.last_stopped_at,
                exit_code: alone.exit_code,
                term_signal: alone.term_signal,
                ..s
            }
            &&& stopped == alone
        }),
{
}

/// Whatever state a session ends in, its end is recorded as it was.
pub proof fn law_every_end_is_recorded_as_it_was(
    s: Session,
    state: SessionState,
    status: ExitStatus,
    now: Timestamp,
)
    ensures
        ({
            let t = s.ended(state, status, now);
            &&& t.exit_code == status.code && t.term_signal == status.signal
            &&& t.state == state && t.pid is None && t.last_stopped_at == Some(now)
            &&& t == Session {
                state: t.state,
                pid: t.pid,
                last_stopped_at: t.last_stopped_at,
                exit_code: t.exit_code,
                term_signal: t.term_signal,
                ..s
            }
        }),
{
}

/// Two ends that leave a session alike were alike: neither the code nor the
/// signal of one can be taken for that of the other.
pub proof fn law_ends_are_told_apart(
    s: Session,
    a: ExitStatus,
    b: ExitStatus,
    now: Timestamp,
)
    requires
        s.after_running(RunningEvent::Exited(a), now) == s.after_running(
            RunningEvent::Exited(b),
            now,
        ) || s.after_termination(a, false, now) == s.after_termination(b, false, now),
    ensures
        a == b,
{
}

/// A command that starts runs as the process it was started as, from then on,
/// or from when the session was made where it never started before; nothing is
/// known of an end any more, and all else stays.
pub proof fn law_a_start_is_recorded(s: Session, pid: u32, now: Timestamp)
    ensures
        ({
            let t = s.after_spawn(Some(pid), now);
            &&& t.state == SessionState::Running
            &&& t.pid == Some(pid)
            &&& t.exit_code is None && t.term_signal is None
            &&& s.last_started_at is Some || s.restart_count > 0 ==> t.last_started_at == Some(now)
            &&& s.last_started_at is None && s.restart_count == 0 ==> t.last_started_at == Some(
                s.started_at,
            )
            &&& t == Session {
                state: t.state,
                pid: t.pid,
                exit_code: t.exit_code,
                term_signal: t.term_signal,
                last_started_at: t.last_started_at,
                ..s
            }
        }),
{
}

/// A command that cannot be started, or not be waited for, leaves the session
/// failed, without a process and without an end that is known of.
pub proof fn law_a_failure_is_recorded(s: Session, now: Timestamp)
    ensures
        ({
            let t = s.after_spawn(None, now);
            &&& t.state == SessionState::Failed
            &&& t.pid is None
            &&& t.exit_code is None && t.term_signal is None
            &&& t.last_stopped_at == Some(now)
            &&& t == Session {
                state: t.state,
                pid: t.pid,
                exit_code: t.exit_code,
                term_signal: t.term_signal,
                last_stopped_at: t.last_stopped_at,
                ..s
            }
            &&& s.after_running(RunningEvent::WaitFailed, now) == t
        }),
{
}

/// A running session that is told to stop, or to restart, is stopping; the
/// restart is counted, under its kind, and nothing else changes. The command is
/// to be ended, and started again for a restart only. A session that nothing can
/// be told any more stays as it is.
pub proof fn law_commands_are_taken_while_running(s: Session, is_watch: bool, now: Timestamp)
    requires
        s.restart_count < u32::MAX,
        s.restart_count == s.manual_restart_count + s.watch_restart_count,
    ensures
        ({
            let stop = RunningEvent::Command(SessionCommand::Stop);
            let restart = RunningEvent::Command(SessionCommand::Restart { is_watch });
            let t = s.after_running(stop, now);
            let u = s.after_running(restart, now);
            &&& t.state == SessionState::Stopping && t == Session { state: t.state, ..s }
            &&& u.state == SessionState::Stopping
            &&& u.restart_count == s.restart_count + 1
            &&& u.manual_restart_count - s.manual_restart_count == if is_watch {
                0int
            } else {
                1int
            }
            &&& u.watch_restart_count - s.watch_restart_count == if is_watch {
                1int
            } else {
                0int
            }
            &&& u == Session {
                state: u.state,
                restart_count: u.restart_count,
                manual_restart_count: u.manual_restart_count,
                watch_restart_count: u.watch_restart_count,
                ..s
            }
            &&& process::running_step(stop) == (RunningStep::Terminate { restart_after: false })
            &&& process::running_step(restart) == (RunningStep::Terminate { restart_after: true })
            &&& s.after_running(RunningEvent::CommandsClosed, now) == s
            &&& process::running_step(RunningEvent::CommandsClosed) == RunningStep::Over
            &&& process::running_step(RunningEvent::WaitFailed) == RunningStep::Over
            &&& forall|status: ExitStatus|
                #[trigger] process::running_step(RunningEvent::Exited(status)) == RunningStep::Over
        }),
{
}

/// A command that was stopped for a restart leaves the session to start: without
/// a process, stopped then, and with nothing known of the end.
pub proof fn law_a_stop_for_a_restart(s: Session, status: ExitStatus, now: Timestamp)
    ensures
        ({
            let t = s.after_termination(status, true, now);
            &&& t.state == SessionState::Starting
            &&& t.pid is None
            &&& t.exit_code is None && t.term_signal is None
            &&& t.last_stopped_at == Some(now)
            &&& t == Session {
                state: t.state,
                pid: t.pid,
                exit_code: t.exit_code,
                term_signal: t.term_signal,
                last_stopped_at: t.last_stopped_at,
                ..s
            }
        }),
{
}

/// A session whose command is over is to start when it is told to restart: the
/// restart is counted, under its kind, there is no process and nothing known of
/// the end, and all else stays. Told to stop, or nothing, it stays as it is.
pub proof fn law_commands_are_taken_at_rest(s: Session, is_watch: bool)
    requires
        s.restart_count < u32::MAX,
        s.restart_count == s.manual_restart_count + s.watch_restart_count,
    ensures
        ({
            let t = s.after_command(Some(SessionCommand::Restart { is_watch }));
            &&& t.state == SessionState::Starting
            &&& t.pid is None
            &&& t.exit_code is None && t.term_signal is None
            &&& t.restart_count == s.restart_count + 1
            &&& t.manual_restart_count - s.manual_restart_count == if is_watch {
                0int
            } else {
                1int
            }
            &&& t.watch_restart_count - s.watch_restart_count == if is_watch {
                1int
            } else {
                0int
            }
            &&& t == Session {
                state: t.state,
                pid: t.pid,
                exit_code: t.exit_code,
                term_signal: t.term_signal,
                restart_count: t.restart_count,
                manual_restart_count: t.manual_restart_count,
                watch_restart_count: t.watch_restart_count,
                ..s
            }
            &&& s.after_command(Some(SessionCommand::Stop)) == s
            &&& s.after_command(None) == s
        }),
{
}

/// A turn changes nothing but the state, and that only of a session whose
/// supervision was cut short; a session to start is started, and one at rest
/// waits.
pub proof fn law_turns_go_by_the_state(s: Session)
    ensures
        s.after_turn() == (Session { state: s.after_turn().state, ..s }),
        s.state == SessionState::Starting || s.state == SessionState::Exited || s.state
            == SessionState::Failed ==> s.after_turn().state == s.state,
        s.state == SessionState::Running ==> s.after_turn().state == SessionState::Starting,
        s.state == SessionState::Stopping ==> s.after_turn().state == SessionState::Exited,
        process::supervisor_turn(SessionState::Starting) == SupervisorTurn::Spawn,
        process::supervisor_turn(SessionState::Running) == SupervisorTurn::Again,
        process::supervisor_turn(SessionState::Stopping) == SupervisorTurn::Again,
        process::supervisor_turn(SessionState::Exited) == SupervisorTurn::AwaitCommand,
        process::supervisor_turn(SessionState::Failed) == SupervisorTurn::AwaitCommand,
{
}

/// To stop a command, its process group is asked to end and given two seconds,
/// and then the same group is killed; the end is reported as it was. The group
/// is addressed by the negated number of the process.
pub proof fn law_a_group_is_asked_and_then_killed(pid: u32, status: ExitStatus)
    requires
        pid != 0x8000_0000,
    ensures
        ({
            let asked = process::termination_step(pid, TerminationEvent::Begin);
            let killed = process::termination_step(pid, TerminationEvent::GraceElapsed);
            &&& asked is Terminate && asked->grace_secs == 2
            &&& killed is Kill && killed->Kill_target == asked->Terminate_target
            &&& pid <= i32::MAX ==> asked->Terminate_target + pid == 0
            &&& pid > i32::MAX ==> asked->Terminate_target + pid == 0x1_0000_0000
            &&& process::termination_step(pid, TerminationEvent::Exited(status))
                == TerminationStep::Done(status)
            &&& process::termination_step(pid, TerminationEvent::WaitFailed)
                == TerminationStep::WaitAgain
        }),
{
}

/// The files that changed in a window are all counted, the last of them and the
/// time are kept, and nothing else changes; a window without changes changes
/// nothing.
pub proof fn law_changes_of_a_window_are_counted(
    s: Session,
    paths: Seq<String>,
    now: Timestamp,
)
    requires
        s.file_change_count + paths.len() <= u64::MAX,
    ensures
        ({
            let t = s.with_file_changes(paths, now);
            &&& t.file_change_count == s.file_change_count + paths.len()
            &&& paths.len() == 0 ==> t == s
            &&& paths.len() > 0 ==> t.last_change_at == Some(now) && t.last_change_path == Some(
                paths[paths.len() - 1],
            )
            &&& t == Session {
                file_change_count: t.file_change_count,
                last_change_at: t.last_change_at,
                last_change_path: t.last_change_path,
                ..s
            }
        }),
{
}

/// A new session is to start what it was made with, and has done nothing yet.
pub proof fn law_a_new_session_has_done_nothing(
    s: Session,
    id: SessionId,
    command: Vec<String>,
    cwd: String,
    env_overrides: EnvMap,
    watch: Vec<String>,
    now: Timestamp,
)
    requires
        s.is_fresh(id, command, cwd, env_overrides, watch, now),
    ensures
        s.id == id && s.command == command && s.cwd == cwd && s.env_overrides == env_overrides
            && s.watch == watch && s.started_at == now,
        s.state == SessionState::Starting,
        s.pid is None && s.exit_code is None && s.term_signal is None,
        s.last_started_at is None && s.last_stopped_at is None,
        s.restart_count == 0 && s.manual_restart_count == 0 && s.watch_restart_count == 0,
        s.file_change_count == 0 && s.last_change_at is None && s.last_change_path is None,
        s.next_log_seq == 0,
        s.stdout_buf@.entries.len() == 0 && s.stdout_buf@.dropped == 0 && s.stdout_buf@.total_bytes
            == 0 && s.stdout_buf@.next_seq == 0,
        s.stderr_buf@.entries.len() == 0 && s.stderr_buf@.dropped == 0 && s.stderr_buf@.total_bytes
            == 0 && s.stderr_buf@.next_seq == 0,
        s.blended_buf@.entries.len() == 0 && s.blended_buf@.dropped == 0
            && s.blended_buf@.total_bytes == 0 && s.blended_buf@.next_seq == 0,
{
}

/// A line that was read comes last, as it is, in the buffer of its stream and in
/// the blended buffer; the other stream's buffer stays, the next line gets the
/// next number, and the bytes grow on the line's own stream only.
pub proof fn law_a_line_goes_to_its_stream(s: Session, entry: LogEntry, t: Session)
    requires
        process::takes_in(s, entry, t),
    ensures
        t.next_log_seq == s.next_log_seq + 1,
        t.blended_buf@.entries.len() > 0,
        t.blended_buf@.entries[t.blended_buf@.entries.len() - 1] == entry,
        t.blended_buf@.total_bytes == s.blended_buf@.total_bytes,
        entry.stream == Stream::Stdout ==> {
            &&& t.stdout_buf@.entries.len() > 0
            &&& t.stdout_buf@.entries[t.stdout_buf@.entries.len() - 1] == entry
            &&& t.stdout_buf@.total_bytes == s.stdout_buf@.total_bytes + vstd::utf8::encode_utf8(
                entry.line@,
            ).len() + 1
        },
        entry.stream == Stream::Stderr ==> {
            &&& t.stderr_buf@.entries.len() > 0
            &&& t.stderr_buf@.entries[t.stderr_buf@.entries.len() - 1] == entry
            &&& t.stderr_buf@.total_bytes == s.stderr_buf@.total_bytes + vstd::utf8::encode_utf8(
                entry.line@,
            ).len() + 1
        },
        entry.stream != Stream::Stdout ==> t.stdout_buf@ == s.stdout_buf@,
        entry.stream != Stream::Stderr ==> t.stderr_buf@ == s.stderr_buf@,
        t == (Session {
            next_log_seq: t.next_log_seq,
            stdout_buf: t.stdout_buf,
            stderr_buf: t.stderr_buf,
            blended_buf: t.blended_buf,
            ..s
        }),
{
    let before = process::output_of(s);
    let after = process::output_of(t);
    assert(after.next_seq == t.next_log_seq && before.next_seq == s.next_log_seq);
    assert(after.stdout == t.stdout_buf@ && after.stderr == t.stderr_buf@ && after.blended
        == t.blended_buf@);
    buffer::law_a_line_comes_last(before.stdout, entry, true);
    buffer::law_a_line_comes_last(before.stderr, entry, true);
    buffer::law_a_line_comes_last(before.blended, entry, false);
}

/// A session whose command is up has been up for the whole milliseconds from its
/// last start, and any other for none.
pub proof fn law_uptime_counts_from_the_last_start(s: Session, now: Timestamp)
    ensures
        s.state == SessionState::Starting || s.state == SessionState::Exited || s.state
            == SessionState::Failed || s.last_started_at is None ==> s.uptime(now) == 0,
        (s.state == SessionState::Running || s.state == SessionState::Stopping)
            && s.last_started_at is Some ==> {
            let t = s.last_started_at->0;
            let nanos = (now.spec_secs() - t.spec_secs()) * 1_000_000_000 + (now.spec_nanos()
                - t.spec_nanos());
            &&& nanos >= 0 ==> 1_000_000 * s.uptime(now) <= nanos < 1_000_000 * (s.uptime(now) + 1)
            &&& nanos < 0 ==> s.uptime(now) == 0
        },
{
    if let Some(t) = s.last_started_at {
        crate::clock::law_milliseconds_are_whole(now, t);
    }
}

/// A session's command is over where it has exited or failed, and in no other
/// state.
pub proof fn law_two_states_are_the_end(state: SessionState)
    ensures
        state.is_terminal() <==> state == SessionState::Exited || state == SessionState::Failed,
        SessionState::Starting.name() == "starting"@,
        SessionState::Running.name() == "running"@,
        SessionState::Stopping.name() == "stopping"@,
        SessionState::Exited.name() == "exited"@,
        SessionState::Failed.name() == "failed"@,
{
}

} // verus!
