//! What holds of a session over its whole life.

use vstd::prelude::*;

use crate::clock::Timestamp;
use crate::daemon::buffer;
use crate::daemon::buffer::{LogEntry, Stream};
use crate::daemon::process;
use crate::daemon::process::{ExitStatus, OutputView, RunningEvent};
use crate::daemon::session::{
    Session, SessionCommand, SessionState, BLENDED_BUF_CAPACITY, STDERR_BUF_CAPACITY,
    STDOUT_BUF_CAPACITY,
};

verus! {

/// What can happen to a session.
pub enum SessionEvent {
    /// Its supervisor begins a turn.
    Turn,
    /// Its command was started, or could not be.
    Spawned { pid: Option<u32>, now: Timestamp },
    /// Something happened while its command ran.
    WhileRunning { event: RunningEvent, now: Timestamp },
    /// Its command was stopped.
    Terminated { status: ExitStatus, restart_after: bool, now: Timestamp },
    /// A command from outside came while its own was over, or none can come any
    /// more.
    Commanded { command: Option<SessionCommand> },
    /// Its command wrote a line.
    Read { entry: LogEntry },
    /// Watched files changed within one debounce window.
    FilesChanged { paths: Vec<String>, now: Timestamp },
}

impl SessionEvent {
    /// Whether this tells the session to restart.
    pub open spec fn is_restart(self) -> bool {
        match self {
            SessionEvent::WhileRunning { event: RunningEvent::Command(command), .. } => command is Restart,
            SessionEvent::Commanded { command: Some(command) } => command is Restart,
            _ => false,
        }
    }

    /// Whether this tells the session to restart, for a changed file or not.
    pub open spec fn tells_restart(self, is_watch: bool) -> bool {
        match self {
            SessionEvent::WhileRunning { event: RunningEvent::Command(command), .. } => command
                == (SessionCommand::Restart { is_watch }),
            SessionEvent::Commanded { command } => command == Some(
                SessionCommand::Restart { is_watch },
            ),
            _ => false,
        }
    }
}

/// Whether `s` becomes `t` by `event`.
pub open spec fn becomes(s: Session, event: SessionEvent, t: Session) -> bool {
    &&& event.is_restart() ==> s.restart_count < u32::MAX
    &&& match event {
        SessionEvent::Turn => t == s.after_turn(),
        SessionEvent::Spawned { pid, now } => s.state == SessionState::Starting && t
            == s.after_spawn(pid, now),
        SessionEvent::WhileRunning { event, now } => s.state == SessionState::Running && t
            == s.after_running(event, now),
        SessionEvent::Terminated { status, restart_after, now } => s.state
            == SessionState::Stopping && t == s.after_termination(status, restart_after, now),
        SessionEvent::Commanded { command } => s.state.is_terminal() && t == s.after_command(
            command,
        ),
        SessionEvent::Read { entry } => {
            &&& entry.stream != Stream::System
            &&& entry.seq == s.next_log_seq && s.next_log_seq < u64::MAX
            &&& process::takes_in(s, entry, t)
        },
        SessionEvent::FilesChanged { paths, now } => s.file_change_count + paths@.len()
            <= u64::MAX && t == s.with_file_changes(paths@, now),
    }
}

/// Whether what a session says of its command fits its state: a command that
/// runs has a process and a start, how a command ended is known of an exited
/// session only, and a failed session has no process.
pub open spec fn is_consistent(s: Session) -> bool {
    &&& s.state == SessionState::Running ==> s.pid is Some && s.last_started_at is Some
    &&& s.exit_code is Some || s.term_signal is Some ==> s.state == SessionState::Exited
    &&& s.state == SessionState::Failed ==> s.pid is None && s.last_stopped_at is Some
}

/// Whether `t` is the same session as `s` later on: it was made at the same
/// time for the same command, and no count went down.
pub open spec fn is_later(s: Session, t: Session) -> bool {
    &&& t.id == s.id
    &&& t.command == s.command
    &&& t.cwd == s.cwd
    &&& t.env_overrides == s.env_overrides
    &&& t.watch == s.watch
    &&& t.started_at == s.started_at
    &&& t.restart_count >= s.restart_count
    &&& t.manual_restart_count >= s.manual_restart_count
    &&& t.watch_restart_count >= s.watch_restart_count
    &&& t.file_change_count >= s.file_change_count
    &&& t.next_log_seq >= s.next_log_seq
}

/// Whatever happens to a session leaves it well formed and consistent, and the
/// same session.
pub proof fn law_every_event_keeps_the_session(s: Session, event: SessionEvent, t: Session)
    requires
        s.wf(),
        is_consistent(s),
        becomes(s, event, t),
    ensures
        t.wf(),
        is_consistent(t),
        is_later(s, t),
{
    if let SessionEvent::Read { entry } = event {
        let before = process::output_of(s);
        let after = process::output_of(t);
        assert(after.next_seq == before.next_seq + 1);
        assert(t.next_log_seq as nat == after.next_seq);
        if entry.stream == Stream::Stdout {
            buffer::law_order_is_kept(before.stdout, entry, true);
        } else {
            buffer::law_order_is_kept(before.stderr, entry, true);
        }
        buffer::law_order_is_kept(before.blended, entry, false);
        assert(t.stdout_buf@ == after.stdout);
        assert(t.stderr_buf@ == after.stderr);
        assert(t.blended_buf@ == after.blended);
    }
}

/// Whether a session went through `history` by `events`.
pub open spec fn is_history(history: Seq<Session>, events: Seq<SessionEvent>) -> bool {
    &&& history.len() == events.len() + 1
    &&& forall|i: int|
        0 <= i < events.len() ==> becomes(history[i], #[trigger] events[i], history[i + 1])
}

/// Whether a session was just made.
pub open spec fn is_new(s: Session) -> bool {
    s.is_fresh(s.id, s.command, s.cwd, s.env_overrides, s.watch, s.started_at)
}

/// A course of events without the last of them.
proof fn lemma_history_before(history: Seq<Session>, events: Seq<SessionEvent>)
    requires
        is_history(history, events),
        events.len() > 0,
    ensures
        is_history(history.drop_last(), events.drop_last()),
{
    assert forall|i: int| 0 <= i < events.drop_last().len() implies becomes(
        history.drop_last()[i],
        #[trigger] events.drop_last()[i],
        history.drop_last()[i + 1],
    ) by {
        assert(becomes(history[i], events[i], history[i + 1]));
    }
}

/// From the moment it was made, and whatever happens to it, a session is well
/// formed, consistent and the same session.
pub proof fn law_sessions_live_consistently(history: Seq<Session>, events: Seq<SessionEvent>)
    requires
        is_history(history, events),
        history[0].wf(),
        is_new(history[0]),
    ensures
        history.last().wf(),
        is_consistent(history.last()),
        is_later(history[0], history.last()),
    decreases events.len(),
{
    if events.len() > 0 {
        lemma_history_before(history, events);
        law_sessions_live_consistently(history.drop_last(), events.drop_last());
        let n = events.len() - 1;
        assert(becomes(history[n], events[n], history[n + 1]));
        assert(history.drop_last().last() == history[n]);
        law_every_event_keeps_the_session(history[n], events[n], history[n + 1]);
    }
}

/// A command that is over stays over, with what is known of its end, until a
/// restart is asked for: nothing else starts it again, and any other command
/// changes nothing.
pub proof fn law_only_a_restart_revives(s: Session, event: SessionEvent, t: Session)
    requires
        s.state.is_terminal(),
        becomes(s, event, t),
        !event.is_restart(),
    ensures
        t.state == s.state,
        t.pid == s.pid,
        t.exit_code == s.exit_code,
        t.term_signal == s.term_signal,
        t.last_stopped_at == s.last_stopped_at,
        process::supervisor_turn(t.state) == process::SupervisorTurn::AwaitCommand,
        event is Commanded ==> t == s,
{
}

/// A restart is counted when it is asked for, once, and nothing else is.
pub proof fn law_restarts_are_counted_at_once(s: Session, event: SessionEvent, t: Session)
    requires
        s.wf(),
        becomes(s, event, t),
    ensures
        t.restart_count == s.restart_count + if event.is_restart() {
            1int
        } else {
            0int
        },
        t.restart_count == t.manual_restart_count + t.watch_restart_count,
{
}

/// How many restarts of one kind were told in a course of events.
pub open spec fn restarts_told(events: Seq<SessionEvent>, is_watch: bool) -> nat
    decreases events.len(),
{
    if events.len() == 0 {
        0
    } else {
        let before = restarts_told(events.drop_last(), is_watch);
        if events.last().tells_restart(is_watch) {
            before + 1
        } else {
            before
        }
    }
}

/// The counters of a session say how many restarts of each kind it was told
/// since it was made.
pub proof fn law_counters_are_the_restarts_told(history: Seq<Session>, events: Seq<SessionEvent>)
    requires
        is_history(history, events),
        history[0].wf(),
        is_new(history[0]),
    ensures
        history.last().manual_restart_count == restarts_told(events, false),
        history.last().watch_restart_count == restarts_told(events, true),
        history.last().restart_count == restarts_told(events, false) + restarts_told(events, true),
    decreases events.len(),
{
    if events.len() > 0 {
        let n = events.len() - 1;
        lemma_history_before(history, events);
        law_counters_are_the_restarts_told(history.drop_last(), events.drop_last());
        law_sessions_live_consistently(history.drop_last(), events.drop_last());
        assert(history.drop_last().last() == history[n]);
        assert(becomes(history[n], events[n], history[n + 1]));
    }
}

/// Whether the last command that reached a running session was a restart.
pub open spec fn told_to_restart(events: Seq<SessionEvent>) -> bool
    decreases events.len(),
{
    if events.len() == 0 {
        false
    } else {
        match events.last() {
            SessionEvent::WhileRunning { event: RunningEvent::Command(command), .. } => command is Restart,
            _ => told_to_restart(events.drop_last()),
        }
    }
}

/// Whether a supervisor that is not cut short lets `event` happen to `s` after
/// the events `before`: it begins no turn while the command is up, commands can
/// reach it, and a command that was stopped starts again as the last command
/// said.
pub open spec fn is_supervised(s: Session, before: Seq<SessionEvent>, event: SessionEvent) -> bool {
    match event {
        SessionEvent::Turn => s.state != SessionState::Running && s.state != SessionState::Stopping,
        SessionEvent::WhileRunning { event, .. } => event != RunningEvent::CommandsClosed,
        SessionEvent::Terminated { restart_after, .. } => restart_after == told_to_restart(before),
        _ => true,
    }
}

/// Whether a session went through `history` by `events` under a supervisor that
/// was not cut short.
pub open spec fn is_supervised_history(history: Seq<Session>, events: Seq<SessionEvent>) -> bool {
    &&& is_history(history, events)
    &&& forall|i: int|
        0 <= i < events.len() ==> is_supervised(history[i], events.take(i), #[trigger] events[i])
}

/// How often the command was started, or was tried to be, in a course of events.
pub open spec fn starts(events: Seq<SessionEvent>) -> nat
    decreases events.len(),
{
    if events.len() == 0 {
        0
    } else if events.last() is Spawned {
        starts(events.drop_last()) + 1
    } else {
        starts(events.drop_last())
    }
}

/// Whether a start of the command is still to come after `events`.
pub open spec fn start_is_due(s: Session, events: Seq<SessionEvent>) -> bool {
    ||| s.state == SessionState::Starting
    ||| s.state == SessionState::Stopping && told_to_restart(events)
}

/// A command is started once for the making of its session and once for each
/// restart that was told, and never otherwise: one that ends or fails on its own
/// stays down.
pub proof fn law_every_start_was_asked_for(history: Seq<Session>, events: Seq<SessionEvent>)
    requires
        is_supervised_history(history, events),
        is_new(history[0]),
    ensures
        starts(events) + if start_is_due(history.last(), events) {
            1int
        } else {
            0int
        } == 1 + history.last().restart_count,
        starts(events) <= 1 + history.last().restart_count,
    decreases events.len(),
{
    if events.len() > 0 {
        let n = events.len() - 1;
        lemma_history_before(history, events);
        assert forall|i: int| 0 <= i < events.drop_last().len() implies is_supervised(
            history.drop_last()[i],
            events.drop_last().take(i),
            #[trigger] events.drop_last()[i],
        ) by {
            assert(is_supervised(history[i], events.take(i), events[i]));
            assert(events.drop_last().take(i) =~= events.take(i));
        }
        law_every_start_was_asked_for(history.drop_last(), events.drop_last());
        assert(history.drop_last().last() == history[n]);
        assert(events.take(n) =~= events.drop_last());
        assert(becomes(history[n], events[n], history[n + 1]));
        assert(is_supervised(history[n], events.take(n), events[n]));
    }
}

/// A session that is restarted while its command runs goes through stopping and
/// starting back to running: counted from the first, without a process and
/// without an exit in between, and with its output kept.
pub proof fn law_restart_comes_around(
    s: Session,
    is_watch: bool,
    status: ExitStatus,
    pid: u32,
    asked: Timestamp,
    ended: Timestamp,
    started: Timestamp,
)
    requires
        s.wf(),
        s.state == SessionState::Running,
        s.restart_count < u32::MAX,
    ensures
        ({
            let told = RunningEvent::Command(SessionCommand::Restart { is_watch });
            let stopping = s.after_running(told, asked);
            let starting = stopping.after_termination(status, true, ended);
            let running = starting.after_turn().after_spawn(Some(pid), started);
            &&& process::running_step(told) == (process::RunningStep::Terminate {
                restart_after: true,
            })
            &&& stopping.state == SessionState::Stopping && stopping.restart_count
                == s.restart_count + 1
            &&& starting.state == SessionState::Starting && starting.pid is None
                && starting.exit_code is None && starting.term_signal is None
                && starting.last_stopped_at == Some(ended)
            &&& process::supervisor_turn(starting.state) == process::SupervisorTurn::Spawn
            &&& running.state == SessionState::Running && running.pid == Some(pid)
                && running.last_started_at == Some(started) && running.restart_count
                == s.restart_count + 1
            &&& process::output_of(running) == process::output_of(s)
        }),
{
}

/// A session whose command is over can be restarted, from a failure too: it is
/// to start at once, without a process and without an exit.
pub proof fn law_restart_revives(s: Session, is_watch: bool, pid: u32, started: Timestamp)
    requires
        s.wf(),
        s.state.is_terminal(),
        s.restart_count < u32::MAX,
    ensures
        ({
            let starting = s.after_command(Some(SessionCommand::Restart { is_watch }));
            let running = starting.after_turn().after_spawn(Some(pid), started);
            &&& starting.state == SessionState::Starting && starting.pid is None
                && starting.exit_code is None && starting.term_signal is None
            &&& process::supervisor_turn(starting.state) == process::SupervisorTurn::Spawn
            &&& running.state == SessionState::Running && running.pid == Some(pid)
                && running.last_started_at == Some(started)
            &&& process::output_of(running) == process::output_of(s)
        }),
{
}

/// The first start of a session counts from when the session was made.
pub proof fn law_first_start_is_the_making(s: Session, pid: u32, now: Timestamp)
    requires
        s.restart_count == 0,
        s.last_started_at is None,
    ensures
        s.after_spawn(Some(pid), now).last_started_at == Some(s.started_at),
{
}

// ---------------------------------------------------------------------------
// Output
// ---------------------------------------------------------------------------

/// The output after a run of lines.
pub open spec fn recorded_all(o: OutputView, run: Seq<LogEntry>) -> OutputView
    decreases run.len(),
{
    if run.len() == 0 {
        o
    } else {
        recorded_all(o, run.drop_last()).recorded(run.last())
    }
}

/// The lines of a run that came on one stream.
pub open spec fn of_stream(run: Seq<LogEntry>, stream: Stream) -> Seq<LogEntry> {
    run.filter(|e: LogEntry| e.stream == stream)
}

/// Each buffer takes in the lines of its stream, and the blended buffer takes
/// in all lines as they come.
pub proof fn law_buffers_follow_the_streams(o: OutputView, run: Seq<LogEntry>)
    ensures
        recorded_all(o, run).stdout == buffer::replay(o.stdout, of_stream(run, Stream::Stdout), true),
        recorded_all(o, run).stderr == buffer::replay(o.stderr, of_stream(run, Stream::Stderr), true),
        recorded_all(o, run).blended == buffer::replay(o.blended, run, false),
        recorded_all(o, run).next_seq == o.next_seq + run.len(),
    decreases run.len(),
{
    reveal(Seq::filter);
    if run.len() > 0 {
        law_buffers_follow_the_streams(o, run.drop_last());
        lemma_of_stream_step(run, Stream::Stdout);
        lemma_of_stream_step(run, Stream::Stderr);
    }
}

proof fn lemma_of_stream_step(run: Seq<LogEntry>, stream: Stream)
    requires
        run.len() > 0,
    ensures
        of_stream(run, stream) == if run.last().stream == stream {
            of_stream(run.drop_last(), stream).push(run.last())
        } else {
            of_stream(run.drop_last(), stream)
        },
        run.last().stream == stream ==> of_stream(run, stream).drop_last() == of_stream(
            run.drop_last(),
            stream,
        ),
{
    reveal(Seq::filter);
    if run.last().stream == stream {
        let before = of_stream(run.drop_last(), stream);
        assert(before.push(run.last()).drop_last() =~= before);
    }
}

/// Whether each line of a run got the number that was next when it came.
pub open spec fn numbered_in_turn(o: OutputView, run: Seq<LogEntry>) -> bool
    decreases run.len(),
{
    run.len() == 0 || {
        &&& numbered_in_turn(o, run.drop_last())
        &&& run.last().seq == recorded_all(o, run.drop_last()).next_seq
    }
}

/// The lines of a session are numbered one by one, across both streams: no
/// number is given twice and none is left out.
pub proof fn law_lines_are_numbered_one_by_one(o: OutputView, run: Seq<LogEntry>)
    requires
        numbered_in_turn(o, run),
    ensures
        forall|i: int| 0 <= i < run.len() ==> (#[trigger] run[i]).seq == o.next_seq + i,
        buffer::rising(o.next_seq, run),
    decreases run.len(),
{
    if run.len() > 0 {
        law_lines_are_numbered_one_by_one(o, run.drop_last());
        law_buffers_follow_the_streams(o, run.drop_last());
        assert forall|i: int| 0 <= i < run.len() implies (#[trigger] run[i]).seq == o.next_seq
            + i by {
            if i < run.len() - 1 {
                assert(run[i] == run.drop_last()[i]);
            }
        }
    }
}

/// The lines of one stream are numbered upwards too, in the order in which they
/// came.
pub proof fn law_stream_lines_rise(n: nat, run: Seq<LogEntry>, stream: Stream)
    requires
        buffer::rising(n, run),
    ensures
        buffer::rising(n, of_stream(run, stream)),
{
    lemma_stream_lines_rise(n, run, stream);
}

proof fn lemma_stream_lines_rise(n: nat, run: Seq<LogEntry>, stream: Stream)
    requires
        buffer::rising(n, run),
    ensures
        buffer::rising(n, of_stream(run, stream)),
        run.len() > 0 ==> forall|i: int|
            0 <= i < of_stream(run, stream).len() ==> (#[trigger] of_stream(run, stream)[i]).seq
                <= run.last().seq,
    decreases run.len(),
{
    reveal(Seq::filter);
    if run.len() > 0 {
        let before = run.drop_last();
        lemma_stream_lines_rise(n, before, stream);
        lemma_of_stream_step(run, stream);
        if before.len() > 0 {
            assert(before.last() == run[run.len() - 2]);
        } else {
            assert(of_stream(before, stream).len() == 0);
        }
    }
}

/// The lines that were read in a course of events.
pub open spec fn lines_read(events: Seq<SessionEvent>) -> Seq<LogEntry>
    decreases events.len(),
{
    if events.len() == 0 {
        Seq::empty()
    } else {
        let before = lines_read(events.drop_last());
        match events.last() {
            SessionEvent::Read { entry } => before.push(entry),
            _ => before,
        }
    }
}

/// The output of a session is what was read, numbered in turn, whatever else
/// happened in between: no restart, stop or failure loses a line or a number.
pub proof fn law_output_is_what_was_read(history: Seq<Session>, events: Seq<SessionEvent>)
    requires
        is_history(history, events),
    ensures
        process::output_of(history.last()) == recorded_all(
            process::output_of(history[0]),
            lines_read(events),
        ),
        numbered_in_turn(process::output_of(history[0]), lines_read(events)),
    decreases events.len(),
{
    if events.len() > 0 {
        let n = events.len() - 1;
        lemma_history_before(history, events);
        law_output_is_what_was_read(history.drop_last(), events.drop_last());
        assert(becomes(history[n], events[n], history[n + 1]));
        assert(history.drop_last().last() == history[n]);
        let o = process::output_of(history[0]);
        let before = lines_read(events.drop_last());
        if let SessionEvent::Read { entry } = events.last() {
            assert(before.push(entry).drop_last() =~= before);
            assert(process::output_of(history[n]).next_seq == history[n].next_log_seq);
        } else {
            assert(process::output_of(history[n + 1]) == process::output_of(history[n]));
        }
    }
}

/// A session keeps, of all lines read since it was made, the newest of each
/// stream and the newest of both together, as many as its buffers hold. It has
/// counted every line that had to make room, and the bytes of each stream.
pub proof fn law_session_keeps_the_newest_lines(history: Seq<Session>, events: Seq<SessionEvent>)
    requires
        is_history(history, events),
        history[0].wf(),
        is_new(history[0]),
    ensures
        ({
            let t = history.last();
            let run = lines_read(events);
            let out = of_stream(run, Stream::Stdout);
            let err = of_stream(run, Stream::Stderr);
            &&& t.stdout_buf@.entries == buffer::newest(out, STDOUT_BUF_CAPACITY as nat)
            &&& t.stderr_buf@.entries == buffer::newest(err, STDERR_BUF_CAPACITY as nat)
            &&& t.blended_buf@.entries == buffer::newest(run, BLENDED_BUF_CAPACITY as nat)
            &&& t.stdout_buf@.total_bytes == buffer::output_bytes(out)
            &&& t.stderr_buf@.total_bytes == buffer::output_bytes(err)
            &&& t.stdout_buf@.dropped + t.stdout_buf@.entries.len() == out.len()
            &&& t.stderr_buf@.dropped + t.stderr_buf@.entries.len() == err.len()
            &&& t.blended_buf@.dropped + t.blended_buf@.entries.len() == run.len()
            &&& t.next_log_seq == run.len()
        }),
{
    let o = process::output_of(history[0]);
    let run = lines_read(events);
    law_output_is_what_was_read(history, events);
    law_buffers_follow_the_streams(o, run);
    buffer::law_buffer_holds_newest_lines(o.stdout, of_stream(run, Stream::Stdout));
    buffer::law_buffer_holds_newest_lines(o.stderr, of_stream(run, Stream::Stderr));
    buffer::law_buffer_holds_newest_lines(o.blended, run);
    buffer::law_uncounted_lines_count_no_bytes(o.blended, run);
    let after = process::output_of(history.last());
    assert(after.stdout == history.last().stdout_buf@);
    assert(after.stderr == history.last().stderr_buf@);
    assert(after.blended == history.last().blended_buf@);
    assert(after.next_seq == history.last().next_log_seq);
}

} // verus!
