//! Supervision of a session's command: what to do after each event.
//!
//! The program around this module starts processes, waits for them, sends them
//! signals and reads their output. It reports each outcome to a function here,
//! which updates the session and says what comes next.

use vstd::prelude::*;

use crate::clock::Timestamp;
use crate::daemon::buffer::{LogBufferView, LogEntry, Stream};
use crate::daemon::env_map::EnvMap;
use crate::daemon::session::{Session, SessionCommand, SessionState};

verus! {

// ---------------------------------------------------------------------------
// Starting a command
// ---------------------------------------------------------------------------

/// What a command is started from.
pub struct ChildPlan {
    pub program: String,
    pub args: Vec<String>,
    pub cwd: String,
    pub env: EnvMap,
}

/// Why a command cannot be started.
#[derive(Debug, Clone, Copy, PartialEq, Eq, Structural)]
pub enum SpawnError {
    EmptyCommand,
}

impl SpawnError {
    /// The message for the log.
    pub fn message(&self) -> (r: &'static str)
        ensures
            r@ == "empty command"@,
    {
        "empty command"
    }
}

/// Splits a command into the program and its arguments, to be run in `cwd` with
/// `env_overrides` on top of the environment. A command without a program is
/// refused.
pub fn spawn_child(command: &Vec<String>, cwd: &str, env_overrides: &EnvMap) -> (r: Result<
    ChildPlan,
    SpawnError,
>)
    ensures
        r is Ok <==> command.len() > 0,
        match r {
            Ok(plan) => {
                &&& plan.program == command@[0]
                &&& plan.args@ == command@.skip(1)
                &&& plan.cwd@ == cwd@
                &&& plan.env@ == env_overrides@
            },
            Err(e) => e == SpawnError::EmptyCommand,
        },
{
    if command.len() == 0 {
        return Err(SpawnError::EmptyCommand);
    }
    let mut args: Vec<String> = Vec::new();
    let mut i: usize = 1;
    while i < command.len()
        invariant
            1 <= i <= command.len(),
            args@ == command@.subrange(1, i as int),
        decreases command.len() - i,
    {
        args.push(command[i].clone());
        i = i + 1;
    }
    assert(args@ =~= command@.skip(1));
    Ok(
        ChildPlan {
            program: command[0].clone(),
            args,
            cwd: cwd.to_owned(),
            env: env_overrides.clone(),
        },
    )
}

// ---------------------------------------------------------------------------
// Reading a command's output
// ---------------------------------------------------------------------------

/// What a session has kept of its command's output.
pub struct OutputView {
    pub stdout: LogBufferView,
    pub stderr: LogBufferView,
    pub blended: LogBufferView,
    pub next_seq: nat,
}

impl OutputView {
    /// The output after one more line of one of the streams.
    pub open spec fn recorded(self, entry: LogEntry) -> OutputView {
        OutputView {
            stdout: if entry.stream == Stream::Stdout {
                self.stdout.appended(entry, true)
            } else {
                self.stdout
            },
            stderr: if entry.stream == Stream::Stderr {
                self.stderr.appended(entry, true)
            } else {
                self.stderr
            },
            blended: self.blended.appended(entry, false),
            next_seq: self.next_seq + 1,
        }
    }
}

/// What a session has kept of its command's output.
pub open spec fn output_of(s: Session) -> OutputView {
    OutputView {
        stdout: s.stdout_buf@,
        stderr: s.stderr_buf@,
        blended: s.blended_buf@,
        next_seq: s.next_log_seq as nat,
    }
}

/// Whether `s` becomes `t` when it takes in a line: its output gets the line,
/// and all else stays.
pub open spec fn takes_in(s: Session, entry: LogEntry, t: Session) -> bool {
    &&& output_of(t) == output_of(s).recorded(entry)
    &&& t == Session {
        next_log_seq: t.next_log_seq,
        stdout_buf: t.stdout_buf,
        stderr_buf: t.stderr_buf,
        blended_buf: t.blended_buf,
        ..s
    }
}

/// The bytes counted on one stream so far.
pub open spec fn stream_bytes(s: Session, stream: Stream) -> nat {
    if stream == Stream::Stdout {
        s.stdout_buf@.total_bytes
    } else {
        s.stderr_buf@.total_bytes
    }
}

/// What came of reading a stream.
pub enum ReadEvent {
    /// A line, without its line break.
    Line(String),
    /// The end of the stream.
    End,
    /// The stream can no longer be read.
    Broken,
}

/// What to do after reading from a stream.
pub enum ReadStep {
    /// Pass the line on to those who follow the session, and read on.
    Publish(LogEntry),
    /// Read no further.
    Finish,
}

/// Takes in what was read from one of the command's two streams. A line gets
/// the session's next sequence number and goes into the buffer of its stream
/// and into the blended buffer; the end of the stream, or a failure to read it,
/// ends the reading.
pub fn read_stream(s: &mut Session, stream: Stream, event: ReadEvent, ts: Timestamp) -> (r: ReadStep)
    requires
        old(s).wf(),
        stream != Stream::System,
        event matches ReadEvent::Line(line) ==> {
            &&& old(s).next_log_seq < u64::MAX
            &&& stream_bytes(*old(s), stream) + crate::daemon::buffer::line_bytes(line@) <= u64::MAX
        },
    ensures
        final(s).wf(),
        match event {
            ReadEvent::Line(line) => {
                let entry = LogEntry { seq: old(s).next_log_seq, ts, stream, line };
                r == ReadStep::Publish(entry) && takes_in(*old(s), entry, *final(s))
            },
            ReadEvent::End | ReadEvent::Broken => r == ReadStep::Finish && *final(s) == *old(s),
        },
{
    match event {
        ReadEvent::Line(line) => {
            let seq: u64 = s.next_log_seq;
            s.next_log_seq = seq + 1;
            let entry = LogEntry { seq, ts, stream, line };
            if stream == Stream::Stdout {
                s.stdout_buf.push_with_seq(seq, stream, entry.line.clone(), ts);
            } else {
                s.stderr_buf.push_with_seq(seq, stream, entry.line.clone(), ts);
            }
            s.blended_buf.push_uncounted(seq, stream, entry.line.clone(), ts);
            ReadStep::Publish(entry)
        },
        ReadEvent::End => ReadStep::Finish,
        ReadEvent::Broken => ReadStep::Finish,
    }
}

// ---------------------------------------------------------------------------
// Supervising a command
// ---------------------------------------------------------------------------

/// How a command ended: with an exit code, or by a signal.
#[derive(Debug, Clone, Copy, PartialEq, Eq, Structural)]
pub struct ExitStatus {
    pub code: Option<i32>,
    pub signal: Option<i32>,
}

impl Session {
    /// The session once its command runs as process `pid`. The first start of a
    /// session counts from when the session was made.
    pub open spec fn running(self, pid: u32, now: Timestamp) -> Session {
        Session {
            exit_code: None,
            term_signal: None,
            state: SessionState::Running,
            pid: Some(pid),
            last_started_at: Some(
                if self.last_started_at is None && self.restart_count == 0 {
                    self.started_at
                } else {
                    now
                },
            ),
            ..self
        }
    }

    /// The session once its command could not be started or waited for.
    pub open spec fn failed(self, now: Timestamp) -> Session {
        Session {
            state: SessionState::Failed,
            pid: None,
            last_stopped_at: Some(now),
            exit_code: None,
            term_signal: None,
            ..self
        }
    }

    /// The session once its command has ended.
    pub open spec fn ended(self, state: SessionState, status: ExitStatus, now: Timestamp) -> Session {
        Session {
            state,
            pid: None,
            last_stopped_at: Some(now),
            exit_code: status.code,
            term_signal: status.signal,
            ..self
        }
    }

    /// The session in another state.
    pub open spec fn in_state(self, state: SessionState) -> Session {
        Session { state, ..self }
    }

    /// The session after the start of a turn of its supervisor.
    pub open spec fn after_turn(self) -> Session {
        match self.state {
            SessionState::Starting => self,
            SessionState::Running => self.in_state(SessionState::Starting),
            SessionState::Stopping => self.in_state(SessionState::Exited),
            SessionState::Exited | SessionState::Failed => self,
        }
    }

    /// The session after its command was started as process `spawned`, or could
    /// not be started.
    pub open spec fn after_spawn(self, spawned: Option<u32>, now: Timestamp) -> Session {
        match spawned {
            Some(pid) => self.running(pid, now),
            None => self.failed(now),
        }
    }

    /// The session after an event while its command ran.
    pub open spec fn after_running(self, event: RunningEvent, now: Timestamp) -> Session {
        match event {
            RunningEvent::Exited(status) => self.ended(SessionState::Exited, status, now),
            RunningEvent::WaitFailed => self.failed(now),
            RunningEvent::Command(SessionCommand::Stop) => self.in_state(SessionState::Stopping),
            RunningEvent::Command(SessionCommand::Restart { is_watch }) => self.counting_restart(
                is_watch,
            ).in_state(SessionState::Stopping),
            RunningEvent::CommandsClosed => self,
        }
    }

    /// The session after its command was stopped, to be started again or not.
    pub open spec fn after_termination(
        self,
        status: ExitStatus,
        restart_after: bool,
        now: Timestamp,
    ) -> Session {
        let over = self.ended(SessionState::Exited, status, now);
        if restart_after {
            over.without_exit().in_state(SessionState::Starting)
        } else {
            over
        }
    }

    /// The session after a command from outside came while its own was over, or
    /// none can come any more.
    pub open spec fn after_command(self, command: Option<SessionCommand>) -> Session {
        match command {
            Some(SessionCommand::Restart { is_watch }) => Session {
                pid: None,
                ..self.counting_restart(is_watch).without_exit().in_state(SessionState::Starting)
            },
            Some(SessionCommand::Stop) | None => self,
        }
    }
}

/// What a supervisor does next.
#[derive(Debug, Clone, Copy, PartialEq, Eq, Structural)]
pub enum SupervisorTurn {
    /// Start the command.
    Spawn,
    /// Wait for a command from outside.
    AwaitCommand,
    /// Look at the session again.
    Again,
}

/// What the supervisor of a session in `state` does next.
pub open spec fn supervisor_turn(state: SessionState) -> SupervisorTurn {
    match state {
        SessionState::Starting => SupervisorTurn::Spawn,
        SessionState::Running | SessionState::Stopping => SupervisorTurn::Again,
        SessionState::Exited | SessionState::Failed => SupervisorTurn::AwaitCommand,
    }
}

/// The start of each turn of a session's supervisor: a session that is to start
/// is started, and one whose command is over waits for a command from outside.
/// A session whose supervision was cut short is put back first, to be started
/// again where it ran and to have exited where it was stopping.
pub fn run_supervisor(s: &mut Session) -> (r: SupervisorTurn)
    requires
        old(s).wf(),
    ensures
        final(s).wf(),
        *final(s) == old(s).after_turn(),
        r == supervisor_turn(old(s).state),
{
    match s.state {
        SessionState::Starting => SupervisorTurn::Spawn,
        SessionState::Running => {
            s.state = SessionState::Starting;
            SupervisorTurn::Again
        },
        SessionState::Stopping => {
            s.state = SessionState::Exited;
            SupervisorTurn::Again
        },
        SessionState::Exited | SessionState::Failed => SupervisorTurn::AwaitCommand,
    }
}

/// Takes in how starting the command went: `spawned` is the process, or nothing
/// where it could not be started. Returns whether there is a command to
/// supervise now.
pub fn record_spawn(s: &mut Session, spawned: Option<u32>, now: Timestamp) -> (r: bool)
    requires
        old(s).wf(),
    ensures
        final(s).wf(),
        r == spawned is Some,
        *final(s) == old(s).after_spawn(spawned, now),
{
    match spawned {
        Some(pid) => {
            s.clear_exit_metadata();
            s.state = SessionState::Running;
            s.pid = Some(pid);
            let first: bool = s.last_started_at.is_none() && s.restart_count == 0;
            s.last_started_at = Some(if first {
                s.started_at
            } else {
                now
            });
            true
        },
        None => {
            record_failure(s, now);
            false
        },
    }
}

fn record_failure(s: &mut Session, now: Timestamp)
    requires
        old(s).wf(),
    ensures
        final(s).wf(),
        *final(s) == old(s).failed(now),
{
    s.state = SessionState::Failed;
    s.pid = None;
    s.last_stopped_at = Some(now);
    s.exit_code = None;
    s.term_signal = None;
}

/// What happens while a command runs.
#[derive(Debug, Clone, Copy, PartialEq, Eq, Structural)]
pub enum RunningEvent {
    /// The command ended on its own.
    Exited(ExitStatus),
    /// The command can no longer be waited for.
    WaitFailed,
    /// A command came from outside.
    Command(SessionCommand),
    /// No command can come from outside any more.
    CommandsClosed,
}

/// What to do after an event while a command ran.
#[derive(Debug, Clone, Copy, PartialEq, Eq, Structural)]
pub enum RunningStep {
    /// This run is over.
    Over,
    /// Stop the command, and report how it ended.
    Terminate { restart_after: bool },
}

/// What comes after an event while a command ran.
pub open spec fn running_step(event: RunningEvent) -> RunningStep {
    match event {
        RunningEvent::Command(command) => RunningStep::Terminate {
            restart_after: command is Restart,
        },
        RunningEvent::Exited(_) | RunningEvent::WaitFailed
        | RunningEvent::CommandsClosed => RunningStep::Over,
    }
}

/// Takes in an event while the command runs. A command that ends on its own
/// leaves the session exited; a stop or a restart makes it stopping, and the
/// restart is counted at once.
pub fn supervise_running_session(s: &mut Session, event: RunningEvent, now: Timestamp) -> (r:
    RunningStep)
    requires
        old(s).wf(),
        event is Command && event->Command_0 is Restart ==> old(s).restart_count < u32::MAX,
    ensures
        final(s).wf(),
        *final(s) == old(s).after_running(event, now),
        r == running_step(event),
{
    match event {
        RunningEvent::Exited(status) => {
            record_terminal_exit(s, SessionState::Exited, status, now);
            RunningStep::Over
        },
        RunningEvent::WaitFailed => {
            record_failure(s, now);
            RunningStep::Over
        },
        RunningEvent::Command(command) => match command {
            SessionCommand::Stop => {
                s.state = SessionState::Stopping;
                RunningStep::Terminate { restart_after: false }
            },
            SessionCommand::Restart { is_watch } => {
                s.count_restart(is_watch);
                s.state = SessionState::Stopping;
                RunningStep::Terminate { restart_after: true }
            },
        },
        RunningEvent::CommandsClosed => RunningStep::Over,
    }
}

/// Takes in how a stopped command ended. Where a restart was asked for, the
/// session is to start again and forgets how the command ended. Returns whether
/// it is.
pub fn record_termination(
    s: &mut Session,
    status: ExitStatus,
    restart_after: bool,
    now: Timestamp,
) -> (r: bool)
    requires
        old(s).wf(),
    ensures
        final(s).wf(),
        r == restart_after,
        *final(s) == old(s).after_termination(status, restart_after, now),
{
    record_terminal_exit(s, SessionState::Exited, status, now);
    if restart_after {
        s.clear_exit_metadata();
        s.state = SessionState::Starting;
    }
    restart_after
}

/// Notes that the command has ended.
pub fn record_terminal_exit(
    s: &mut Session,
    state: SessionState,
    status: ExitStatus,
    now: Timestamp,
)
    requires
        old(s).wf(),
    ensures
        final(s).wf(),
        *final(s) == old(s).ended(state, status, now),
{
    s.state = state;
    s.pid = None;
    s.last_stopped_at = Some(now);
    s.exit_code = status.code;
    s.term_signal = status.signal;
}

/// Takes in a command from outside while the session's own command is over, or
/// nothing where none can come any more. A restart makes the session start
/// again. Returns whether supervision goes on.
pub fn resume_with_command(s: &mut Session, command: Option<SessionCommand>) -> (r: bool)
    requires
        old(s).wf(),
        command is Some && command->0 is Restart ==> old(s).restart_count < u32::MAX,
    ensures
        final(s).wf(),
        r == command is Some,
        *final(s) == old(s).after_command(command),
{
    match command {
        Some(SessionCommand::Restart { is_watch }) => {
            s.count_restart(is_watch);
            s.clear_exit_metadata();
            s.state = SessionState::Starting;
            s.pid = None;
            true
        },
        Some(SessionCommand::Stop) => true,
        None => false,
    }
}

// ---------------------------------------------------------------------------
// Stopping a command
// ---------------------------------------------------------------------------

/// How long a command that was asked to end may take before it is killed.
pub const GRACE_PERIOD_SECS: u64 = 2;

/// What happens while a command is being stopped.
#[derive(Debug, Clone, Copy, PartialEq, Eq, Structural)]
pub enum TerminationEvent {
    /// The command is to be stopped.
    Begin,
    /// The command ended.
    Exited(ExitStatus),
    /// Waiting for the command failed.
    WaitFailed,
    /// The grace period went by.
    GraceElapsed,
}

/// What to do next to stop a command.
#[derive(Debug, Clone, Copy, PartialEq, Eq, Structural)]
pub enum TerminationStep {
    /// Ask the process group to end, and wait for the command for the grace
    /// period.
    Terminate { target: i32, grace_secs: u64 },
    /// Kill the process group, and wait for the command.
    Kill { target: i32 },
    /// Wait for the command once more.
    WaitAgain,
    /// The command has ended.
    Done(ExitStatus),
}

/// What a signal is addressed to so that it reaches the process group that
/// process `pid` leads: the number of the process as a signed number, negated.
pub open spec fn group_of(pid: u32) -> int {
    if pid <= i32::MAX {
        -(pid as int)
    } else {
        0x1_0000_0000 - pid
    }
}

/// What comes after an event while process `pid` is being stopped.
pub open spec fn termination_step(pid: u32, event: TerminationEvent) -> TerminationStep {
    match event {
        TerminationEvent::Begin => TerminationStep::Terminate {
            target: group_of(pid) as i32,
            grace_secs: GRACE_PERIOD_SECS,
        },
        TerminationEvent::Exited(status) => TerminationStep::Done(status),
        TerminationEvent::WaitFailed => TerminationStep::WaitAgain,
        TerminationEvent::GraceElapsed => TerminationStep::Kill { target: group_of(pid) as i32 },
    }
}

/// The step after each event while a command is being stopped: it is asked to
/// end, and killed where the grace period goes by without its end.
pub fn terminate_child(pid: u32, event: TerminationEvent) -> (r: TerminationStep)
    requires
        pid != 0x8000_0000,
    ensures
        r == termination_step(pid, event),
        i32::MIN < group_of(pid) <= i32::MAX,
{
    let target: i32 = if pid <= 0x7fff_ffff {
        -(pid as i32)
    } else {
        (0x1_0000_0000u64 - pid as u64) as i32
    };
    match event {
        TerminationEvent::Begin => TerminationStep::Terminate {
            target,
            grace_secs: GRACE_PERIOD_SECS,
        },
        TerminationEvent::Exited(status) => TerminationStep::Done(status),
        TerminationEvent::WaitFailed => TerminationStep::WaitAgain,
        TerminationEvent::GraceElapsed => TerminationStep::Kill { target },
    }
}

} // verus!
