//! Sessions: one supervised command each, with its state and its counters.

use vstd::prelude::*;

use crate::clock::Timestamp;
use crate::daemon::buffer::LogBuffer;
use crate::daemon::env_map::EnvMap;
use crate::ids::SessionId;

verus! {

/// How many lines of standard output a session keeps.
pub const STDOUT_BUF_CAPACITY: usize = 10_000;

/// How many lines of standard error a session keeps.
pub const STDERR_BUF_CAPACITY: usize = 10_000;

/// How many lines of both streams together a session keeps.
pub const BLENDED_BUF_CAPACITY: usize = 20_000;

/// How many lines a reader that follows a session may fall behind.
pub const BROADCAST_CAPACITY: usize = 1024;

/// Where a session stands in its life.
#[derive(Debug, Clone, Copy, PartialEq, Eq, Structural)]
pub enum SessionState {
    Starting,
    Running,
    Stopping,
    Exited,
    Failed,
}

impl SessionState {
    /// The name of a state in answers.
    pub open spec fn name(self) -> Seq<char> {
        match self {
            SessionState::Starting => "starting"@,
            SessionState::Running => "running"@,
            SessionState::Stopping => "stopping"@,
            SessionState::Exited => "exited"@,
            SessionState::Failed => "failed"@,
        }
    }

    /// Whether the session's command is over for good.
    pub open spec fn is_terminal(self) -> bool {
        self == SessionState::Exited || self == SessionState::Failed
    }

    /// The name of the state in answers.
    pub fn as_str(&self) -> (r: &'static str)
        ensures
            r@ == self.name(),
    {
        match self {
            SessionState::Starting => "starting",
            SessionState::Running => "running",
            SessionState::Stopping => "stopping",
            SessionState::Exited => "exited",
            SessionState::Failed => "failed",
        }
    }
}

/// What a session's supervisor can be told to do.
#[derive(Debug, Clone, Copy, PartialEq, Eq, Structural)]
pub enum SessionCommand {
    Stop,
    /// `is_watch` tells a restart for a changed file from one that was asked for.
    Restart { is_watch: bool },
}

/// A session.
pub struct Session {
    pub id: SessionId,
    pub state: SessionState,
    pub command: Vec<String>,
    pub cwd: String,
    pub env_overrides: EnvMap,
    pub watch: Vec<String>,
    pub pid: Option<u32>,
    pub exit_code: Option<i32>,
    pub term_signal: Option<i32>,
    pub started_at: Timestamp,
    pub last_started_at: Option<Timestamp>,
    pub last_stopped_at: Option<Timestamp>,
    pub restart_count: u32,
    pub manual_restart_count: u32,
    pub watch_restart_count: u32,
    pub file_change_count: u64,
    pub last_change_at: Option<Timestamp>,
    pub last_change_path: Option<String>,
    /// The sequence number of the next line, on whichever stream it comes.
    pub next_log_seq: u64,
    pub stdout_buf: LogBuffer,
    pub stderr_buf: LogBuffer,
    pub blended_buf: LogBuffer,
}

impl Session {
    /// The restarts add up, each buffer is in order and numbered below the
    /// session's next line, and bytes are counted per stream only.
    pub open spec fn wf(self) -> bool {
        &&& self.restart_count == self.manual_restart_count + self.watch_restart_count
        &&& self.stdout_buf@.wf() && self.stdout_buf@.capacity == STDOUT_BUF_CAPACITY
        &&& self.stderr_buf@.wf() && self.stderr_buf@.capacity == STDERR_BUF_CAPACITY
        &&& self.blended_buf@.wf() && self.blended_buf@.capacity == BLENDED_BUF_CAPACITY
        &&& self.stdout_buf@.next_seq <= self.next_log_seq
        &&& self.stderr_buf@.next_seq <= self.next_log_seq
        &&& self.blended_buf@.next_seq <= self.next_log_seq
        &&& self.blended_buf@.total_bytes == 0
    }

    /// A session that was just made at `now` and has done nothing yet.
    pub open spec fn is_fresh(
        self,
        id: SessionId,
        command: Vec<String>,
        cwd: String,
        env_overrides: EnvMap,
        watch: Vec<String>,
        now: Timestamp,
    ) -> bool {
        &&& self == Session {
            id,
            state: SessionState::Starting,
            command,
            cwd,
            env_overrides,
            watch,
            pid: None,
            exit_code: None,
            term_signal: None,
            started_at: now,
            last_started_at: None,
            last_stopped_at: None,
            restart_count: 0,
            manual_restart_count: 0,
            watch_restart_count: 0,
            file_change_count: 0,
            last_change_at: None,
            last_change_path: None,
            next_log_seq: 0,
            stdout_buf: self.stdout_buf,
            stderr_buf: self.stderr_buf,
            blended_buf: self.blended_buf,
        }
        &&& self.stdout_buf@.entries.len() == 0 && self.stdout_buf@.dropped == 0
        &&& self.stdout_buf@.total_bytes == 0 && self.stdout_buf@.next_seq == 0
        &&& self.stderr_buf@.entries.len() == 0 && self.stderr_buf@.dropped == 0
        &&& self.stderr_buf@.total_bytes == 0 && self.stderr_buf@.next_seq == 0
        &&& self.blended_buf@.entries.len() == 0 && self.blended_buf@.dropped == 0
        &&& self.blended_buf@.total_bytes == 0 && self.blended_buf@.next_seq == 0
    }

    /// A new session, made now.
    pub fn new(
        id: SessionId,
        command: Vec<String>,
        cwd: String,
        env_overrides: EnvMap,
        watch: Vec<String>,
    ) -> (r: Self)
        ensures
            exists|now: Timestamp|
                now.is_reading() && #[trigger] r.is_fresh(
                    id,
                    command,
                    cwd,
                    env_overrides,
                    watch,
                    now,
                ),
            r.wf(),
    {
        Self::new_at(id, command, cwd, env_overrides, watch, Timestamp::now())
    }

    /// A new session, made at `now`.
    pub fn new_at(
        id: SessionId,
        command: Vec<String>,
        cwd: String,
        env_overrides: EnvMap,
        watch: Vec<String>,
        now: Timestamp,
    ) -> (r: Self)
        ensures
            r.is_fresh(id, command, cwd, env_overrides, watch, now),
            r.wf(),
    {
        Session {
            id,
            state: SessionState::Starting,
            command,
            cwd,
            env_overrides,
            watch,
            pid: None,
            exit_code: None,
            term_signal: None,
            started_at: now,
            last_started_at: None,
            last_stopped_at: None,
            restart_count: 0,
            manual_restart_count: 0,
            watch_restart_count: 0,
            file_change_count: 0,
            last_change_at: None,
            last_change_path: None,
            next_log_seq: 0,
            stdout_buf: LogBuffer::new(STDOUT_BUF_CAPACITY),
            stderr_buf: LogBuffer::new(STDERR_BUF_CAPACITY),
            blended_buf: LogBuffer::new(BLENDED_BUF_CAPACITY),
        }
    }

    /// Milliseconds that the command has been up at `now`.
    pub open spec fn uptime(self, now: Timestamp) -> int {
        if self.state == SessionState::Running || self.state == SessionState::Stopping {
            match self.last_started_at {
                Some(t) => crate::clock::elapsed_millis(now.as_nanos(), t.as_nanos()),
                None => 0,
            }
        } else {
            0
        }
    }

    /// Milliseconds since the command was last started, or 0 where it is not
    /// up.
    pub fn uptime_ms(&self) -> (r: u64)
        ensures
            exists|now: Timestamp| now.is_reading() && r == #[trigger] self.uptime(now),
    {
        self.uptime_ms_at(Timestamp::now())
    }

    /// Milliseconds from the command's last start to `now`, or 0 where it is
    /// not up.
    pub fn uptime_ms_at(&self, now: Timestamp) -> (r: u64)
        ensures
            r == self.uptime(now),
    {
        if self.state != SessionState::Running && self.state != SessionState::Stopping {
            return 0;
        }
        match &self.last_started_at {
            Some(t) => now.millis_since(t),
            None => 0,
        }
    }

    /// The session without what is known of how its command ended.
    pub open spec fn without_exit(self) -> Session {
        Session { exit_code: None, term_signal: None, ..self }
    }

    /// Forgets how the command ended.
    pub fn clear_exit_metadata(&mut self)
        ensures
            *final(self) == old(self).without_exit(),
    {
        self.exit_code = None;
        self.term_signal = None;
    }

    /// The sequence number of the next line.
    pub fn next_seq(&self) -> (r: u64)
        ensures
            r == self.next_log_seq,
    {
        self.next_log_seq
    }

    /// The session after one more restart was counted.
    pub open spec fn counting_restart(self, is_watch: bool) -> Session {
        Session {
            restart_count: (self.restart_count + 1) as u32,
            watch_restart_count: if is_watch {
                (self.watch_restart_count + 1) as u32
            } else {
                self.watch_restart_count
            },
            manual_restart_count: if is_watch {
                self.manual_restart_count
            } else {
                (self.manual_restart_count + 1) as u32
            },
            ..self
        }
    }

    /// Counts a restart.
    pub fn count_restart(&mut self, is_watch: bool)
        requires
            old(self).wf(),
            old(self).restart_count < u32::MAX,
        ensures
            *final(self) == old(self).counting_restart(is_watch),
            final(self).wf(),
    {
        self.restart_count = self.restart_count + 1;
        if is_watch {
            self.watch_restart_count = self.watch_restart_count + 1;
        } else {
            self.manual_restart_count = self.manual_restart_count + 1;
        }
    }

    /// The session after watched files changed, all within one debounce window.
    pub open spec fn with_file_changes(self, paths: Seq<String>, now: Timestamp) -> Session {
        if paths.len() == 0 {
            self
        } else {
            Session {
                file_change_count: (self.file_change_count + paths.len()) as u64,
                last_change_at: Some(now),
                last_change_path: Some(paths.last()),
                ..self
            }
        }
    }

    /// Notes the files that changed within one debounce window, and returns the
    /// command that the supervisor is to be sent for them: one restart, however
    /// many they are, and none where nothing changed.
    pub fn record_file_changes(&mut self, paths: Vec<String>, now: Timestamp) -> (r: Option<
        SessionCommand,
    >)
        requires
            old(self).wf(),
            old(self).file_change_count + paths@.len() <= u64::MAX,
        ensures
            *final(self) == old(self).with_file_changes(paths@, now),
            final(self).wf(),
            r == if paths@.len() == 0 {
                None
            } else {
                Some(SessionCommand::Restart { is_watch: true })
            },
    {
        let count: usize = paths.len();
        if count == 0 {
            return None;
        }
        self.file_change_count = self.file_change_count + count as u64;
        self.last_change_at = Some(now);
        self.last_change_path = Some(paths[count - 1].clone());
        Some(SessionCommand::Restart { is_watch: true })
    }
}

/// A command that is not up has no uptime, and the uptime of one that is up
/// does not shrink while time goes on.
pub proof fn law_uptime_grows(s: Session, now: Timestamp, later: Timestamp)
    requires
        now.as_nanos() <= later.as_nanos(),
    ensures
        s.state != SessionState::Running && s.state != SessionState::Stopping ==> s.uptime(now) == 0,
        0 <= s.uptime(now) <= s.uptime(later),
{
    if let Some(t) = s.last_started_at {
        let a = now.as_nanos() - t.as_nanos();
        let b = later.as_nanos() - t.as_nanos();
        assert(a <= b ==> a / 1_000_000 <= b / 1_000_000);
    }
}

/// A session keeps ten thousand lines of each stream and twenty thousand of both
/// together, a reader may fall 1024 lines behind, its restarts add up, and its buffers are numbered below its next
/// line.
pub proof fn law_buffers_have_their_sizes(s: Session)
    requires
        s.wf(),
    ensures
        s.stdout_buf@.capacity == 10_000,
        s.stderr_buf@.capacity == 10_000,
        s.blended_buf@.capacity == 20_000,
        BROADCAST_CAPACITY == 1024,
        s.restart_count == s.manual_restart_count + s.watch_restart_count,
        s.stdout_buf@.next_seq <= s.next_log_seq,
        s.stderr_buf@.next_seq <= s.next_log_seq,
        s.blended_buf@.next_seq <= s.next_log_seq,
        s.blended_buf@.total_bytes == 0,
{
}

} // verus!
