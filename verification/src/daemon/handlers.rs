//! The answers to requests.

use vstd::prelude::*;

use crate::clock::Timestamp;
use crate::daemon::buffer;
use crate::daemon::buffer::{LogBuffer, LogBufferView, LogEntry, Stream};
use crate::daemon::env_map::EnvMap;
use crate::daemon::error::AppError;
use crate::daemon::history;
use crate::daemon::process;
use crate::daemon::session::{Session, SessionCommand, SessionState};
use crate::daemon::session_mgr::SessionManager;
use crate::ids;
use crate::ids::SessionId;
use crate::text;

verus! {

fn clone_strings(v: &Vec<String>) -> (r: Vec<String>)
    ensures
        r@ == v@,
{
    let r = v.clone();
    assert(r@ =~= v@);
    r
}

fn not_found() -> (r: AppError)
    ensures
        r is NotFound,
        r.message() == "session not found"@,
{
    AppError::NotFound("session not found".to_owned())
}

// ---------------------------------------------------------------------------
// Health
// ---------------------------------------------------------------------------

/// That the daemon is alive.
#[derive(Debug)]
pub struct Health {
    pub ok: bool,
    pub service: String,
    pub time: String,
}

impl Health {
    /// What is said at `now`.
    pub open spec fn is_at(self, now: Timestamp) -> bool {
        &&& self.ok
        &&& self.service@ == "korun"@
        &&& self.time@ == crate::clock::rfc3339_text(now.spec_secs(), now.spec_nanos())
    }
}

/// Says that the daemon is alive.
pub fn healthz() -> (r: Health)
    ensures
        exists|now: Timestamp| now.is_reading() && #[trigger] r.is_at(now),
{
    healthz_at(Timestamp::now())
}

/// Says that the daemon is alive at `now`.
pub fn healthz_at(now: Timestamp) -> (r: Health)
    ensures
        r.is_at(now),
{
    Health { ok: true, service: "korun".to_owned(), time: now.to_rfc3339() }
}

// ---------------------------------------------------------------------------
// The list of sessions
// ---------------------------------------------------------------------------

/// A session in short.
#[derive(Debug)]
pub struct SessionSummary {
    pub id: String,
    pub state: String,
    pub command: Vec<String>,
    pub cwd: String,
    pub pid: Option<u32>,
    pub started_at: String,
    pub restart_count: u32,
}

impl SessionSummary {
    /// Whether this is what is to be said of `s`.
    pub open spec fn describes(self, s: Session) -> bool {
        &&& self.id@ == ids::hyphenated(s.id)
        &&& self.state@ == s.state.name()
        &&& self.command@ == s.command@
        &&& self.cwd == s.cwd
        &&& self.pid == s.pid
        &&& self.started_at@ == crate::clock::rfc3339_text(
            s.started_at.spec_secs(),
            s.started_at.spec_nanos(),
        )
        &&& self.restart_count == s.restart_count
    }
}

fn summarize(s: &Session) -> (r: SessionSummary)
    ensures
        r.describes(*s),
{
    SessionSummary {
        id: ids::session_id_text(s.id),
        state: s.state.as_str().to_owned(),
        command: clone_strings(&s.command),
        cwd: s.cwd.clone(),
        pid: s.pid,
        started_at: s.started_at.to_rfc3339(),
        restart_count: s.restart_count,
    }
}

/// Whether a list says of every session in `sessions`, once, what is to be said
/// of it.
pub open spec fn lists_all(list: Seq<SessionSummary>, sessions: Map<SessionId, Session>) -> bool {
    exists|order: Seq<SessionId>|
        {
            &&& #[trigger] order.to_set() == sessions.dom()
            &&& order.no_duplicates()
            &&& list.len() == order.len()
            &&& forall|i: int|
                0 <= i < list.len() ==> (#[trigger] list[i]).describes(sessions[order[i]])
        }
}

/// All sessions in short, in no particular order.
pub fn list_sessions(mgr: &SessionManager) -> (r: Vec<SessionSummary>)
    ensures
        lists_all(r@, mgr@),
{
    let order: Vec<SessionId> = mgr.list();
    let mut out: Vec<SessionSummary> = Vec::new();
    let mut i: usize = 0;
    while i < order.len()
        invariant
            i <= order.len(),
            order@.to_set() == mgr@.dom(),
            out.len() == i,
            forall|j: int| 0 <= j < i ==> (#[trigger] out@[j]).describes(mgr@[order@[j]]),
        decreases order.len() - i,
    {
        assert(order@.to_set().contains(order@[i as int]));
        let summary: Option<SessionSummary> = mgr.with(&order[i], summarize);
        if let Some(summary) = summary {
            out.push(summary);
        }
        i = i + 1;
    }
    out
}

// ---------------------------------------------------------------------------
// A new session
// ---------------------------------------------------------------------------

/// What a new session is asked for with.
#[derive(Debug)]
pub struct CreateSessionRequest {
    pub command: Vec<String>,
    pub cwd: Option<String>,
    pub watch: Option<Vec<String>>,
    pub env: Option<EnvMap>,
}

impl CreateSessionRequest {
    /// The directory that the command is to run in.
    pub open spec fn directory(self) -> Seq<char> {
        match self.cwd {
            Some(cwd) => cwd@,
            None => "/tmp"@,
        }
    }

    /// The paths to watch, as they were asked for.
    pub open spec fn watched(self) -> Seq<Seq<char>> {
        match self.watch {
            Some(watch) => text::texts(watch@),
            None => Seq::empty(),
        }
    }

    /// The variables to set.
    pub open spec fn variables(self) -> Map<Seq<char>, Seq<char>> {
        match self.env {
            Some(env) => env@,
            None => Map::empty(),
        }
    }

    /// The directory that the command is to run in: the one asked for, or
    /// `/tmp`.
    pub fn requested_cwd(&self) -> (r: String)
        ensures
            r@ == self.directory(),
    {
        match &self.cwd {
            Some(cwd) => cwd.clone(),
            None => "/tmp".to_owned(),
        }
    }
}

/// Whether a path starts at the root.
pub open spec fn is_absolute(path: Seq<char>) -> bool {
    path.len() > 0 && path[0] == '/'
}

/// The path that is meant by `path` in the directory `cwd`.
pub open spec fn resolved(cwd: Seq<char>, path: Seq<char>) -> Seq<char> {
    if is_absolute(path) {
        path
    } else {
        cwd + "/"@ + path
    }
}

/// The path that is meant by `path` in the directory `cwd`: an absolute path
/// stays, a relative one is taken from the directory.
pub fn resolve_watch_path(cwd: &str, path: &str) -> (r: String)
    ensures
        r@ == resolved(cwd@, path@),
{
    if path.unicode_len() > 0 && path.get_char(0) == '/' {
        path.to_owned()
    } else {
        cwd.to_owned().concat("/").concat(path)
    }
}

fn resolve_watch(cwd: &str, watch: &Vec<String>) -> (r: Vec<String>)
    ensures
        text::texts(r@) == text::texts(watch@).map_values(|p: Seq<char>| resolved(cwd@, p)),
{
    let mut out: Vec<String> = Vec::new();
    let mut i: usize = 0;
    while i < watch.len()
        invariant
            i <= watch.len(),
            out.len() == i,
            forall|j: int| 0 <= j < i ==> (#[trigger] out@[j])@ == resolved(cwd@, watch@[j]@),
        decreases watch.len() - i,
    {
        out.push(resolve_watch_path(cwd, watch[i].as_str()));
        i = i + 1;
    }
    assert(text::texts(out@) =~= text::texts(watch@).map_values(|p: Seq<char>| resolved(cwd@, p)));
    out
}

/// The answer to a request for a new session.
#[derive(Debug)]
pub struct CreatedReply {
    pub id: String,
    pub state: String,
}

/// A session that was just made: its answer, and the paths to watch for it.
#[derive(Debug)]
pub struct SessionCreated {
    pub id: SessionId,
    pub watch: Vec<String>,
    pub reply: CreatedReply,
}

/// Whether `s` is the session, new at `now`, that `req` asks for.
pub open spec fn is_requested(
    s: Session,
    id: SessionId,
    req: CreateSessionRequest,
    now: Timestamp,
) -> bool {
    &&& s.is_fresh(id, req.command, s.cwd, s.env_overrides, s.watch, now)
    &&& s.cwd@ == req.directory()
    &&& s.env_overrides@ == req.variables()
    &&& text::texts(s.watch@) == req.watched().map_values(|p: Seq<char>| resolved(req.directory(), p))
}

/// Whether `r` is the answer to `req` where the session gets the identifier
/// `id` at `now`, and the sessions go from `before` to `after` with it.
pub open spec fn creates(
    before: Map<SessionId, Session>,
    req: CreateSessionRequest,
    cwd_is_dir: bool,
    id: SessionId,
    now: Timestamp,
    after: Map<SessionId, Session>,
    r: Result<SessionCreated, AppError>,
) -> bool {
    if req.command@.len() == 0 {
        &&& r is Err && r->Err_0 is BadRequest
        &&& r->Err_0.message() == "command must not be empty"@
        &&& after == before
    } else if !cwd_is_dir {
        &&& r is Err && r->Err_0 is BadRequest
        &&& r->Err_0.message() == "cwd is not a directory"@
        &&& after == before
    } else {
        &&& r is Ok
        &&& r->Ok_0.id == id
        &&& r->Ok_0.reply.id@ == ids::hyphenated(id)
        &&& r->Ok_0.reply.state@ == "starting"@
        &&& r->Ok_0.watch@ == after[id].watch@
        &&& is_requested(after[id], id, req, now)
        &&& after == before.insert(id, after[id])
    }
}

/// Makes the session that `req` asks for, under a new identifier. `cwd_is_dir`
/// says whether the directory asked for is there; a request without a command,
/// or for a directory that is not there, is refused and makes no session.
pub fn create_session(
    mgr: &mut SessionManager,
    req: CreateSessionRequest,
    cwd_is_dir: bool,
) -> (r: Result<SessionCreated, AppError>)
    requires
        old(mgr).wf(),
    ensures
        final(mgr).wf(),
        exists|id: SessionId, now: Timestamp|
            ids::is_random_uuid(id) && now.is_reading() && #[trigger] creates(
                old(mgr)@,
                req,
                cwd_is_dir,
                id,
                now,
                final(mgr)@,
                r,
            ),
{
    let id: SessionId = ids::new_session_id();
    let now = Timestamp::now();
    create_session_with(mgr, req, cwd_is_dir, id, now)
}

/// Makes the session that `req` asks for, under the identifier `id` and at
/// `now`.
pub fn create_session_with(
    mgr: &mut SessionManager,
    req: CreateSessionRequest,
    cwd_is_dir: bool,
    id: SessionId,
    now: Timestamp,
) -> (r: Result<SessionCreated, AppError>)
    requires
        old(mgr).wf(),
    ensures
        final(mgr).wf(),
        creates(old(mgr)@, req, cwd_is_dir, id, now, final(mgr)@, r),
{
    if req.command.len() == 0 {
        return Err(AppError::BadRequest("command must not be empty".to_owned()));
    }
    if !cwd_is_dir {
        return Err(AppError::BadRequest("cwd is not a directory".to_owned()));
    }
    let ghost asked = req;
    let cwd: String = req.requested_cwd();
    let watch: Vec<String> = match &req.watch {
        Some(watch) => resolve_watch(cwd.as_str(), watch),
        None => Vec::new(),
    };
    assert(text::texts(watch@) =~= asked.watched().map_values(|p: Seq<char>| resolved(cwd@, p)));
    let env: EnvMap = match req.env {
        Some(env) => env,
        None => EnvMap::new(),
    };
    let to_watch: Vec<String> = clone_strings(&watch);
    let session = Session::new_at(id, req.command, cwd, env, watch, now);
    mgr.insert(session);
    Ok(
        SessionCreated {
            id,
            watch: to_watch,
            reply: CreatedReply {
                id: ids::session_id_text(id),
                state: SessionState::Starting.as_str().to_owned(),
            },
        },
    )
}

// ---------------------------------------------------------------------------
// One session in full
// ---------------------------------------------------------------------------

/// A session in full.
#[derive(Debug)]
pub struct SessionDetail {
    pub id: String,
    pub state: String,
    pub command: Vec<String>,
    pub cwd: String,
    pub env_overrides: EnvMap,
    pub watch: Vec<String>,
    pub pid: Option<u32>,
    pub started_at: String,
    pub last_started_at: Option<String>,
    pub last_stopped_at: Option<String>,
    pub uptime_ms: u64,
    pub restart_count: u32,
    pub manual_restart_count: u32,
    pub watch_restart_count: u32,
    pub file_change_count: u64,
    pub last_change_at: Option<String>,
    pub last_change_path: Option<String>,
    pub exit_code: Option<i32>,
    pub term_signal: Option<i32>,
    pub stdout_lines: usize,
    pub stderr_lines: usize,
    pub blended_lines: usize,
    pub stdout_dropped_lines: u64,
    pub stderr_dropped_lines: u64,
    pub blended_dropped_lines: u64,
    pub stdout_bytes: u64,
    pub stderr_bytes: u64,
}

/// Whether `text` is the text of `time`, and there where `time` is.
pub open spec fn tells_time(text: Option<String>, time: Option<Timestamp>) -> bool {
    match time {
        Some(t) => text is Some && text->0@ == crate::clock::rfc3339_text(
            t.spec_secs(),
            t.spec_nanos(),
        ),
        None => text is None,
    }
}

impl SessionDetail {
    /// Whether this is what is to be said of `s` at `now`.
    pub open spec fn describes(self, s: Session, now: Timestamp) -> bool {
        &&& self.id@ == ids::hyphenated(s.id)
        &&& self.state@ == s.state.name()
        &&& self.command@ == s.command@
        &&& self.cwd == s.cwd
        &&& self.env_overrides@ == s.env_overrides@
        &&& self.watch@ == s.watch@
        &&& self.pid == s.pid
        &&& tells_time(Some(self.started_at), Some(s.started_at))
        &&& tells_time(self.last_started_at, s.last_started_at)
        &&& tells_time(self.last_stopped_at, s.last_stopped_at)
        &&& self.uptime_ms == s.uptime(now)
        &&& self.restart_count == s.restart_count
        &&& self.manual_restart_count == s.manual_restart_count
        &&& self.watch_restart_count == s.watch_restart_count
        &&& self.file_change_count == s.file_change_count
        &&& tells_time(self.last_change_at, s.last_change_at)
        &&& self.last_change_path == s.last_change_path
        &&& self.exit_code == s.exit_code
        &&& self.term_signal == s.term_signal
        &&& self.stdout_lines == s.stdout_buf@.entries.len()
        &&& self.stderr_lines == s.stderr_buf@.entries.len()
        &&& self.blended_lines == s.blended_buf@.entries.len()
        &&& self.stdout_dropped_lines == s.stdout_buf@.dropped
        &&& self.stderr_dropped_lines == s.stderr_buf@.dropped
        &&& self.blended_dropped_lines == s.blended_buf@.dropped
        &&& self.stdout_bytes == s.stdout_buf@.total_bytes
        &&& self.stderr_bytes == s.stderr_buf@.total_bytes
    }
}

fn time_text(time: &Option<Timestamp>) -> (r: Option<String>)
    ensures
        tells_time(r, *time),
{
    match time {
        Some(t) => Some(t.to_rfc3339()),
        None => None,
    }
}

fn detail(s: &Session, now: Timestamp) -> (r: SessionDetail)
    ensures
        r.describes(*s, now),
{
    let out = s.stdout_buf.stats();
    let err = s.stderr_buf.stats();
    let both = s.blended_buf.stats();
    let last_change_path: Option<String> = match &s.last_change_path {
        Some(path) => Some(path.clone()),
        None => None,
    };
    SessionDetail {
        id: ids::session_id_text(s.id),
        state: s.state.as_str().to_owned(),
        command: clone_strings(&s.command),
        cwd: s.cwd.clone(),
        env_overrides: s.env_overrides.clone(),
        watch: clone_strings(&s.watch),
        pid: s.pid,
        started_at: s.started_at.to_rfc3339(),
        last_started_at: time_text(&s.last_started_at),
        last_stopped_at: time_text(&s.last_stopped_at),
        uptime_ms: s.uptime_ms_at(now),
        restart_count: s.restart_count,
        manual_restart_count: s.manual_restart_count,
        watch_restart_count: s.watch_restart_count,
        file_change_count: s.file_change_count,
        last_change_at: time_text(&s.last_change_at),
        last_change_path,
        exit_code: s.exit_code,
        term_signal: s.term_signal,
        stdout_lines: out.lines,
        stderr_lines: err.lines,
        blended_lines: both.lines,
        stdout_dropped_lines: out.dropped,
        stderr_dropped_lines: err.dropped,
        blended_dropped_lines: both.dropped,
        stdout_bytes: out.bytes,
        stderr_bytes: err.bytes,
    }
}

/// Whether `r` is the answer to a question about session `id` at `now`.
pub open spec fn details(
    sessions: Map<SessionId, Session>,
    id: SessionId,
    now: Timestamp,
    r: Result<SessionDetail, AppError>,
) -> bool {
    if sessions.contains_key(id) {
        r is Ok && r->Ok_0.describes(sessions[id], now)
    } else {
        is_not_found(r)
    }
}

/// Whether `r` refuses a request because there is no such session.
pub open spec fn is_not_found<T>(r: Result<T, AppError>) -> bool {
    &&& r is Err
    &&& r->Err_0 is NotFound
    &&& r->Err_0.message() == "session not found"@
}

/// A session in full, as it is now.
pub fn get_session(mgr: &SessionManager, id: &SessionId) -> (r: Result<SessionDetail, AppError>)
    ensures
        exists|now: Timestamp| now.is_reading() && #[trigger] details(mgr@, *id, now, r),
{
    let now = Timestamp::now();
    get_session_at(mgr, id, now)
}

/// A session in full, as it is at `now`.
pub fn get_session_at(mgr: &SessionManager, id: &SessionId, now: Timestamp) -> (r: Result<
    SessionDetail,
    AppError,
>)
    ensures
        details(mgr@, *id, now, r),
{
    match mgr.get_ref(id) {
        Some(s) => Ok(detail(s, now)),
        None => Err(not_found()),
    }
}

// ---------------------------------------------------------------------------
// Restarting and stopping
// ---------------------------------------------------------------------------

/// The answer to a request to restart or stop a session.
#[derive(Debug)]
pub struct ControlReply {
    pub ok: bool,
    pub id: String,
    pub state: String,
}

impl ControlReply {
    /// Whether this confirms a request for session `id` by naming `state`.
    pub open spec fn confirms(self, id: SessionId, state: SessionState) -> bool {
        &&& self.ok
        &&& self.id@ == ids::hyphenated(id)
        &&& self.state@ == state.name()
    }
}

/// What to do for a request to restart or stop a session.
#[derive(Debug)]
pub enum ControlPlan {
    /// Nothing is to be done: answer at once.
    Answer(ControlReply),
    /// Send the session's supervisor a command, and answer once it is sent.
    Send { command: SessionCommand, reply: ControlReply },
}

fn confirm(id: SessionId, state: SessionState) -> (r: ControlReply)
    ensures
        r.confirms(id, state),
{
    ControlReply { ok: true, id: ids::session_id_text(id), state: state.as_str().to_owned() }
}

/// Whether `r` is a plan to send `command` and then to confirm with `state`.
pub open spec fn sends(
    r: Result<ControlPlan, AppError>,
    id: SessionId,
    command: SessionCommand,
    state: SessionState,
) -> bool {
    &&& r is Ok
    &&& r->Ok_0 is Send
    &&& r->Ok_0->command == command
    &&& r->Ok_0->reply.confirms(id, state)
}

/// Whether `r` is a plan to confirm with `state` at once.
pub open spec fn answers(
    r: Result<ControlPlan, AppError>,
    id: SessionId,
    state: SessionState,
) -> bool {
    &&& r is Ok
    &&& r->Ok_0 is Answer
    &&& r->Ok_0->Answer_0.confirms(id, state)
}

/// What to do for a request to restart a session. One that is stopping already
/// is left alone; any other is restarted, whether its command runs or not.
pub fn restart_session(mgr: &SessionManager, id: &SessionId) -> (r: Result<ControlPlan, AppError>)
    ensures
        if !mgr@.contains_key(*id) {
            is_not_found(r)
        } else if mgr@[*id].state == SessionState::Stopping {
            answers(r, *id, SessionState::Stopping)
        } else {
            sends(r, *id, (SessionCommand::Restart { is_watch: false }), SessionState::Starting)
        },
{
    let state: SessionState = match mgr.get_ref(id) {
        Some(s) => s.state,
        None => {
            return Err(not_found());
        },
    };
    if state == SessionState::Stopping {
        return Ok(ControlPlan::Answer(confirm(*id, state)));
    }
    Ok(
        ControlPlan::Send {
            command: SessionCommand::Restart { is_watch: false },
            reply: confirm(*id, SessionState::Starting),
        },
    )
}

/// What to do for a request to stop a session. One that is stopping already is
/// left alone, and one whose command is over cannot be stopped.
pub fn stop_session(mgr: &SessionManager, id: &SessionId) -> (r: Result<ControlPlan, AppError>)
    ensures
        if !mgr@.contains_key(*id) {
            is_not_found(r)
        } else if mgr@[*id].state.is_terminal() {
            &&& r is Err && r->Err_0 is Conflict
            &&& r->Err_0.message() == "session already in terminal state"@
        } else if mgr@[*id].state == SessionState::Stopping {
            answers(r, *id, SessionState::Stopping)
        } else {
            sends(r, *id, SessionCommand::Stop, SessionState::Stopping)
        },
{
    let state: SessionState = match mgr.get_ref(id) {
        Some(s) => s.state,
        None => {
            return Err(not_found());
        },
    };
    if state == SessionState::Exited || state == SessionState::Failed {
        return Err(AppError::Conflict("session already in terminal state".to_owned()));
    }
    if state == SessionState::Stopping {
        return Ok(ControlPlan::Answer(confirm(*id, state)));
    }
    Ok(
        ControlPlan::Send {
            command: SessionCommand::Stop,
            reply: confirm(*id, SessionState::Stopping),
        },
    )
}

/// The answer once a command was sent, or could not be: the supervisor is gone
/// then.
pub fn conclude_control(reply: ControlReply, delivered: bool) -> (r: Result<ControlReply, AppError>)
    ensures
        if delivered {
            r == Ok::<ControlReply, AppError>(reply)
        } else {
            &&& r is Err && r->Err_0 is Internal
            &&& r->Err_0.message() == "supervisor task gone"@
        },
{
    if delivered {
        Ok(reply)
    } else {
        Err(AppError::Internal("supervisor task gone".to_owned()))
    }
}

// ---------------------------------------------------------------------------
// Logs
// ---------------------------------------------------------------------------

/// How logs are asked for.
#[derive(Debug)]
pub struct LogsQuery {
    pub stream: Option<String>,
    pub limit: Option<usize>,
    pub since_seq: Option<u64>,
    pub follow: Option<u8>,
    pub format: Option<String>,
}

impl LogsQuery {
    /// The stream asked for: both blended, unless one is named.
    pub open spec fn stream_name(self) -> Seq<char> {
        match self.stream {
            Some(name) => name@,
            None => "blended"@,
        }
    }

    /// How many lines are asked for at most.
    pub open spec fn line_limit(self) -> nat {
        match self.limit {
            Some(limit) => limit as nat,
            None => 100,
        }
    }

    /// The format asked for.
    pub open spec fn format_name(self) -> Seq<char> {
        match self.format {
            Some(name) => name@,
            None => "json"@,
        }
    }

    /// Whether new lines are to be sent as they come.
    pub open spec fn follows(self) -> bool {
        self.follow == Some(1u8)
    }

    fn stream_or_default(&self) -> (r: String)
        ensures
            r@ == self.stream_name(),
    {
        match &self.stream {
            Some(name) => name.clone(),
            None => "blended".to_owned(),
        }
    }

    fn format_or_default(&self) -> (r: String)
        ensures
            r@ == self.format_name(),
    {
        match &self.format {
            Some(name) => name.clone(),
            None => "json".to_owned(),
        }
    }

    fn limit_or_default(&self) -> (r: usize)
        ensures
            r == self.line_limit(),
    {
        match self.limit {
            Some(limit) => limit,
            None => 100,
        }
    }
}

/// The name of a stream.
pub open spec fn label(s: Stream) -> Seq<char> {
    match s {
        Stream::Stdout => "stdout"@,
        Stream::Stderr => "stderr"@,
        Stream::System => "system"@,
    }
}

/// The name of a stream.
pub fn stream_label(s: Stream) -> (r: &'static str)
    ensures
        r@ == label(s),
{
    match s {
        Stream::Stdout => "stdout",
        Stream::Stderr => "stderr",
        Stream::System => "system",
    }
}

/// The buffer of a session that is read for a stream name: that of the stream
/// where the name is one, and the blended one for any other name.
pub open spec fn buffer_for(s: Session, stream_name: Seq<char>) -> LogBufferView {
    if stream_name == "stdout"@ {
        s.stdout_buf@
    } else if stream_name == "stderr"@ {
        s.stderr_buf@
    } else {
        s.blended_buf@
    }
}

fn select_buffer<'a>(s: &'a Session, stream_name: &str) -> (r: &'a LogBuffer)
    ensures
        r@ == buffer_for(*s, stream_name@),
{
    if text::same_text(stream_name, "stdout") {
        &s.stdout_buf
    } else if text::same_text(stream_name, "stderr") {
        &s.stderr_buf
    } else {
        &s.blended_buf
    }
}

/// A line with its stream's name before it.
pub open spec fn labelled_line(e: LogEntry) -> Seq<char> {
    "["@ + label(e.stream) + "] "@ + e.line@ + "\n"@
}

fn labelled(e: &LogEntry) -> (r: String)
    ensures
        r@ == labelled_line(*e),
{
    "[".to_owned().concat(stream_label(e.stream)).concat("] ").concat(e.line.as_str()).concat("\n")
}

/// One entry as a JSON object on a line of its own.
pub open spec fn json_line(e: LogEntry) -> Seq<char> {
    "{\"seq\":"@ + text::decimal(e.seq as nat) + ",\"ts\":"@ + text::json_quoted(
        crate::clock::rfc3339_zulu_text(e.ts.spec_secs(), e.ts.spec_nanos()),
    ) + ",\"stream\":"@ + text::json_quoted(label(e.stream)) + ",\"line\":"@ + text::json_quoted(
        e.line@,
    ) + "}"@ + "\n"@
}

/// One entry by itself, in the format asked for.
pub open spec fn entry_chunk(e: LogEntry, format: Seq<char>) -> Seq<char> {
    if format == "text"@ {
        labelled_line(e)
    } else {
        json_line(e)
    }
}

/// Whether `chunk` is the JSON line of one entry only: what stands there gives
/// back the number, the time, the stream and the line.
pub open spec fn gives_back(chunk: Seq<char>, e: LogEntry) -> bool {
    forall|b: LogEntry|
        crate::clock::is_timestamp(b.ts.spec_secs() as int, b.ts.spec_nanos() as int)
            && #[trigger] json_line(b) == chunk ==> {
            &&& b.seq == e.seq
            &&& b.ts == e.ts
            &&& b.stream == e.stream
            &&& b.line@ == e.line@
        }
}

/// One entry by itself: the line after its stream's name where `format` is
/// `text`, and a JSON object for any other format, which gives the entry back;
/// on a line of its own.
pub fn format_entry(entry: &LogEntry, format: &str) -> (r: String)
    ensures
        r@ == entry_chunk(*entry, format@),
        format@ != "text"@ ==> gives_back(r@, *entry),
{
    if text::same_text(format, "text") {
        return labelled(entry);
    }
    let seq: String = text::decimal_text(entry.seq);
    let time: String = entry.ts.to_rfc3339_zulu();
    let ts: String = text::json_string(time.as_str());
    let stream: String = text::json_string(stream_label(entry.stream));
    let line: String = text::json_string(entry.line.as_str());
    proof {
        assert forall|b: LogEntry|
            crate::clock::is_timestamp(b.ts.spec_secs() as int, b.ts.spec_nanos() as int)
                && #[trigger] json_line(b) == json_line(*entry) implies {
            &&& b.seq == entry.seq
            &&& b.ts == entry.ts
            &&& b.stream == entry.stream
            &&& b.line@ == entry.line@
        } by {
            law_json_entry_gives_the_entry_back(b, *entry);
            assert(crate::clock::rfc3339_zulu_text(b.ts.spec_secs(), b.ts.spec_nanos()) == time@);
            crate::clock::law_parts_name_the_time(b.ts, entry.ts);
        }
    }
    "{\"seq\":".to_owned().concat(seq.as_str()).concat(",\"ts\":").concat(ts.as_str()).concat(
        ",\"stream\":",
    ).concat(stream.as_str()).concat(",\"line\":").concat(line.as_str()).concat("}").concat("\n")
}

/// One entry as text in a snapshot of a stream: the line, with its stream's name
/// before it where both streams are blended.
pub open spec fn text_line(stream: Seq<char>, e: LogEntry) -> Seq<char> {
    if stream == "blended"@ {
        labelled_line(e)
    } else {
        e.line@ + "\n"@
    }
}

fn snapshot_line(stream: &str, entry: &LogEntry) -> (r: String)
    ensures
        r@ == text_line(stream@, *entry),
{
    if text::same_text(stream, "blended") {
        labelled(entry)
    } else {
        entry.line.clone().concat("\n")
    }
}

/// Whether a name is that of one of the command's two streams.
pub open spec fn is_single(stream: Seq<char>) -> bool {
    stream == "stdout"@ || stream == "stderr"@
}

/// One entry as it is sent to a reader that follows a stream.
pub open spec fn sent_chunk(stream: Seq<char>, e: LogEntry, format: Seq<char>) -> Seq<char> {
    if format == "text"@ && is_single(stream) {
        e.line@ + "\n"@
    } else {
        entry_chunk(e, format)
    }
}

/// One entry as it is sent to a reader that follows a stream. As text, the
/// stream's name is left out only where one of the two streams is followed.
pub fn stream_entry(stream: &str, entry: &LogEntry, format: &str) -> (r: String)
    ensures
        r@ == sent_chunk(stream@, *entry, format@),
        format@ != "text"@ ==> gives_back(r@, *entry),
{
    let single: bool = text::same_text(stream, "stdout") || text::same_text(stream, "stderr");
    if text::same_text(format, "text") && single {
        entry.line.clone().concat("\n")
    } else {
        format_entry(entry, format)
    }
}

/// One entry of a snapshot.
#[derive(Debug)]
pub struct EntryReply {
    pub seq: u64,
    pub ts: String,
    pub stream: String,
    pub line: String,
}

impl EntryReply {
    /// Whether this shows the entry `e`.
    pub open spec fn shows(self, e: LogEntry) -> bool {
        &&& self.seq == e.seq
        &&& self.ts@ == crate::clock::rfc3339_zulu_text(e.ts.spec_secs(), e.ts.spec_nanos())
        &&& self.stream@ == label(e.stream)
        &&& self.line == e.line
    }
}

/// Lines of a buffer at one moment, and the number to ask from next.
#[derive(Debug)]
pub struct LogSnapshot {
    pub session_id: String,
    pub stream: String,
    pub entries: Vec<EntryReply>,
    pub next_seq: u64,
}

/// Lines of a buffer at one moment, in one of two formats.
#[derive(Debug)]
pub enum Snapshot {
    Text(String),
    Json(LogSnapshot),
}

/// The lines of a snapshot as plain text.
pub open spec fn snapshot_text(stream: Seq<char>, entries: Seq<LogEntry>) -> Seq<char>
    decreases entries.len(),
{
    if entries.len() == 0 {
        Seq::empty()
    } else {
        snapshot_text(stream, entries.drop_last()) + text_line(stream, entries.last())
    }
}

/// Whether `r` shows `entries` of a stream of session `id` in the format asked
/// for.
pub open spec fn renders(
    r: Snapshot,
    id: SessionId,
    stream: Seq<char>,
    entries: Seq<LogEntry>,
    next_seq: nat,
    format: Seq<char>,
) -> bool {
    if format == "text"@ {
        r is Text && r->Text_0@ == snapshot_text(stream, entries)
    } else {
        &&& r is Json
        &&& r->Json_0.session_id@ == ids::hyphenated(id)
        &&& r->Json_0.stream@ == stream
        &&& r->Json_0.entries.len() == entries.len()
        &&& forall|i: int|
            0 <= i < entries.len() ==> (#[trigger] r->Json_0.entries@[i]).shows(entries[i])
        &&& r->Json_0.next_seq == next_seq
    }
}

/// Shows lines of a stream: as plain text where `format` is `text`, and as a
/// JSON object for any other format.
pub fn render_snapshot(
    session_id: SessionId,
    stream: &str,
    entries: &Vec<LogEntry>,
    next_seq: u64,
    format: &str,
) -> (r: Snapshot)
    ensures
        renders(r, session_id, stream@, entries@, next_seq as nat, format@),
{
    if text::same_text(format, "text") {
        let mut out: String = String::new();
        let mut i: usize = 0;
        while i < entries.len()
            invariant
                i <= entries.len(),
                out@ == snapshot_text(stream@, entries@.take(i as int)),
            decreases entries.len() - i,
        {
            proof {
                assert(entries@.take(i + 1).drop_last() =~= entries@.take(i as int));
            }
            out.append(snapshot_line(stream, &entries[i]).as_str());
            i = i + 1;
        }
        assert(entries@.take(i as int) =~= entries@);
        return Snapshot::Text(out);
    }
    let mut shown: Vec<EntryReply> = Vec::new();
    let mut i: usize = 0;
    while i < entries.len()
        invariant
            i <= entries.len(),
            shown.len() == i,
            forall|j: int| 0 <= j < i ==> (#[trigger] shown@[j]).shows(entries@[j]),
        decreases entries.len() - i,
    {
        let e: &LogEntry = &entries[i];
        shown.push(
            EntryReply {
                seq: e.seq,
                ts: e.ts.to_rfc3339_zulu(),
                stream: stream_label(e.stream).to_owned(),
                line: e.line.clone(),
            },
        );
        i = i + 1;
    }
    Snapshot::Json(
        LogSnapshot {
            session_id: ids::session_id_text(session_id),
            stream: stream.to_owned(),
            entries: shown,
            next_seq,
        },
    )
}

/// How a session is followed: what is sent first, and what is to be known to
/// send each line that comes.
#[derive(Debug)]
pub struct Following {
    pub initial: Vec<String>,
    pub stream: String,
    pub format: String,
}

/// The answer to a request for logs.
#[derive(Debug)]
pub enum LogsReply {
    /// The lines of this moment.
    Snapshot(Snapshot),
    /// The lines of this moment, and each new one as it comes.
    Follow(Following),
}

/// The lines that a query asks for: those from a number on where it names one,
/// and the newest elsewhere.
pub open spec fn queried(b: LogBufferView, q: LogsQuery) -> Seq<LogEntry> {
    match q.since_seq {
        Some(n) => b.since_seq(n, q.line_limit()),
        None => b.tail(q.line_limit()),
    }
}

/// Whether `r` answers the query `q` about session `id`.
pub open spec fn answers_logs(
    sessions: Map<SessionId, Session>,
    id: SessionId,
    q: LogsQuery,
    r: Result<LogsReply, AppError>,
) -> bool {
    if !sessions.contains_key(id) {
        is_not_found(r)
    } else {
        let b = buffer_for(sessions[id], q.stream_name());
        let lines = queried(b, q);
        if q.follows() {
            &&& r is Ok && r->Ok_0 is Follow
            &&& r->Ok_0->Follow_0.stream@ == q.stream_name()
            &&& r->Ok_0->Follow_0.format@ == q.format_name()
            &&& text::texts(r->Ok_0->Follow_0.initial@) == lines.map_values(
                |e: LogEntry| sent_chunk(q.stream_name(), e, q.format_name()),
            )
        } else {
            &&& r is Ok && r->Ok_0 is Snapshot
            &&& renders(
                r->Ok_0->Snapshot_0,
                id,
                q.stream_name(),
                lines,
                b.next_seq,
                q.format_name(),
            )
        }
    }
}

/// The lines of a session that a query asks for, and whether and how new ones
/// are to be sent.
pub fn get_logs(mgr: &SessionManager, id: &SessionId, q: &LogsQuery) -> (r: Result<
    LogsReply,
    AppError,
>)
    ensures
        answers_logs(mgr@, *id, *q, r),
{
    let stream: String = q.stream_or_default();
    let limit: usize = q.limit_or_default();
    let format: String = q.format_or_default();
    let s: &Session = match mgr.get_ref(id) {
        Some(s) => s,
        None => {
            return Err(not_found());
        },
    };
    let buf: &LogBuffer = select_buffer(s, stream.as_str());
    let entries: Vec<LogEntry> = match q.since_seq {
        Some(seq) => buf.since_seq(seq, limit),
        None => buf.tail(limit),
    };
    let next_seq: u64 = buf.peek_next_seq();
    let follow: bool = match q.follow {
        Some(n) => n == 1,
        None => false,
    };
    if !follow {
        return Ok(
            LogsReply::Snapshot(
                render_snapshot(*id, stream.as_str(), &entries, next_seq, format.as_str()),
            ),
        );
    }
    let mut initial: Vec<String> = Vec::new();
    let mut i: usize = 0;
    while i < entries.len()
        invariant
            i <= entries.len(),
            initial.len() == i,
            forall|j: int|
                0 <= j < i ==> (#[trigger] initial@[j])@ == sent_chunk(
                    stream@,
                    entries@[j],
                    format@,
                ),
        decreases entries.len() - i,
    {
        initial.push(stream_entry(stream.as_str(), &entries[i], format.as_str()));
        i = i + 1;
    }
    assert(text::texts(initial@) =~= entries@.map_values(
        |e: LogEntry| sent_chunk(stream@, e, format@),
    ));
    Ok(LogsReply::Follow(Following { initial, stream, format }))
}

/// The oldest lines of a session that are still there. A number to start from
/// is ignored.
pub fn get_head(mgr: &SessionManager, id: &SessionId, q: &LogsQuery) -> (r: Result<
    Snapshot,
    AppError,
>)
    ensures
        if !mgr@.contains_key(*id) {
            is_not_found(r)
        } else {
            let b = buffer_for(mgr@[*id], q.stream_name());
            r is Ok && renders(
                r->Ok_0,
                *id,
                q.stream_name(),
                b.head(q.line_limit()),
                b.next_seq,
                q.format_name(),
            )
        },
{
    let stream: String = q.stream_or_default();
    let limit: usize = q.limit_or_default();
    let format: String = q.format_or_default();
    match mgr.get_ref(id) {
        Some(s) => {
            let buf: &LogBuffer = select_buffer(s, stream.as_str());
            let entries: Vec<LogEntry> = buf.head(limit);
            Ok(
                render_snapshot(
                    *id,
                    stream.as_str(),
                    &entries,
                    buf.peek_next_seq(),
                    format.as_str(),
                ),
            )
        },
        None => Err(not_found()),
    }
}

/// The same as `get_logs`.
pub fn get_tail(mgr: &SessionManager, id: &SessionId, q: &LogsQuery) -> (r: Result<
    LogsReply,
    AppError,
>)
    ensures
        answers_logs(mgr@, *id, *q, r),
{
    get_logs(mgr, id, q)
}

/// What reaches a reader that follows a session.
#[derive(Debug)]
pub enum FollowEvent {
    /// A new line.
    Entry(LogEntry),
    /// The reader was too slow, and so many lines went by.
    Lagged(u64),
}

/// Whether a reader of a stream is to get an entry: all of them where both
/// streams are blended, those of its stream where it reads one, and none where
/// the name is no stream's.
pub open spec fn wants(stream_name: Seq<char>, e: LogEntry) -> bool {
    if stream_name == "blended"@ {
        true
    } else if stream_name == "stdout"@ {
        e.stream == Stream::Stdout
    } else if stream_name == "stderr"@ {
        e.stream == Stream::Stderr
    } else {
        false
    }
}

/// The notice that `n` lines went by, in either format.
pub open spec fn lag_notice(n: u64, format: Seq<char>, now: Timestamp) -> Seq<char> {
    let count = text::decimal(n as nat);
    if format == "text"@ {
        "[korun: dropped "@ + count + " lines]\n"@
    } else {
        "{\"line\":"@ + text::json_quoted("dropped "@ + count + " lines"@)
            + ",\"seq\":0,\"stream\":\"system\",\"ts\":"@ + text::json_quoted(
            crate::clock::rfc3339_text(now.spec_secs(), now.spec_nanos()),
        ) + "}"@ + "\n"@
    }
}

/// Whether `r` is what is sent for an event at `now` to a reader of a stream.
pub open spec fn forwards(
    stream_name: Seq<char>,
    format: Seq<char>,
    event: FollowEvent,
    now: Timestamp,
    r: Option<String>,
) -> bool {
    match event {
        FollowEvent::Entry(e) => if wants(stream_name, e) {
            r is Some && r->0@ == sent_chunk(stream_name, e, format)
        } else {
            r is None
        },
        FollowEvent::Lagged(n) => r is Some && r->0@ == lag_notice(n, format, now),
    }
}

/// What to send, if anything, to a reader that follows a stream of a session
/// when `event` happens.
pub fn follow_chunk(stream_name: &str, format: &str, event: &FollowEvent) -> (r: Option<String>)
    ensures
        exists|now: Timestamp|
            now.is_reading() && #[trigger] forwards(stream_name@, format@, *event, now, r),
{
    let now = Timestamp::now();
    follow_chunk_at(stream_name, format, event, now)
}

/// What to send, if anything, when `event` happens at `now`.
pub fn follow_chunk_at(
    stream_name: &str,
    format: &str,
    event: &FollowEvent,
    now: Timestamp,
) -> (r: Option<String>)
    ensures
        forwards(stream_name@, format@, *event, now, r),
{
    match event {
        FollowEvent::Entry(e) => {
            let wanted: bool = if text::same_text(stream_name, "blended") {
                true
            } else if text::same_text(stream_name, "stdout") {
                e.stream == Stream::Stdout
            } else if text::same_text(stream_name, "stderr") {
                e.stream == Stream::Stderr
            } else {
                false
            };
            if wanted {
                Some(stream_entry(stream_name, e, format))
            } else {
                None
            }
        },
        FollowEvent::Lagged(n) => {
            let count: String = text::decimal_text(*n);
            if text::same_text(format, "text") {
                Some("[korun: dropped ".to_owned().concat(count.as_str()).concat(" lines]\n"))
            } else {
                let notice: String = text::json_string(
                    "dropped ".to_owned().concat(count.as_str()).concat(" lines").as_str(),
                );
                let ts: String = text::json_string(now.to_rfc3339().as_str());
                Some(
                    "{\"line\":".to_owned().concat(notice.as_str()).concat(
                        ",\"seq\":0,\"stream\":\"system\",\"ts\":",
                    ).concat(ts.as_str()).concat("}").concat("\n"),
                )
            }
        },
    }
}

// ---------------------------------------------------------------------------
// What the answers amount to together
// ---------------------------------------------------------------------------

/// A new session can be asked for by its identifier, and every session that
/// was there before is there as it was. A refused request changes nothing.
pub proof fn law_sessions_accumulate(
    before: Map<SessionId, Session>,
    req: CreateSessionRequest,
    cwd_is_dir: bool,
    id: SessionId,
    now: Timestamp,
    after: Map<SessionId, Session>,
    r: Result<SessionCreated, AppError>,
)
    requires
        creates(before, req, cwd_is_dir, id, now, after, r),
    ensures
        r is Ok ==> after.contains_key(r->Ok_0.id),
        r is Err ==> after == before,
        forall|other: SessionId| #[trigger]
            before.contains_key(other) && other != id ==> after.contains_key(other) && after[other]
                == before[other],
{
}

/// Whether a text is one line: it ends with a line break and has no other.
pub open spec fn is_one_line(s: Seq<char>) -> bool {
    &&& s.len() > 0
    &&& s.last() == '\n'
    &&& !s.drop_last().contains('\n')
}

/// Every entry that is sent to a reader is a line of its own, in either format:
/// in JSON whatever it holds, and as text where it holds one line.
pub proof fn law_entries_are_sent_line_by_line(stream: Seq<char>, e: LogEntry, format: Seq<char>)
    requires
        format == "text"@ ==> !e.line@.contains('\n'),
    ensures
        is_one_line(sent_chunk(stream, e, format)),
{
    reveal_strlit("\n");
    if format == "text"@ && is_single(stream) {
        assert((e.line@ + "\n"@).drop_last() =~= e.line@);
    } else if format == "text"@ {
        let before = "["@ + label(e.stream) + "] "@ + e.line@;
        reveal_strlit("[");
        reveal_strlit("] ");
        lemma_label_has_no_break(e.stream);
        lemma_no_break_in_sum("["@, label(e.stream));
        lemma_no_break_in_sum("["@ + label(e.stream), "] "@);
        lemma_no_break_in_sum("["@ + label(e.stream) + "] "@, e.line@);
        assert(labelled_line(e).drop_last() =~= before);
    } else {
        let seq = text::decimal(e.seq as nat);
        let ts = text::json_quoted(
            crate::clock::rfc3339_zulu_text(e.ts.spec_secs(), e.ts.spec_nanos()),
        );
        let stream = text::json_quoted(label(e.stream));
        let line = text::json_quoted(e.line@);
        text::law_json_string_is_one_line(
            crate::clock::rfc3339_zulu_text(e.ts.spec_secs(), e.ts.spec_nanos()),
        );
        text::law_json_string_is_one_line(label(e.stream));
        text::law_json_string_is_one_line(e.line@);
        text::lemma_decimal_has_no_break(e.seq as nat);
        reveal_strlit("{\"seq\":");
        reveal_strlit(",\"ts\":");
        reveal_strlit(",\"stream\":");
        reveal_strlit(",\"line\":");
        reveal_strlit("}");
        let a = "{\"seq\":"@ + seq;
        let b = a + ",\"ts\":"@ + ts;
        let c = b + ",\"stream\":"@ + stream;
        let d = c + ",\"line\":"@ + line;
        lemma_no_break_in_sum("{\"seq\":"@, seq);
        lemma_no_break_in_sum(a, ",\"ts\":"@);
        lemma_no_break_in_sum(a + ",\"ts\":"@, ts);
        lemma_no_break_in_sum(b, ",\"stream\":"@);
        lemma_no_break_in_sum(b + ",\"stream\":"@, stream);
        lemma_no_break_in_sum(c, ",\"line\":"@);
        lemma_no_break_in_sum(c + ",\"line\":"@, line);
        lemma_no_break_in_sum(d, "}"@);
        assert(json_line(e).drop_last() =~= d + "}"@);
    }
}

/// An entry as JSON gives the entry back: its number, the text of its time, its
/// stream and its line.
pub proof fn law_json_entry_gives_the_entry_back(a: LogEntry, b: LogEntry)
    requires
        json_line(a) == json_line(b),
    ensures
        a.seq == b.seq,
        time_of(a) == time_of(b),
        a.stream == b.stream,
        a.line@ == b.line@,
{
    reveal_strlit(",\"ts\":");
    assert(from_time(a)[0] == ',' && from_time(b)[0] == ',');
    lemma_json_line_in_order(a);
    lemma_json_line_in_order(b);
    lemma_same_beginning(
        "{\"seq\":"@,
        text::decimal(a.seq as nat) + from_time(a),
        text::decimal(b.seq as nat) + from_time(b),
    );
    text::lemma_decimal_ends(a.seq as nat, b.seq as nat, from_time(a), from_time(b));
    lemma_same_beginning(
        ",\"ts\":"@,
        text::json_quoted(time_of(a)) + from_stream(a),
        text::json_quoted(time_of(b)) + from_stream(b),
    );
    text::law_json_string_gives_its_text_back(
        time_of(a),
        time_of(b),
        from_stream(a),
        from_stream(b),
    );
    lemma_same_beginning(
        ",\"stream\":"@,
        text::json_quoted(label(a.stream)) + from_line(a),
        text::json_quoted(label(b.stream)) + from_line(b),
    );
    text::law_json_string_gives_its_text_back(
        label(a.stream),
        label(b.stream),
        from_line(a),
        from_line(b),
    );
    lemma_label_is_unique(a.stream, b.stream);
    lemma_same_beginning(
        ",\"line\":"@,
        text::json_quoted(a.line@) + ("}"@ + "\n"@),
        text::json_quoted(b.line@) + ("}"@ + "\n"@),
    );
    text::law_json_string_gives_its_text_back(a.line@, b.line@, "}"@ + "\n"@, "}"@ + "\n"@);
}

/// The text of an entry's time.
pub open spec fn time_of(e: LogEntry) -> Seq<char> {
    crate::clock::rfc3339_zulu_text(e.ts.spec_secs(), e.ts.spec_nanos())
}

/// What follows the number in an entry as JSON.
spec fn from_time(e: LogEntry) -> Seq<char> {
    ",\"ts\":"@ + (text::json_quoted(time_of(e)) + from_stream(e))
}

/// What follows the time in an entry as JSON.
spec fn from_stream(e: LogEntry) -> Seq<char> {
    ",\"stream\":"@ + (text::json_quoted(label(e.stream)) + from_line(e))
}

/// What follows the stream in an entry as JSON.
spec fn from_line(e: LogEntry) -> Seq<char> {
    ",\"line\":"@ + (text::json_quoted(e.line@) + ("}"@ + "\n"@))
}

/// An entry as JSON, taken apart from the front.
proof fn lemma_json_line_in_order(e: LogEntry)
    ensures
        json_line(e) == "{\"seq\":"@ + (text::decimal(e.seq as nat) + from_time(e)),
{
    let end = "}"@ + "\n"@;
    let time = text::json_quoted(time_of(e));
    let stream = text::json_quoted(label(e.stream));
    let line = text::json_quoted(e.line@);
    let p1 = "{\"seq\":"@ + text::decimal(e.seq as nat);
    let p2 = p1 + ",\"ts\":"@;
    let p3 = p2 + time;
    let p4 = p3 + ",\"stream\":"@;
    let p5 = p4 + stream;
    let p6 = p5 + ",\"line\":"@;
    let p7 = p6 + line;
    lemma_regroup(p7, "}"@, "\n"@);
    lemma_regroup(p6, line, end);
    lemma_regroup(p5, ",\"line\":"@, line + end);
    lemma_regroup(p4, stream, from_line(e));
    lemma_regroup(p3, ",\"stream\":"@, stream + from_line(e));
    lemma_regroup(p2, time, from_stream(e));
    lemma_regroup(p1, ",\"ts\":"@, time + from_stream(e));
    lemma_regroup("{\"seq\":"@, text::decimal(e.seq as nat), from_time(e));
}

proof fn lemma_regroup(a: Seq<char>, b: Seq<char>, c: Seq<char>)
    ensures
        (a + b) + c == a + (b + c),
{
    assert((a + b) + c =~= a + (b + c));
}

proof fn lemma_same_beginning(p: Seq<char>, x: Seq<char>, y: Seq<char>)
    requires
        p + x == p + y,
    ensures
        x == y,
{
    assert(x =~= (p + x).skip(p.len() as int));
    assert(y =~= (p + y).skip(p.len() as int));
}

proof fn lemma_label_is_unique(a: Stream, b: Stream)
    requires
        label(a) == label(b),
    ensures
        a == b,
{
    reveal_strlit("stdout");
    reveal_strlit("stderr");
    reveal_strlit("system");
    assert("stdout"@[3] == 'o' && "stderr"@[3] == 'e' && "system"@[3] == 't');
}

/// The notice of lines that went by is a line of its own too.
pub proof fn law_notice_is_one_line(n: u64, format: Seq<char>, now: Timestamp)
    ensures
        is_one_line(lag_notice(n, format, now)),
{
    let count = text::decimal(n as nat);
    text::lemma_decimal_has_no_break(n as nat);
    if format == "text"@ {
        reveal_strlit("[korun: dropped ");
        reveal_strlit(" lines]\n");
        let end = " lines]\n"@;
        lemma_no_break_in_sum("[korun: dropped "@, count);
        lemma_no_break_in_sum("[korun: dropped "@ + count, end.drop_last());
        assert(lag_notice(n, format, now).drop_last() =~= "[korun: dropped "@ + count
            + end.drop_last());
    } else {
        let said = "dropped "@ + count + " lines"@;
        let time = crate::clock::rfc3339_text(now.spec_secs(), now.spec_nanos());
        text::law_json_string_is_one_line(said);
        text::law_json_string_is_one_line(time);
        reveal_strlit("{\"line\":");
        reveal_strlit(",\"seq\":0,\"stream\":\"system\",\"ts\":");
        reveal_strlit("}");
        reveal_strlit("\n");
        let a = "{\"line\":"@ + text::json_quoted(said);
        let b = a + ",\"seq\":0,\"stream\":\"system\",\"ts\":"@;
        lemma_no_break_in_sum("{\"line\":"@, text::json_quoted(said));
        lemma_no_break_in_sum(a, ",\"seq\":0,\"stream\":\"system\",\"ts\":"@);
        lemma_no_break_in_sum(b, text::json_quoted(time));
        lemma_no_break_in_sum(b + text::json_quoted(time), "}"@);
        assert(lag_notice(n, format, now).drop_last() =~= b + text::json_quoted(time) + "}"@);
    }
}

proof fn lemma_no_break_in_sum(a: Seq<char>, b: Seq<char>)
    requires
        !a.contains('\n'),
        !b.contains('\n'),
    ensures
        !(a + b).contains('\n'),
{
    let sum = a + b;
    assert forall|i: int| 0 <= i < sum.len() implies sum[i] != '\n' by {
        if i < a.len() {
            assert(sum[i] == a[i]);
        } else {
            assert(sum[i] == b[i - a.len()]);
        }
    }
}

proof fn lemma_label_has_no_break(s: Stream)
    ensures
        !label(s).contains('\n'),
{
    reveal_strlit("stdout");
    reveal_strlit("stderr");
    reveal_strlit("system");
}

/// The texts of a list, one after the other.
pub open spec fn joined(parts: Seq<Seq<char>>) -> Seq<char>
    decreases parts.len(),
{
    if parts.len() == 0 {
        Seq::empty()
    } else {
        joined(parts.drop_last()) + parts.last()
    }
}

/// Whether a name is that of one of the streams that can be asked for.
pub open spec fn is_stream_name(stream: Seq<char>) -> bool {
    stream == "blended"@ || is_single(stream)
}

/// A snapshot as text is what a reader that follows the same stream as text is
/// sent for the same entries.
pub proof fn law_snapshot_reads_like_following(stream: Seq<char>, entries: Seq<LogEntry>)
    requires
        is_stream_name(stream),
    ensures
        snapshot_text(stream, entries) == joined(
            entries.map_values(|e: LogEntry| sent_chunk(stream, e, "text"@)),
        ),
    decreases entries.len(),
{
    let chunks = entries.map_values(|e: LogEntry| sent_chunk(stream, e, "text"@));
    lemma_stream_names_differ();
    if entries.len() > 0 {
        law_snapshot_reads_like_following(stream, entries.drop_last());
        assert(chunks.drop_last() =~= entries.drop_last().map_values(
            |e: LogEntry| sent_chunk(stream, e, "text"@),
        ));
    }
}

proof fn lemma_stream_names_differ()
    ensures
        "blended"@ != "stdout"@,
        "blended"@ != "stderr"@,
        "stdout"@ != "stderr"@,
{
    reveal_strlit("blended");
    reveal_strlit("stdout");
    reveal_strlit("stderr");
    assert("blended"@.len() != "stdout"@.len());
    assert("blended"@.len() != "stderr"@.len());
    assert("stdout"@[3] != "stderr"@[3]);
}

/// A reader of both streams is sent every line, and a line of the command goes
/// to the readers of one of the two streams and not to those of the other.
pub proof fn law_every_line_has_its_readers(e: LogEntry)
    ensures
        wants("blended"@, e),
        e.stream != Stream::System ==> wants("stdout"@, e) != wants("stderr"@, e),
        wants("stdout"@, e) ==> e.stream == Stream::Stdout,
        wants("stderr"@, e) ==> e.stream == Stream::Stderr,
{
    lemma_stream_names_differ();
}

/// The lines of a run that the buffer read for a stream name takes in.
pub open spec fn lines_for(stream_name: Seq<char>, run: Seq<LogEntry>) -> Seq<LogEntry> {
    if stream_name == "stdout"@ {
        history::of_stream(run, Stream::Stdout)
    } else if stream_name == "stderr"@ {
        history::of_stream(run, Stream::Stderr)
    } else {
        run
    }
}

/// What is sent for a run of lines to a reader that follows a stream: for each
/// line that the reader is to get, in the order in which they come, its chunk.
pub open spec fn live_chunks(
    stream_name: Seq<char>,
    format: Seq<char>,
    run: Seq<LogEntry>,
) -> Seq<Seq<char>>
    decreases run.len(),
{
    if run.len() == 0 {
        Seq::empty()
    } else {
        let before = live_chunks(stream_name, format, run.drop_last());
        if wants(stream_name, run.last()) {
            before.push(sent_chunk(stream_name, run.last(), format))
        } else {
            before
        }
    }
}

/// What a follower is sent for the lines that come is what its buffer takes in:
/// the lines wanted are those of its stream, each becomes one chunk, and the
/// chunks that it is sent first and those that it is sent then are together the
/// chunks of the lines asked for and of the lines that came. `s` is the session
/// when following began, and `t` the session after the lines of `run` came.
pub proof fn law_following_goes_on_from_the_buffer(
    s: Session,
    run: Seq<LogEntry>,
    t: Session,
    q: LogsQuery,
)
    requires
        is_stream_name(q.stream_name()),
        process::output_of(t) == history::recorded_all(process::output_of(s), run),
    ensures
        ({
            let name = q.stream_name();
            let chunk = |e: LogEntry| sent_chunk(name, e, q.format_name());
            let first = queried(buffer_for(s, name), q);
            let came = lines_for(name, run);
            &&& run.filter(|e: LogEntry| wants(name, e)) == came
            &&& buffer_for(t, name) == buffer::replay(buffer_for(s, name), came, is_single(name))
            &&& live_chunks(name, q.format_name(), run) == came.map_values(chunk)
            &&& first.map_values(chunk) + live_chunks(name, q.format_name(), run) == (first
                + came).map_values(chunk)
        }),
{
    let name = q.stream_name();
    let chunk = |e: LogEntry| sent_chunk(name, e, q.format_name());
    let first = queried(buffer_for(s, name), q);
    let came = lines_for(name, run);
    lemma_wanted_lines(name, q.format_name(), run);
    lemma_stream_names_differ();
    history::law_buffers_follow_the_streams(process::output_of(s), run);
    assert(buffer_for(t, name) == buffer::replay(buffer_for(s, name), came, is_single(name)));
    assert(first.map_values(chunk) + came.map_values(chunk) =~= (first + came).map_values(chunk));
}

proof fn lemma_wanted_lines(name: Seq<char>, format: Seq<char>, run: Seq<LogEntry>)
    requires
        is_stream_name(name),
    ensures
        run.filter(|e: LogEntry| wants(name, e)) == lines_for(name, run),
        live_chunks(name, format, run) == lines_for(name, run).map_values(
            |e: LogEntry| sent_chunk(name, e, format),
        ),
    decreases run.len(),
{
    let wanted = |e: LogEntry| wants(name, e);
    let chunk = |e: LogEntry| sent_chunk(name, e, format);
    lemma_stream_names_differ();
    reveal(Seq::filter);
    if run.len() == 0 {
        assert(run.filter(wanted) =~= lines_for(name, run));
        assert(live_chunks(name, format, run) =~= lines_for(name, run).map_values(chunk));
    } else {
        let last = run.last();
        let before = lines_for(name, run.drop_last());
        lemma_wanted_lines(name, format, run.drop_last());
        assert(lines_for(name, run) =~= if wants(name, last) {
            before.push(last)
        } else {
            before
        });
        assert(before.push(last).map_values(chunk) =~= before.map_values(chunk).push(chunk(last)));
    }
}

/// A reader that asks again, from the number that it was told to ask from next,
/// is shown the lines that came in between, from the oldest on, and none that
/// was there before. `s` is the session when it was first asked, and `t` the
/// session after the lines of `run` came; only lines that the buffer could not
/// hold are missing.
pub proof fn law_asking_again_resumes(s: Session, run: Seq<LogEntry>, t: Session, q: LogsQuery)
    requires
        s.wf(),
        history::numbered_in_turn(process::output_of(s), run),
        process::output_of(t) == history::recorded_all(process::output_of(s), run),
        q.since_seq is Some,
        q.since_seq->0 == buffer_for(s, q.stream_name()).next_seq,
    ensures
        ({
            let before = buffer_for(s, q.stream_name());
            let answer = queried(buffer_for(t, q.stream_name()), q);
            let came = lines_for(q.stream_name(), run);
            &&& answer == buffer::first(buffer::newest(came, before.capacity), q.line_limit())
            &&& forall|i: int, j: int|
                0 <= i < answer.len() && 0 <= j < before.entries.len() ==> (
                #[trigger] answer[i]).seq > (#[trigger] before.entries[j]).seq
        }),
{
    let name = q.stream_name();
    let o = process::output_of(s);
    let b = buffer_for(s, name);
    let n = q.since_seq->0;
    let came = lines_for(name, run);
    history::law_buffers_follow_the_streams(o, run);
    history::law_lines_are_numbered_one_by_one(o, run);
    history::law_stream_lines_rise(o.next_seq, run, Stream::Stdout);
    history::law_stream_lines_rise(o.next_seq, run, Stream::Stderr);
    let counted = name == "stdout"@ || name == "stderr"@;
    assert(buffer_for(t, name) == buffer::replay(b, came, counted));
    assert(buffer::rising(n as nat, came));
    buffer::law_reader_resumes_where_it_left(b, came, counted, n, q.line_limit());
}

} // verus!
