//! What each answer says of a session, field by field, and line by line.

use vstd::prelude::*;

use crate::clock::Timestamp;
use crate::daemon::buffer;
use crate::daemon::buffer::{LogBufferView, LogEntry, Stream};
use crate::daemon::error::AppError;
use crate::daemon::handlers;
use crate::daemon::handlers::{
    ControlPlan, ControlReply, CreateSessionRequest, FollowEvent, Health, LogsQuery, LogsReply,
    SessionCreated, SessionDetail, SessionSummary, Snapshot,
};
use crate::daemon::process::{ExitStatus, RunningEvent};
use crate::daemon::session::{Session, SessionCommand, SessionState};
use crate::ids;
use crate::ids::SessionId;
use crate::text;

verus! {

// ---------------------------------------------------------------------------
// Sessions
// ---------------------------------------------------------------------------

/// A daemon that is alive says so, by its name and the time.
pub proof fn law_health_is_told(h: Health, now: Timestamp)
    requires
        h.is_at(now),
    ensures
        h.ok,
        h.service@ == "korun"@,
        h.time@ == crate::clock::rfc3339_text(now.spec_secs(), now.spec_nanos()),
{
}

/// A session in short has the session's own values.
pub proof fn law_a_summary_tells_of_its_session(d: SessionSummary, s: Session)
    requires
        d.describes(s),
    ensures
        d.id@ == ids::hyphenated(s.id),
        s.state == SessionState::Starting ==> d.state@ == "starting"@,
        s.state == SessionState::Running ==> d.state@ == "running"@,
        s.state == SessionState::Stopping ==> d.state@ == "stopping"@,
        s.state == SessionState::Exited ==> d.state@ == "exited"@,
        s.state == SessionState::Failed ==> d.state@ == "failed"@,
        d.command@ == s.command@,
        d.cwd == s.cwd,
        d.pid == s.pid,
        d.started_at@ == crate::clock::rfc3339_text(
            s.started_at.spec_secs(),
            s.started_at.spec_nanos(),
        ),
        d.restart_count == s.restart_count,
{
}

/// Whether a session in short is one of the sessions there are.
pub open spec fn tells_of_one(d: SessionSummary, sessions: Map<SessionId, Session>) -> bool {
    exists|id: SessionId| sessions.contains_key(id) && d.describes(#[trigger] sessions[id])
}

/// A list of the sessions has one entry for each session and no other entry.
pub proof fn law_every_session_is_listed_once(
    list: Seq<SessionSummary>,
    sessions: Map<SessionId, Session>,
)
    requires
        handlers::lists_all(list, sessions),
    ensures
        list.len() == sessions.dom().len(),
        forall|id: SessionId| #[trigger]
            sessions.contains_key(id) ==> exists|i: int|
                0 <= i < list.len() && (#[trigger] list[i]).describes(sessions[id]),
        forall|i: int| 0 <= i < list.len() ==> tells_of_one(#[trigger] list[i], sessions),
{
    let order = choose|order: Seq<SessionId>|
        {
            &&& #[trigger] order.to_set() == sessions.dom()
            &&& order.no_duplicates()
            &&& list.len() == order.len()
            &&& forall|i: int|
                0 <= i < list.len() ==> (#[trigger] list[i]).describes(sessions[order[i]])
        };
    order.unique_seq_to_set();
    assert forall|id: SessionId| #[trigger] sessions.contains_key(id) implies exists|i: int|
        0 <= i < list.len() && (#[trigger] list[i]).describes(sessions[id]) by {
        assert(order.to_set().contains(id));
        let i = choose|i: int| 0 <= i < order.len() && order[i] == id;
        assert(list[i].describes(sessions[id]));
    }
    assert forall|i: int| 0 <= i < list.len() implies tells_of_one(#[trigger] list[i], sessions) by {
        assert(order.to_set().contains(order[i]));
        assert(sessions.contains_key(order[i]));
        assert(list[i].describes(sessions[order[i]]));
    }
}

/// A session in full has the session's own values, and counts its own buffers.
pub proof fn law_a_detail_tells_of_its_session(d: SessionDetail, s: Session, now: Timestamp)
    requires
        d.describes(s, now),
    ensures
        d.id@ == ids::hyphenated(s.id),
        s.state == SessionState::Starting ==> d.state@ == "starting"@,
        s.state == SessionState::Running ==> d.state@ == "running"@,
        s.state == SessionState::Stopping ==> d.state@ == "stopping"@,
        s.state == SessionState::Exited ==> d.state@ == "exited"@,
        s.state == SessionState::Failed ==> d.state@ == "failed"@,
        d.command@ == s.command@ && d.cwd == s.cwd && d.watch@ == s.watch@,
        d.env_overrides@ == s.env_overrides@,
        d.pid == s.pid && d.exit_code == s.exit_code && d.term_signal == s.term_signal,
        d.restart_count == s.restart_count,
        d.manual_restart_count == s.manual_restart_count,
        d.watch_restart_count == s.watch_restart_count,
        d.file_change_count == s.file_change_count,
        d.last_change_path == s.last_change_path,
        d.uptime_ms == s.uptime(now),
        d.stdout_lines == s.stdout_buf@.entries.len(),
        d.stderr_lines == s.stderr_buf@.entries.len(),
        d.blended_lines == s.blended_buf@.entries.len(),
        d.stdout_dropped_lines == s.stdout_buf@.dropped,
        d.stderr_dropped_lines == s.stderr_buf@.dropped,
        d.blended_dropped_lines == s.blended_buf@.dropped,
        d.stdout_bytes == s.stdout_buf@.total_bytes,
        d.stderr_bytes == s.stderr_buf@.total_bytes,
        d.started_at@ == crate::clock::rfc3339_text(
            s.started_at.spec_secs(),
            s.started_at.spec_nanos(),
        ),
        d.last_started_at is Some <==> s.last_started_at is Some,
        d.last_stopped_at is Some <==> s.last_stopped_at is Some,
        d.last_change_at is Some <==> s.last_change_at is Some,
        d.last_started_at is Some ==> d.last_started_at->0@ == crate::clock::rfc3339_text(
            s.last_started_at->0.spec_secs(),
            s.last_started_at->0.spec_nanos(),
        ),
        d.last_stopped_at is Some ==> d.last_stopped_at->0@ == crate::clock::rfc3339_text(
            s.last_stopped_at->0.spec_secs(),
            s.last_stopped_at->0.spec_nanos(),
        ),
        d.last_change_at is Some ==> d.last_change_at->0@ == crate::clock::rfc3339_text(
            s.last_change_at->0.spec_secs(),
            s.last_change_at->0.spec_nanos(),
        ),
{
}

/// A session that is asked about is told of where it is, and of no other.
pub proof fn law_a_question_is_answered(
    sessions: Map<SessionId, Session>,
    id: SessionId,
    now: Timestamp,
    r: Result<SessionDetail, AppError>,
)
    requires
        handlers::details(sessions, id, now, r),
    ensures
        r is Ok <==> sessions.contains_key(id),
        r is Ok ==> r->Ok_0.describes(sessions[id], now),
        r is Err ==> r->Err_0 is NotFound && (r->Err_0->NotFound_0)@ == "session not found"@,
{
}

/// Whoever asks after a command has ended is shown the very code and signal it
/// ended with.
pub proof fn law_the_end_is_shown_as_it_was(
    s: Session,
    status: ExitStatus,
    end: Timestamp,
    now: Timestamp,
    alone: SessionDetail,
    stopped: SessionDetail,
)
    requires
        alone.describes(s.after_running(RunningEvent::Exited(status), end), now),
        stopped.describes(s.after_termination(status, false, end), now),
    ensures
        alone.exit_code == status.code && alone.term_signal == status.signal,
        stopped.exit_code == status.code && stopped.term_signal == status.signal,
        alone.state@ == "exited"@ && stopped.state@ == "exited"@,
        alone.pid is None && stopped.pid is None,
        alone.uptime_ms == 0 && stopped.uptime_ms == 0,
{
}

/// A request means the directory, the paths and the variables that it names, and
/// `/tmp`, none and none where it names none.
pub proof fn law_requests_mean_what_they_name(req: CreateSessionRequest)
    ensures
        req.cwd is Some ==> req.directory() == (req.cwd->0)@,
        req.cwd is None ==> req.directory() == "/tmp"@,
        req.watch is None ==> req.watched().len() == 0,
        req.watch is Some ==> req.watched().len() == (req.watch->0)@.len(),
        req.watch is Some ==> forall|i: int|
            0 <= i < (req.watch->0)@.len() ==> #[trigger] req.watched()[i] == (req.watch->0)@[i]@,
        req.env is Some ==> req.variables() == (req.env->0)@,
        req.env is None ==> req.variables() == Map::<Seq<char>, Seq<char>>::empty(),
{
}

/// A watch path that does not begin with `/`, whatever it begins with, is the
/// directory, a `/` and the path, and one that does is itself. So in an absolute
/// directory every watch path is absolute.
pub proof fn law_watch_paths_start_at_the_root(cwd: Seq<char>, path: Seq<char>)
    ensures
        path.len() == 0 || path[0] != '/' ==> handlers::resolved(cwd, path) == cwd + seq!['/']
            + path,
        path.len() > 0 && path[0] == '/' ==> handlers::resolved(cwd, path) == path,
        cwd.len() > 0 && cwd[0] == '/' ==> handlers::resolved(cwd, path).len() > 0
            && handlers::resolved(cwd, path)[0] == '/',
{
    reveal_strlit("/");
    assert("/"@ =~= seq!['/']);
}

/// A session is made where there is a command and a directory, and is refused
/// elsewhere, the command counting first. It has the command, the directory and
/// the variables asked for, `/tmp` where no directory is, and as many watch paths
/// as were asked for, each in its place: as it is where it begins with `/`, and
/// else below the directory.
pub proof fn law_a_session_is_made_as_asked_for(
    before: Map<SessionId, Session>,
    req: CreateSessionRequest,
    cwd_is_dir: bool,
    id: SessionId,
    now: Timestamp,
    after: Map<SessionId, Session>,
    r: Result<SessionCreated, AppError>,
)
    requires
        handlers::creates(before, req, cwd_is_dir, id, now, after, r),
    ensures
        r is Ok <==> req.command@.len() > 0 && cwd_is_dir,
        r is Err ==> after == before && r->Err_0 is BadRequest,
        req.command@.len() == 0 ==> (r->Err_0->BadRequest_0)@ == "command must not be empty"@,
        req.command@.len() > 0 && !cwd_is_dir ==> (r->Err_0->BadRequest_0)@
            == "cwd is not a directory"@,
        r is Ok ==> {
            let s = after[id];
            &&& after.contains_key(id)
            &&& r->Ok_0.id == id
            &&& r->Ok_0.reply.id@ == ids::hyphenated(id)
            &&& r->Ok_0.reply.state@ == "starting"@
            &&& r->Ok_0.watch@ == s.watch@
            &&& s.id == id && s.command == req.command && s.started_at == now
            &&& s.state == SessionState::Starting && s.pid is None && s.restart_count == 0
            &&& req.cwd is Some ==> s.cwd@ == (req.cwd->0)@
            &&& req.cwd is None ==> s.cwd@ == "/tmp"@
            &&& req.env is Some ==> s.env_overrides@ == (req.env->0)@
            &&& req.env is None ==> s.env_overrides@ == Map::<Seq<char>, Seq<char>>::empty()
            &&& req.watch is None ==> s.watch@.len() == 0
            &&& req.watch is Some ==> {
                let asked = (req.watch->0)@;
                &&& s.watch@.len() == asked.len()
                &&& forall|i: int|
                    0 <= i < asked.len() && asked[i]@.len() > 0 && asked[i]@[0] == '/' ==> (
                    #[trigger] s.watch@[i])@ == asked[i]@
                &&& forall|i: int|
                    0 <= i < asked.len() && (asked[i]@.len() == 0 || asked[i]@[0] != '/') ==> (
                    #[trigger] s.watch@[i])@ == s.cwd@ + seq!['/'] + asked[i]@
            }
        },
        r is Ok ==> after.dom() == before.dom().insert(id),
        forall|other: SessionId| #[trigger]
            before.contains_key(other) && other != id ==> after.contains_key(other) && after[other]
                == before[other],
{
    if r is Ok {
        let s = after[id];
        let want = req.watched().map_values(
            |p: Seq<char>| handlers::resolved(req.directory(), p),
        );
        assert(text::texts(s.watch@).len() == s.watch@.len());
        assert forall|i: int| 0 <= i < s.watch@.len() implies (#[trigger] s.watch@[i])@
            == handlers::resolved(s.cwd@, req.watched()[i]) by {
            assert(text::texts(s.watch@)[i] == want[i]);
        }
        if req.watch is Some {
            let asked = (req.watch->0)@;
            assert forall|i: int| 0 <= i < asked.len() implies req.watched()[i]
                == #[trigger] asked[i]@ by {}
            assert forall|i: int| 0 <= i < asked.len() implies (#[trigger] s.watch@[i])@
                == handlers::resolved(s.cwd@, asked[i]@) by {
                assert(req.watched()[i] == asked[i]@);
            }
            assert forall|i: int|
                0 <= i < asked.len() && (asked[i]@.len() == 0 || asked[i]@[0] != '/') implies (
            #[trigger] s.watch@[i])@ == s.cwd@ + seq!['/'] + asked[i]@ by {
                law_watch_paths_start_at_the_root(s.cwd@, asked[i]@);
            }
        }
        assert(after.dom() =~= before.dom().insert(id));
    }
}

/// With an absolute directory every watched path of a new session begins with
/// `/`.
pub proof fn law_new_sessions_watch_absolute_paths(
    before: Map<SessionId, Session>,
    req: CreateSessionRequest,
    id: SessionId,
    now: Timestamp,
    after: Map<SessionId, Session>,
    r: Result<SessionCreated, AppError>,
)
    requires
        handlers::creates(before, req, true, id, now, after, r),
        r is Ok,
        after[id].cwd@.len() > 0 && after[id].cwd@[0] == '/',
    ensures
        forall|i: int|
            0 <= i < after[id].watch@.len() ==> (#[trigger] after[id].watch@[i])@.len() > 0
                && after[id].watch@[i]@[0] == '/',
{
    let s = after[id];
    law_a_session_is_made_as_asked_for(before, req, true, id, now, after, r);
    assert forall|i: int| 0 <= i < s.watch@.len() implies (#[trigger] s.watch@[i])@.len() > 0
        && s.watch@[i]@[0] == '/' by {
        let asked = (req.watch->0)@;
        if asked[i]@.len() > 0 && asked[i]@[0] == '/' {
            assert(s.watch@[i]@ == asked[i]@);
        } else {
            assert(s.watch@[i]@ == s.cwd@ + seq!['/'] + asked[i]@);
        }
    }
}

/// A plan to tell a session something names the command to send, and answers
/// with the session's identifier and the state it goes to; an answer at once
/// names the state it is in; and a session that is not there is told of as such.
pub proof fn law_control_is_confirmed(
    r: Result<ControlPlan, AppError>,
    reply: ControlReply,
    id: SessionId,
    command: SessionCommand,
    state: SessionState,
)
    ensures
        handlers::sends(r, id, command, state) ==> {
            &&& r is Ok && r->Ok_0 is Send
            &&& r->Ok_0->command == command
            &&& r->Ok_0->reply.ok && r->Ok_0->reply.id@ == ids::hyphenated(id)
            &&& r->Ok_0->reply.state@ == state.name()
        },
        handlers::answers(r, id, state) ==> {
            &&& r is Ok && r->Ok_0 is Answer
            &&& r->Ok_0->Answer_0.ok && r->Ok_0->Answer_0.id@ == ids::hyphenated(id)
            &&& r->Ok_0->Answer_0.state@ == state.name()
        },
        handlers::is_not_found(r) ==> r is Err && r->Err_0 is NotFound && (r->Err_0->NotFound_0)@
            == "session not found"@,
{
}

// ---------------------------------------------------------------------------
// Logs
// ---------------------------------------------------------------------------

/// What a query leaves out is both streams, a hundred lines and JSON, without
/// following; what it names counts as it is, a limit of any size included.
pub proof fn law_queries_mean_what_they_name(q: LogsQuery)
    ensures
        q.stream is Some ==> q.stream_name() == (q.stream->0)@,
        q.stream is None ==> q.stream_name() == "blended"@,
        q.limit is Some ==> q.line_limit() == q.limit->0,
        q.limit is None ==> q.line_limit() == 100,
        q.format is Some ==> q.format_name() == (q.format->0)@,
        q.format is None ==> q.format_name() == "json"@,
        q.follows() <==> q.follow == Some(1u8),
{
}

/// Each of the two stream names reads its own buffer, and any other name the
/// blended one.
pub proof fn law_names_read_their_buffers(s: Session, name: Seq<char>)
    ensures
        handlers::buffer_for(s, "stdout"@) == s.stdout_buf@,
        handlers::buffer_for(s, "stderr"@) == s.stderr_buf@,
        name != "stdout"@ && name != "stderr"@ ==> handlers::buffer_for(s, name) == s.blended_buf@,
{
    reveal_strlit("stdout");
    reveal_strlit("stderr");
    assert("stdout"@[3] != "stderr"@[3]);
}

/// The name of a stream is its own.
pub proof fn law_streams_have_names()
    ensures
        handlers::label(Stream::Stdout) == "stdout"@,
        handlers::label(Stream::Stderr) == "stderr"@,
        handlers::label(Stream::System) == "system"@,
{
}

/// An entry as text, with its stream's name, is the name in brackets, a space,
/// the whole line, however long, and a line break; so is what is sent of it for
/// both streams, and so is its part of a snapshot of both.
pub proof fn law_text_holds_the_whole_line(e: LogEntry)
    ensures
        ({
            let c = handlers::labelled_line(e);
            let name = handlers::label(e.stream);
            let n = name.len() as int;
            &&& c.len() == n + 3 + e.line@.len() + 1
            &&& c[0] == '[' && c.subrange(1, n + 1) == name && c[n + 1] == ']' && c[n + 2] == ' '
            &&& c.subrange(n + 3, c.len() - 1) == e.line@
            &&& c[c.len() - 1] == '\n'
            &&& handlers::sent_chunk("blended"@, e, "text"@) == c
            &&& handlers::text_line("blended"@, e) == c
            &&& handlers::entry_chunk(e, "text"@) == c
        }),
{
    reveal_strlit("[");
    reveal_strlit("] ");
    reveal_strlit("\n");
    reveal_strlit("blended");
    reveal_strlit("stdout");
    reveal_strlit("stderr");
    assert("blended"@.len() != "stdout"@.len() && "blended"@.len() != "stderr"@.len());
    let c = handlers::labelled_line(e);
    let name = handlers::label(e.stream);
    let n = name.len() as int;
    assert(c.subrange(1, n + 1) =~= name);
    assert(c.subrange(n + 3, c.len() - 1) =~= e.line@);
}

/// An entry as text of one of the two streams is the whole line and a line
/// break, sent or in a snapshot; a name that is no stream's leaves the line alone
/// in a snapshot, and has the stream's name before it when it is sent.
pub proof fn law_one_stream_needs_no_name(e: LogEntry, other: Seq<char>)
    requires
        other != "stdout"@ && other != "stderr"@ && other != "blended"@,
    ensures
        handlers::sent_chunk("stdout"@, e, "text"@) == e.line@.push('\n'),
        handlers::sent_chunk("stderr"@, e, "text"@) == e.line@.push('\n'),
        handlers::text_line("stdout"@, e) == e.line@.push('\n'),
        handlers::text_line("stderr"@, e) == e.line@.push('\n'),
        handlers::text_line(other, e) == e.line@.push('\n'),
        handlers::sent_chunk(other, e, "text"@) == handlers::labelled_line(e),
{
    reveal_strlit("\n");
    reveal_strlit("blended");
    reveal_strlit("stdout");
    reveal_strlit("stderr");
    assert("blended"@.len() != "stdout"@.len() && "blended"@.len() != "stderr"@.len());
    assert(e.line@ + "\n"@ =~= e.line@.push('\n'));
}

/// In any format but text an entry is sent, for every stream name, as one JSON
/// object of its number, its time, its stream's name and its whole line, and a
/// line break.
pub proof fn law_json_holds_the_whole_entry(e: LogEntry, name: Seq<char>, format: Seq<char>)
    requires
        format != "text"@,
    ensures
        ({
            let head = "{\"seq\":"@ + text::decimal(e.seq as nat) + ",\"ts\":"@
                + text::json_quoted(
                crate::clock::rfc3339_zulu_text(e.ts.spec_secs(), e.ts.spec_nanos()),
            ) + ",\"stream\":"@ + text::json_quoted(handlers::label(e.stream)) + ",\"line\":"@;
            let line = text::json_quoted(e.line@);
            let c = handlers::sent_chunk(name, e, format);
            &&& c.len() == head.len() + line.len() + 2
            &&& c.take(head.len() as int) == head
            &&& c.subrange(head.len() as int, c.len() - 2) == line
            &&& c[c.len() - 2] == '}' && c[c.len() - 1] == '\n'
            &&& handlers::entry_chunk(e, format) == c
        }),
{
    reveal_strlit("}");
    reveal_strlit("\n");
    let head = "{\"seq\":"@ + text::decimal(e.seq as nat) + ",\"ts\":"@ + text::json_quoted(
        crate::clock::rfc3339_zulu_text(e.ts.spec_secs(), e.ts.spec_nanos()),
    ) + ",\"stream\":"@ + text::json_quoted(handlers::label(e.stream)) + ",\"line\":"@;
    let line = text::json_quoted(e.line@);
    let c = handlers::sent_chunk(name, e, format);
    assert(c == head + line + "}"@ + "\n"@);
    assert(c.take(head.len() as int) =~= head);
    assert(c.subrange(head.len() as int, c.len() - 2) =~= line);
}

/// A snapshot as text is what its lines are, one after the other: of two runs of
/// lines that of the first and then that of the second.
pub proof fn law_snapshots_are_line_after_line(
    stream: Seq<char>,
    a: Seq<LogEntry>,
    b: Seq<LogEntry>,
    e: LogEntry,
)
    ensures
        handlers::snapshot_text(stream, Seq::empty()) == Seq::<char>::empty(),
        handlers::snapshot_text(stream, seq![e]) == handlers::text_line(stream, e),
        handlers::snapshot_text(stream, a + b) == handlers::snapshot_text(stream, a)
            + handlers::snapshot_text(stream, b),
    decreases b.len(),
{
    reveal_with_fuel(handlers::snapshot_text, 2);
    assert(seq![e].drop_last() =~= Seq::<LogEntry>::empty());
    assert(Seq::<char>::empty() + handlers::text_line(stream, e) =~= handlers::text_line(stream, e));
    if b.len() == 0 {
        assert(a + b =~= a);
        assert(handlers::snapshot_text(stream, a) + handlers::snapshot_text(stream, b)
            =~= handlers::snapshot_text(stream, a));
    } else {
        law_snapshots_are_line_after_line(stream, a, b.drop_last(), e);
        assert((a + b).drop_last() =~= a + b.drop_last());
        assert((a + b).last() == b.last());
        assert(handlers::snapshot_text(stream, a + b) =~= handlers::snapshot_text(stream, a)
            + handlers::snapshot_text(stream, b));
    }
}

/// A snapshot shows its entries: as text those lines, and in any other format
/// each entry in its place with its own number, time, stream and line, and the
/// number to ask from next.
pub proof fn law_snapshots_show_their_entries(
    r: Snapshot,
    id: SessionId,
    stream: Seq<char>,
    entries: Seq<LogEntry>,
    next_seq: nat,
    format: Seq<char>,
)
    requires
        handlers::renders(r, id, stream, entries, next_seq, format),
    ensures
        format == "text"@ ==> r is Text && r->Text_0@ == handlers::snapshot_text(stream, entries),
        format != "text"@ ==> {
            &&& r is Json
            &&& r->Json_0.session_id@ == ids::hyphenated(id)
            &&& r->Json_0.stream@ == stream
            &&& r->Json_0.next_seq == next_seq
            &&& r->Json_0.entries@.len() == entries.len()
            &&& forall|i: int|
                0 <= i < entries.len() ==> (#[trigger] r->Json_0.entries@[i]).seq == entries[i].seq
            &&& forall|i: int|
                0 <= i < entries.len() ==> (#[trigger] r->Json_0.entries@[i]).line
                    == entries[i].line
            &&& forall|i: int|
                0 <= i < entries.len() ==> (#[trigger] r->Json_0.entries@[i]).stream@
                    == handlers::label(entries[i].stream)
            &&& forall|i: int|
                0 <= i < entries.len() ==> (#[trigger] r->Json_0.entries@[i]).ts@
                    == crate::clock::rfc3339_zulu_text(
                    entries[i].ts.spec_secs(),
                    entries[i].ts.spec_nanos(),
                )
        },
{
}

/// Where a query names a limit, as many lines are shown as that limit, or all
/// there are where they are fewer, for every limit; only a query without one
/// gets at most a hundred. They are the last lines of the buffer.
pub proof fn law_a_limit_is_kept_to(
    sessions: Map<SessionId, Session>,
    id: SessionId,
    q: LogsQuery,
    r: Result<LogsReply, AppError>,
    b: LogBufferView,
)
    requires
        handlers::answers_logs(sessions, id, q, r),
        sessions.contains_key(id),
        q.since_seq is None,
        q.stream is Some && (q.stream->0)@ == "stdout"@ ==> b == sessions[id].stdout_buf@,
        q.stream is Some && (q.stream->0)@ == "stderr"@ ==> b == sessions[id].stderr_buf@,
        q.stream is None || ((q.stream->0)@ != "stdout"@ && (q.stream->0)@ != "stderr"@) ==> b
            == sessions[id].blended_buf@,
    ensures
        ({
            let n = b.entries.len() as int;
            let limit = match q.limit {
                Some(limit) => limit as int,
                None => 100int,
            };
            let count = if limit < n {
                limit
            } else {
                n
            };
            shows_run(q, id, r, b, n - count, count)
        }),
{
    let n = b.entries.len() as int;
    let limit = q.line_limit();
    lemma_named_buffer(sessions[id], q, b);
    buffer::law_newest_lines_are_the_last(b, limit);
    let lines = b.tail(limit);
    assert(lines =~= b.entries.subrange(n - lines.len(), n));
    lemma_shows_run(sessions, id, q, r, b, n - lines.len(), lines);
}

/// Where a query names a number to read from, the lines numbered so or higher
/// are shown, from the first of them on, up to the limit. `k` is the place of
/// the first of them.
pub proof fn law_a_limit_is_kept_to_from_a_number(
    sessions: Map<SessionId, Session>,
    id: SessionId,
    q: LogsQuery,
    r: Result<LogsReply, AppError>,
    b: LogBufferView,
    k: int,
)
    requires
        handlers::answers_logs(sessions, id, q, r),
        sessions.contains_key(id),
        q.since_seq is Some,
        q.stream is Some && (q.stream->0)@ == "stdout"@ ==> b == sessions[id].stdout_buf@,
        q.stream is Some && (q.stream->0)@ == "stderr"@ ==> b == sessions[id].stderr_buf@,
        q.stream is None || ((q.stream->0)@ != "stdout"@ && (q.stream->0)@ != "stderr"@) ==> b
            == sessions[id].blended_buf@,
        0 <= k <= b.entries.len(),
        forall|i: int| 0 <= i < k ==> (#[trigger] b.entries[i]).seq < q.since_seq->0,
        forall|i: int|
            k <= i < b.entries.len() ==> (#[trigger] b.entries[i]).seq >= q.since_seq->0,
    ensures
        ({
            let n = b.entries.len() - k;
            let limit = match q.limit {
                Some(limit) => limit as int,
                None => 100int,
            };
            let count = if limit < n {
                limit
            } else {
                n
            };
            shows_run(q, id, r, b, k, count)
        }),
{
    let limit = q.line_limit();
    let lines = b.since_seq(q.since_seq->0, limit);
    lemma_named_buffer(sessions[id], q, b);
    buffer::law_lines_from_a_number(b, q.since_seq->0, limit, k);
    assert(lines =~= b.entries.subrange(k, k + lines.len()));
    lemma_shows_run(sessions, id, q, r, b, k, lines);
}

/// Whether an answer shows `count` lines of a buffer from place `start` on: as
/// text, as entries, or as the first chunks for a reader that follows.
pub open spec fn shows_run(
    q: LogsQuery,
    id: SessionId,
    r: Result<LogsReply, AppError>,
    b: LogBufferView,
    start: int,
    count: int,
) -> bool {
    let name = match q.stream {
        Some(name) => name@,
        None => "blended"@,
    };
    let format = match q.format {
        Some(format) => format@,
        None => "json"@,
    };
    &&& r is Ok
    &&& 0 <= start && 0 <= count && start + count <= b.entries.len()
    &&& q.follow == Some(1u8) ==> {
        &&& r->Ok_0 is Follow
        &&& r->Ok_0->Follow_0.stream@ == name
        &&& r->Ok_0->Follow_0.format@ == format
        &&& r->Ok_0->Follow_0.initial@.len() == count
        &&& forall|i: int|
            0 <= i < count ==> (#[trigger] r->Ok_0->Follow_0.initial@[i])@ == handlers::sent_chunk(
                name,
                b.entries[start + i],
                format,
            )
    }
    &&& q.follow != Some(1u8) && format == "text"@ ==> {
        &&& r->Ok_0 is Snapshot && r->Ok_0->Snapshot_0 is Text
        &&& r->Ok_0->Snapshot_0->Text_0@ == handlers::snapshot_text(
            name,
            b.entries.subrange(start, start + count),
        )
    }
    &&& q.follow != Some(1u8) && format != "text"@ ==> {
        let shown = r->Ok_0->Snapshot_0->Json_0;
        &&& r->Ok_0 is Snapshot && r->Ok_0->Snapshot_0 is Json
        &&& shown.session_id@ == ids::hyphenated(id)
        &&& shown.stream@ == name
        &&& shown.next_seq == b.next_seq
        &&& shown.entries@.len() == count
        &&& forall|i: int|
            0 <= i < count ==> (#[trigger] shown.entries@[i]).seq == b.entries[start + i].seq
        &&& forall|i: int|
            0 <= i < count ==> (#[trigger] shown.entries@[i]).line == b.entries[start + i].line
        &&& forall|i: int|
            0 <= i < count ==> (#[trigger] shown.entries@[i]).stream@ == handlers::label(
                b.entries[start + i].stream,
            )
        &&& forall|i: int|
            0 <= i < count ==> (#[trigger] shown.entries@[i]).ts@
                == crate::clock::rfc3339_zulu_text(
                b.entries[start + i].ts.spec_secs(),
                b.entries[start + i].ts.spec_nanos(),
            )
    }
}

proof fn lemma_named_buffer(s: Session, q: LogsQuery, b: LogBufferView)
    requires
        q.stream is Some && (q.stream->0)@ == "stdout"@ ==> b == s.stdout_buf@,
        q.stream is Some && (q.stream->0)@ == "stderr"@ ==> b == s.stderr_buf@,
        q.stream is None || ((q.stream->0)@ != "stdout"@ && (q.stream->0)@ != "stderr"@) ==> b
            == s.blended_buf@,
    ensures
        handlers::buffer_for(s, q.stream_name()) == b,
{
    reveal_strlit("blended");
    reveal_strlit("stdout");
    reveal_strlit("stderr");
    assert("blended"@.len() != "stdout"@.len() && "blended"@.len() != "stderr"@.len());
}

proof fn lemma_shows_run(
    sessions: Map<SessionId, Session>,
    id: SessionId,
    q: LogsQuery,
    r: Result<LogsReply, AppError>,
    b: LogBufferView,
    start: int,
    lines: Seq<LogEntry>,
)
    requires
        handlers::answers_logs(sessions, id, q, r),
        sessions.contains_key(id),
        handlers::buffer_for(sessions[id], q.stream_name()) == b,
        handlers::queried(b, q) == lines,
        0 <= start && start + lines.len() <= b.entries.len(),
        lines == b.entries.subrange(start, start + lines.len()),
    ensures
        shows_run(q, id, r, b, start, lines.len() as int),
{
    assert forall|i: int| 0 <= i < lines.len() implies lines[i] == #[trigger] b.entries[start
        + i] by {}
    if q.follows() {
        let initial = r->Ok_0->Follow_0.initial@;
        let chunk = |e: LogEntry| handlers::sent_chunk(q.stream_name(), e, q.format_name());
        assert(text::texts(initial).len() == initial.len());
        assert forall|i: int| 0 <= i < lines.len() implies (#[trigger] initial[i])@
            == handlers::sent_chunk(q.stream_name(), b.entries[start + i], q.format_name()) by {
            assert(text::texts(initial)[i] == lines.map_values(chunk)[i]);
        }
    } else if q.format_name() != "text"@ {
        let shown = r->Ok_0->Snapshot_0->Json_0;
        assert forall|i: int| 0 <= i < lines.len() implies (#[trigger] shown.entries@[i]).shows(
            b.entries[start + i],
        ) by {
            assert(shown.entries@[i].shows(lines[i]));
        }
    }
}

/// A session that is not there has no logs, and any other has.
pub proof fn law_logs_are_those_of_a_session(
    sessions: Map<SessionId, Session>,
    id: SessionId,
    q: LogsQuery,
    r: Result<LogsReply, AppError>,
)
    requires
        handlers::answers_logs(sessions, id, q, r),
    ensures
        r is Ok <==> sessions.contains_key(id),
        r is Err ==> r->Err_0 is NotFound && (r->Err_0->NotFound_0)@ == "session not found"@,
{
}

/// A reader of both streams is sent every entry, a reader of one stream the
/// entries of that stream, and a reader of any other name none; each is sent
/// what the entry looks like for that name and format. A reader that fell behind
/// is told how many lines went by, whatever it reads.
pub proof fn law_followers_are_sent_their_lines(
    name: Seq<char>,
    format: Seq<char>,
    e: LogEntry,
    n: u64,
    now: Timestamp,
    r: Option<String>,
)
    ensures
        handlers::forwards(name, format, FollowEvent::Entry(e), now, r) ==> {
            &&& name == "blended"@ ==> r is Some
            &&& name == "stdout"@ ==> (r is Some <==> e.stream == Stream::Stdout)
            &&& name == "stderr"@ ==> (r is Some <==> e.stream == Stream::Stderr)
            &&& name != "blended"@ && name != "stdout"@ && name != "stderr"@ ==> r is None
            &&& r is Some ==> r->0@ == handlers::sent_chunk(name, e, format)
        },
        handlers::forwards(name, format, FollowEvent::Lagged(n), now, r) ==> {
            &&& r is Some
            &&& format == "text"@ ==> r->0@ == "[korun: dropped "@ + text::decimal(n as nat)
                + " lines]\n"@
            &&& format != "text"@ ==> r->0@ == "{\"line\":"@ + text::json_quoted(
                "dropped "@ + text::decimal(n as nat) + " lines"@,
            ) + ",\"seq\":0,\"stream\":\"system\",\"ts\":"@ + text::json_quoted(
                crate::clock::rfc3339_text(now.spec_secs(), now.spec_nanos()),
            ) + "}"@ + "\n"@
        },
{
    reveal_strlit("blended");
    reveal_strlit("stdout");
    reveal_strlit("stderr");
    assert("blended"@.len() != "stdout"@.len() && "blended"@.len() != "stderr"@.len());
    assert("stdout"@[3] != "stderr"@[3]);
}

} // verus!
