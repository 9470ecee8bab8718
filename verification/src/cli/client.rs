//! How the command line reaches the daemon.

use vstd::prelude::*;


verus! {

/// Where the daemon listens.
pub const DEFAULT_ADDR: &'static str = "http://127.0.0.1:7777";

/// How many seconds a request may take.
pub const REQUEST_TIMEOUT_SECS: u64 = 10;

/// How often the daemon is asked at most whether it is up.
pub const MAX_PROBES: u32 = 50;

/// The pause, in milliseconds, after a probe that failed.
pub const PROBE_PAUSE_MS: u64 = 100;

/// What to do after asking the daemon whether it is up.
#[derive(Debug, Clone, Copy, PartialEq, Eq, Structural)]
pub enum WaitStep {
    /// It is up.
    Ready,
    /// Pause, then ask again.
    AskAgain { pause_ms: u64 },
    /// Pause, then give up.
    GiveUp { pause_ms: u64 },
}

/// What to do after a probe, where `failed_before` earlier ones failed.
pub open spec fn wait_step(failed_before: nat, healthy: bool) -> WaitStep {
    if healthy {
        WaitStep::Ready
    } else if failed_before + 1 < MAX_PROBES {
        WaitStep::AskAgain { pause_ms: PROBE_PAUSE_MS }
    } else {
        WaitStep::GiveUp { pause_ms: PROBE_PAUSE_MS }
    }
}

/// What to do after asking the daemon whether it is up, where `failed_before`
/// earlier probes failed.
pub fn wait_for_daemon(failed_before: u32, healthy: bool) -> (r: WaitStep)
    ensures
        r == wait_step(failed_before as nat, healthy),
{
    if healthy {
        WaitStep::Ready
    } else if failed_before < MAX_PROBES - 1 {
        WaitStep::AskAgain { pause_ms: PROBE_PAUSE_MS }
    } else {
        WaitStep::GiveUp { pause_ms: PROBE_PAUSE_MS }
    }
}

/// What is said when the daemon did not come up.
pub fn not_started_message() -> (r: &'static str)
    ensures
        r@ == "daemon did not start within 5 seconds"@,
{
    "daemon did not start within 5 seconds"
}

/// The milliseconds spent pausing over `n` probes that all fail.
pub open spec fn total_pause(n: nat) -> nat
    decreases n,
{
    if n == 0 {
        0
    } else {
        total_pause((n - 1) as nat) + match wait_step((n - 1) as nat, false) {
            WaitStep::Ready => 0,
            WaitStep::AskAgain { pause_ms } => pause_ms as nat,
            WaitStep::GiveUp { pause_ms } => pause_ms as nat,
        }
    }
}

/// A daemon that never comes up is given up after the last probe and not
/// before, when the pauses have taken five seconds.
pub proof fn law_patience_is_five_seconds()
    ensures
        forall|k: nat| k + 1 < MAX_PROBES ==> (#[trigger] wait_step(k, false)) is AskAgain,
        wait_step((MAX_PROBES - 1) as nat, false) is GiveUp,
        total_pause(MAX_PROBES as nat) == 5_000,
{
    lemma_total_pause(MAX_PROBES as nat);
}

proof fn lemma_total_pause(n: nat)
    ensures
        total_pause(n) == n * 100,
    decreases n,
{
    if n > 0 {
        lemma_total_pause((n - 1) as nat);
    }
}

// ---------------------------------------------------------------------------
// Addresses of requests
// ---------------------------------------------------------------------------

/// The address of a session, followed by `rest`.
pub open spec fn session_address(id: Seq<char>, rest: Seq<char>) -> Seq<char> {
    DEFAULT_ADDR@ + "/v1/sessions/"@ + id + rest
}

fn join_address(id: &str, rest: &str) -> (r: String)
    ensures
        r@ == session_address(id@, rest@),
{
    DEFAULT_ADDR.to_owned().concat("/v1/sessions/").concat(id).concat(rest)
}

/// Where the daemon says whether it is up.
pub fn health_url() -> (r: String)
    ensures
        r@ == DEFAULT_ADDR@ + "/healthz"@,
{
    DEFAULT_ADDR.to_owned().concat("/healthz")
}

/// Where sessions are listed and made.
pub fn sessions_url() -> (r: String)
    ensures
        r@ == DEFAULT_ADDR@ + "/v1/sessions"@,
{
    DEFAULT_ADDR.to_owned().concat("/v1/sessions")
}

/// Where a session is described.
pub fn session_url(id: &str) -> (r: String)
    ensures
        r@ == session_address(id@, ""@),
{
    join_address(id, "")
}

/// Where a session is restarted.
pub fn restart_url(id: &str) -> (r: String)
    ensures
        r@ == session_address(id@, "/restart"@),
{
    join_address(id, "/restart")
}

/// Where a session is stopped.
pub fn stop_url(id: &str) -> (r: String)
    ensures
        r@ == session_address(id@, "/stop"@),
{
    join_address(id, "/stop")
}

/// Where the newest lines of a session are, followed or not.
pub fn tail_url(id: &str, follow: bool) -> (r: String)
    ensures
        r@ == session_address(
            id@,
            if follow {
                "/tail?follow=1&format=text"@
            } else {
                "/tail?follow=0&format=text"@
            },
        ),
{
    if follow {
        join_address(id, "/tail?follow=1&format=text")
    } else {
        join_address(id, "/tail?follow=0&format=text")
    }
}

/// Where the oldest lines of a session are.
pub fn head_url(id: &str) -> (r: String)
    ensures
        r@ == session_address(id@, "/head?format=text"@),
{
    join_address(id, "/head?format=text")
}

/// Every address of a session is that of the daemon, the session's identifier
/// in full, and what is asked of it; a request may take ten seconds; and a daemon
/// that answers is ready, however often it did not before.
pub proof fn law_addresses_name_the_session(id: Seq<char>, rest: Seq<char>, failed_before: nat)
    ensures
        ({
            let start = "http://127.0.0.1:7777/v1/sessions/"@;
            let address = session_address(id, rest);
            &&& address.len() == start.len() + id.len() + rest.len()
            &&& address.take(start.len() as int) == start
            &&& address.subrange(start.len() as int, (start.len() + id.len()) as int) == id
            &&& address.skip((start.len() + id.len()) as int) == rest
        }),
        wait_step(failed_before, true) == WaitStep::Ready,
        REQUEST_TIMEOUT_SECS == 10,
{
    reveal_strlit("http://127.0.0.1:7777/v1/sessions/");
    reveal_strlit("http://127.0.0.1:7777");
    reveal_strlit("/v1/sessions/");
    let start = "http://127.0.0.1:7777/v1/sessions/"@;
    let address = session_address(id, rest);
    assert(DEFAULT_ADDR@ + "/v1/sessions/"@ =~= start);
    assert(address =~= start + id + rest);
    assert(address.take(start.len() as int) =~= start);
    assert(address.subrange(start.len() as int, (start.len() + id.len()) as int) =~= id);
    assert(address.skip((start.len() + id.len()) as int) =~= rest);
}

} // verus!
