//! What happens to the sessions when the daemon shuts down.

use vstd::prelude::*;

use crate::daemon::session::SessionCommand;
use crate::daemon::session_mgr::SessionManager;
use crate::ids::SessionId;

verus! {

/// How long the daemon waits, in milliseconds, for its supervisors to end their
/// commands.
pub const SHUTDOWN_PAUSE_MS: u64 = 300;

/// The commands to send when the daemon shuts down: every session is told to
/// stop, once.
pub fn build_shutdown(mgr: &SessionManager) -> (r: Vec<(SessionId, SessionCommand)>)
    ensures
        forall|i: int| 0 <= i < r.len() ==> (#[trigger] r@[i]).1 == SessionCommand::Stop,
        r@.map_values(|p: (SessionId, SessionCommand)| p.0).to_set() == mgr@.dom(),
        r@.map_values(|p: (SessionId, SessionCommand)| p.0).no_duplicates(),
{
    let ids: Vec<SessionId> = mgr.list();
    let mut out: Vec<(SessionId, SessionCommand)> = Vec::new();
    let mut i: usize = 0;
    while i < ids.len()
        invariant
            i <= ids.len(),
            out.len() == i,
            forall|j: int| 0 <= j < i ==> #[trigger] out@[j] == (ids@[j], SessionCommand::Stop),
        decreases ids.len() - i,
    {
        out.push((ids[i], SessionCommand::Stop));
        i = i + 1;
    }
    assert(out@.map_values(|p: (SessionId, SessionCommand)| p.0) =~= ids@);
    out
}

} // verus!
