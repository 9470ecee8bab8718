//! The sessions of a daemon, by identifier.

use std::collections::HashMap;
use vstd::prelude::*;

use crate::daemon::session::Session;
use crate::ids::SessionId;

verus! {

broadcast use vstd::std_specs::hash::group_hash_axioms;

/// The sessions of a daemon. A session that was added stays.
pub struct SessionManager {
    sessions: HashMap<SessionId, Session>,
}

impl View for SessionManager {
    type V = Map<SessionId, Session>;

    closed spec fn view(&self) -> Map<SessionId, Session> {
        self.sessions@
    }
}

impl SessionManager {
    /// Every session stands under its own identifier and is in order.
    pub open spec fn wf(&self) -> bool {
        forall|id: SessionId| #[trigger]
            self@.contains_key(id) ==> self@[id].id == id && self@[id].wf()
    }

    /// No session.
    pub fn new() -> (r: Self)
        ensures
            r@ == Map::<SessionId, Session>::empty(),
            r.wf(),
    {
        SessionManager { sessions: HashMap::new() }
    }

    /// Adds a session under its identifier.
    pub fn insert(&mut self, session: Session)
        ensures
            final(self)@ == old(self)@.insert(session.id, session),
            old(self).wf() && session.wf() ==> final(self).wf(),
    {
        self.sessions.insert(session.id, session);
    }

    /// What `f` says of a session, if there is one.
    pub fn with<F: FnOnce(&Session) -> R, R>(&self, id: &SessionId, f: F) -> (r: Option<R>)
        requires
            self@.contains_key(*id) ==> call_requires(f, (&self@[*id],)),
        ensures
            match r {
                Some(v) => self@.contains_key(*id) && call_ensures(f, (&self@[*id],), v),
                None => !self@.contains_key(*id),
            },
    {
        match self.sessions.get(id) {
            Some(s) => Some(f(s)),
            None => None,
        }
    }

    /// The session, if there is one.
    pub fn get_ref(&self, id: &SessionId) -> (r: Option<&Session>)
        ensures
            r is Some <==> self@.contains_key(*id),
            r is Some ==> *(r->0) == self@[*id],
    {
        self.sessions.get(id)
    }

    /// The session, to be changed in place, if there is one.
    pub fn get_mut(&mut self, id: &SessionId) -> (r: Option<&mut Session>)
        ensures
            match r {
                Some(s) => {
                    &&& old(self)@.contains_key(*id)
                    &&& *s == old(self)@[*id]
                    &&& final(self)@ == old(self)@.insert(*id, *final(s))
                },
                None => !old(self)@.contains_key(*id) && final(self)@ == old(self)@,
            },
    {
        match self.sessions.entry(*id) {
            std::collections::hash_map::Entry::Occupied(e) => Some(e.into_mut()),
            std::collections::hash_map::Entry::Vacant(_) => None,
        }
    }

    /// What `f` says of a session while it changes it, if there is one. No
    /// other session changes.
    pub fn with_mut<F: FnOnce(&mut Session) -> R, R>(&mut self, id: &SessionId, f: F) -> (r:
        Option<R>)
        requires
            old(self)@.contains_key(*id) ==> forall|s: &mut Session|
                *s == old(self)@[*id] ==> #[trigger] call_requires(f, (s,)),
        ensures
            r is Some <==> old(self)@.contains_key(*id),
            r is Some ==> final(self)@ == old(self)@.insert(*id, final(self)@[*id]),
            r is Some ==> exists|s: &mut Session| #[trigger]
                call_ensures(f, (s,), r->0) && *s == old(self)@[*id] && *final(s)
                    == final(self)@[*id],
            r is None ==> final(self)@ == old(self)@,
    {
        match self.get_mut(id) {
            Some(s) => {
                let v = apply(s, f);
                let r = Some(v);
                proof {
                    let t = choose|t: &mut Session| #[trigger]
                        call_ensures(f, (t,), v) && *t == old(self)@[*id] && *final(t) == self@[*id];
                    assert(call_ensures(f, (t,), r->0));
                }
                r
            },
            None => None,
        }
    }

    /// The identifier, if there is a session with it.
    pub fn get(&self, id: &SessionId) -> (r: Option<SessionId>)
        ensures
            r is Some <==> self@.contains_key(*id),
            r is Some ==> r == Some(self@[*id].id),
    {
        match self.sessions.get(id) {
            Some(s) => Some(s.id),
            None => None,
        }
    }

    /// The identifiers of all sessions, each once, in no particular order.
    pub fn list(&self) -> (r: Vec<SessionId>)
        ensures
            r@.to_set() == self@.dom(),
            r@.no_duplicates(),
    {
        let mut out: Vec<SessionId> = Vec::new();
        for k in it: self.sessions.keys()
            invariant
                it.seq() == vstd::std_specs::iter::IteratorSpec::remaining(
                    &vstd::std_specs::hash::spec_keys_iter(&self.sessions),
                ),
                out@ == it.seq().take(it.index()).unref(),
        {
            out.push(*k);
        }
        proof {
            let keys = vstd::std_specs::iter::IteratorSpec::remaining(
                &vstd::std_specs::hash::spec_keys_iter(&self.sessions),
            );
            assert(keys.take(keys.len() as int) =~= keys);
            assert(out@ =~= keys.unref());
        }
        out
    }
}

impl Default for SessionManager {
    fn default() -> (r: Self)
        ensures
            r@ == Map::<SessionId, Session>::empty(),
    {
        Self::new()
    }
}

/// Applies `f` to a session.
fn apply<F: FnOnce(&mut Session) -> R, R>(s: &mut Session, f: F) -> (r: R)
    requires
        forall|t: &mut Session| *t == *old(s) ==> #[trigger] call_requires(f, (t,)),
    ensures
        exists|t: &mut Session| #[trigger]
            call_ensures(f, (t,), r) && *t == *old(s) && *final(t) == *final(s),
{
    f(s)
}

} // verus!
