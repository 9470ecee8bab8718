//! Which sessions a command of the user is about.

use vstd::prelude::*;

use crate::text;

verus! {

/// The sessions of a listing, each with its identifier where it has one; or
/// nothing where the answer was no listing.
pub type Listing = Option<Vec<Option<String>>>;

/// Why no session can be told from the others.
#[derive(Debug, Clone, Copy, PartialEq, Eq, Structural)]
pub enum ResolveError {
    /// The daemon's answer was no listing.
    UnexpectedResponse,
    /// There is no session.
    NoSessions,
    /// The only session has no identifier.
    NoId,
    /// There are this many sessions.
    Ambiguous(usize),
}

impl ResolveError {
    /// What is said to the user.
    pub open spec fn text(self) -> Seq<char> {
        match self {
            ResolveError::UnexpectedResponse => "unexpected response from daemon"@,
            ResolveError::NoSessions => "no active sessions"@,
            ResolveError::NoId => "session has no id"@,
            ResolveError::Ambiguous(n) => text::decimal(n as nat)
                + " active sessions — specify a UUID"@,
        }
    }

    /// What is said to the user.
    pub fn message(&self) -> (r: String)
        ensures
            r@ == self.text(),
    {
        match self {
            ResolveError::UnexpectedResponse => "unexpected response from daemon".to_owned(),
            ResolveError::NoSessions => "no active sessions".to_owned(),
            ResolveError::NoId => "session has no id".to_owned(),
            ResolveError::Ambiguous(n) => text::decimal_text(*n as u64).concat(
                " active sessions — specify a UUID",
            ),
        }
    }
}

/// Whether `r` is the session that is meant: the one named, and otherwise the
/// only one that there is.
pub open spec fn resolves(
    id: Option<String>,
    listing: Listing,
    r: Result<String, ResolveError>,
) -> bool {
    match id {
        Some(id) => r == Ok::<String, ResolveError>(id),
        None => match listing {
            None => r == Err::<String, ResolveError>(ResolveError::UnexpectedResponse),
            Some(sessions) => if sessions@.len() == 0 {
                r == Err::<String, ResolveError>(ResolveError::NoSessions)
            } else if sessions@.len() == 1 {
                match sessions@[0] {
                    Some(only) => r == Ok::<String, ResolveError>(only),
                    None => r == Err::<String, ResolveError>(ResolveError::NoId),
                }
            } else {
                r == Err::<String, ResolveError>(
                    ResolveError::Ambiguous(sessions@.len() as usize),
                )
            },
        },
    }
}

/// The session that is meant: the one named, and otherwise the only one that
/// there is. The listing counts only where no session is named.
pub fn resolve_id(id: Option<String>, listing: &Listing) -> (r: Result<String, ResolveError>)
    ensures
        resolves(id, *listing, r),
{
    if let Some(id) = id {
        return Ok(id);
    }
    match listing {
        None => Err(ResolveError::UnexpectedResponse),
        Some(sessions) => {
            if sessions.len() == 0 {
                Err(ResolveError::NoSessions)
            } else if sessions.len() == 1 {
                match &sessions[0] {
                    Some(only) => Ok(only.clone()),
                    None => Err(ResolveError::NoId),
                }
            } else {
                Err(ResolveError::Ambiguous(sessions.len()))
            }
        },
    }
}

/// The identifiers in a list, in order.
pub open spec fn known_ids(sessions: Seq<Option<String>>) -> Seq<String>
    decreases sessions.len(),
{
    if sessions.len() == 0 {
        Seq::empty()
    } else {
        match sessions.last() {
            Some(id) => known_ids(sessions.drop_last()).push(id),
            None => known_ids(sessions.drop_last()),
        }
    }
}

/// The sessions to stop when all are to be stopped: every one of the listing
/// that has an identifier, and none where there is no listing.
pub fn stop_all_ids(listing: &Listing) -> (r: Vec<String>)
    ensures
        r@ == match *listing {
            Some(sessions) => known_ids(sessions@),
            None => Seq::empty(),
        },
{
    let mut out: Vec<String> = Vec::new();
    if let Some(sessions) = listing {
        let mut i: usize = 0;
        while i < sessions.len()
            invariant
                i <= sessions.len(),
                out@ == known_ids(sessions@.take(i as int)),
            decreases sessions.len() - i,
        {
            assert(sessions@.take(i + 1).drop_last() =~= sessions@.take(i as int));
            if let Some(id) = &sessions[i] {
                out.push(id.clone());
            }
            i = i + 1;
        }
        assert(sessions@.take(i as int) =~= sessions@);
    }
    out
}

/// What is printed for a session that was told to stop: the state that the
/// daemon named, or a question mark where it named none.
pub fn stop_report(id: &str, state: &Option<String>) -> (r: String)
    ensures
        r@ == id@ + ": "@ + match *state {
            Some(state) => state@,
            None => "?"@,
        },
{
    let line: String = id.to_owned().concat(": ");
    match state {
        Some(state) => line.concat(state.as_str()),
        None => line.concat("?"),
    }
}

/// Whether the program was started to be the daemon itself.
pub fn is_daemon_process(args: &Vec<String>) -> (r: bool)
    ensures
        r == exists|i: int| 0 <= i < args.len() && (#[trigger] args@[i])@ == "--daemon-internal"@,
{
    let mut i: usize = 0;
    while i < args.len()
        invariant
            i <= args.len(),
            forall|j: int| 0 <= j < i ==> (#[trigger] args@[j])@ != "--daemon-internal"@,
        decreases args.len() - i,
    {
        if text::same_text(args[i].as_str(), "--daemon-internal") {
            return true;
        }
        i = i + 1;
    }
    false
}

/// A session that is named is the one meant, whatever the listing says; and
/// without a name the only one is, by its identifier in full. Without a name
/// nothing is meant where there is no listing, no session, one without an
/// identifier, or more than one.
pub proof fn law_one_session_is_meant(
    id: Option<String>,
    listing: Listing,
    r: Result<String, ResolveError>,
)
    requires
        resolves(id, listing, r),
    ensures
        id is Some ==> r is Ok && r->Ok_0 == id->0,
        id is None && r is Ok ==> listing is Some && listing->0@.len() == 1 && listing->0@[0]
            == Some(r->Ok_0),
        id is None && listing is Some && listing->0@.len() == 1 && listing->0@[0] is Some ==> r is Ok,
        id is None && listing is None ==> r is Err && r->Err_0 == ResolveError::UnexpectedResponse,
        id is None && listing is Some && listing->0@.len() == 0 ==> r is Err && r->Err_0
            == ResolveError::NoSessions,
        id is None && listing is Some && listing->0@.len() == 1 && listing->0@[0] is None
            ==> r is Err && r->Err_0 == ResolveError::NoId,
        id is None && listing is Some && listing->0@.len() > 1 ==> r is Err && r->Err_0 is Ambiguous
            && r->Err_0->Ambiguous_0 == listing->0@.len(),
{
    if let Some(sessions) = listing {
        lemma_len_fits(sessions);
    }
}

proof fn lemma_len_fits(v: Vec<Option<String>>)
    ensures
        v@.len() as usize as nat == v@.len(),
{
    assert(v.len() == v@.len());
}

/// To stop all sessions is to stop every one with an identifier, in order, and
/// no other: list after list, and one by one.
pub proof fn law_all_known_sessions_are_stopped(
    a: Seq<Option<String>>,
    b: Seq<Option<String>>,
    id: String,
)
    ensures
        known_ids(a + b) == known_ids(a) + known_ids(b),
        known_ids(seq![Some(id)]) == seq![id],
        known_ids(seq![None]) == Seq::<String>::empty(),
    decreases b.len(),
{
    reveal_with_fuel(known_ids, 2);
    assert(seq![Some(id)].drop_last() =~= Seq::<Option<String>>::empty());
    assert(seq![None::<String>].drop_last() =~= Seq::<Option<String>>::empty());
    assert(known_ids(seq![Some(id)]) =~= seq![id]);
    if b.len() == 0 {
        assert(a + b =~= a);
        assert(known_ids(a) + known_ids(b) =~= known_ids(a));
    } else {
        law_all_known_sessions_are_stopped(a, b.drop_last(), id);
        assert((a + b).drop_last() =~= a + b.drop_last());
        assert((a + b).last() == b.last());
        assert(known_ids(a + b) =~= known_ids(a) + known_ids(b));
    }
}

/// What is said where several sessions could be meant starts with how many.
pub proof fn law_the_number_of_sessions_is_told(n: usize)
    ensures
        ({
            let said = ResolveError::Ambiguous(n).text();
            let count = text::decimal(n as nat);
            said.len() > count.len() && said.take(count.len() as int) == count && said.skip(
                count.len() as int,
            ) == " active sessions — specify a UUID"@
        }),
{
    reveal_strlit(" active sessions — specify a UUID");
    let said = ResolveError::Ambiguous(n).text();
    let count = text::decimal(n as nat);
    assert(said.take(count.len() as int) =~= count);
    assert(said.skip(count.len() as int) =~= " active sessions — specify a UUID"@);
}

} // verus!
