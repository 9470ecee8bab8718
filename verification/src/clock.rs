//! Points in time, as the runner stores and shows them.

use vstd::prelude::*;

verus! {

/// The first second that a calendar date can be given for, counted from the
/// start of 1970 in UTC.
pub const MIN_SECS: i64 = -8_334_601_228_800;

/// The last second that a calendar date can be given for.
pub const MAX_SECS: i64 = 8_210_266_876_799;

/// Whether `secs` and `nanos` together name a point in time.
pub open spec fn is_timestamp(secs: int, nanos: int) -> bool {
    &&& MIN_SECS <= secs <= MAX_SECS
    &&& 0 <= nanos < 1_000_000_000
}

/// The text of a point in time as `DateTime::to_rfc3339` of chrono writes it
/// in UTC.
pub uninterp spec fn rfc3339_text(secs: i64, nanos: u32) -> Seq<char>;

/// The text of a point in time as `DateTime::to_rfc3339_opts` of chrono writes
/// it in UTC, with as many digits as the fraction needs and `Z` for the zone.
pub uninterp spec fn rfc3339_zulu_text(secs: i64, nanos: u32) -> Seq<char>;

/// Whether a text is that of one point in time only: no other one has it.
pub open spec fn tells_one_time(text: Seq<char>, secs: i64, nanos: u32) -> bool {
    forall|s: i64, n: u32|
        is_timestamp(s as int, n as int) && #[trigger] rfc3339_zulu_text(s, n) == text ==> s
            == secs && n == nanos
}

/// Reads the clock through `chrono::Utc::now`.
///
/// Claimed of every reading: it is not before the start of 1970, and it is a
/// point in time that a calendar date can be given for. Which reading comes
/// rests on the machine's clock and is left open.
#[verifier::external_body]
fn utc_now() -> (r: (i64, u32))
    ensures
        0 <= r.0,
        is_timestamp(r.0 as int, r.1 as int),
{
    let now = chrono::Utc::now();
    (now.timestamp(), now.timestamp_subsec_nanos())
}

/// Formats a point in time through `chrono::DateTime::to_rfc3339`.
///
/// Claimed: the text is a function of the point in time alone.
#[verifier::external_body]
fn rfc3339(secs: i64, nanos: u32) -> (r: String)
    requires
        is_timestamp(secs as int, nanos as int),
    ensures
        r@ == rfc3339_text(secs, nanos),
{
    chrono::DateTime::<chrono::Utc>::from_timestamp(secs, nanos).unwrap().to_rfc3339()
}

/// Formats a point in time through `chrono::DateTime::to_rfc3339_opts`, with
/// `SecondsFormat::AutoSi` and `Z` for UTC. Serializing a `DateTime` writes
/// the same text.
///
/// Claimed: the text is a function of the point in time alone, and no other
/// point in time has it. It names the year, with a sign and all its digits
/// outside the first ten thousand, then month, day, hour, minute and second in
/// two digits each, and the fraction in as many digits as tell it exactly.
#[verifier::external_body]
fn rfc3339_zulu(secs: i64, nanos: u32) -> (r: String)
    requires
        is_timestamp(secs as int, nanos as int),
    ensures
        r@ == rfc3339_zulu_text(secs, nanos),
        tells_one_time(r@, secs, nanos),
{
    chrono::DateTime::<chrono::Utc>::from_timestamp(secs, nanos).unwrap().to_rfc3339_opts(
        chrono::SecondsFormat::AutoSi,
        true,
    )
}

/// A point in time: whole seconds since the start of 1970 in UTC, and the
/// nanoseconds past them.
#[derive(Debug, Clone, Copy, PartialEq, Eq, Structural)]
pub struct Timestamp {
    secs: i64,
    nanos: u32,
}

impl Timestamp {
    /// The whole seconds.
    pub closed spec fn spec_secs(self) -> i64 {
        self.secs
    }

    /// The nanoseconds past the whole seconds.
    pub closed spec fn spec_nanos(self) -> u32 {
        self.nanos
    }

    #[verifier::type_invariant]
    spec fn in_calendar(self) -> bool {
        is_timestamp(self.secs as int, self.nanos as int)
    }

    /// Nanoseconds since the start of 1970.
    pub open spec fn as_nanos(self) -> int {
        self.spec_secs() * 1_000_000_000 + self.spec_nanos()
    }

    /// Whether the clock can show this: a point in time from the start of 1970
    /// on.
    pub open spec fn is_reading(self) -> bool {
        0 <= self.spec_secs() && is_timestamp(self.spec_secs() as int, self.spec_nanos() as int)
    }

    /// The point in time with these parts, if there is one.
    pub fn from_parts(secs: i64, nanos: u32) -> (r: Option<Timestamp>)
        ensures
            r is Some <==> is_timestamp(secs as int, nanos as int),
            r matches Some(t) ==> t.spec_secs() == secs && t.spec_nanos() == nanos,
    {
        if MIN_SECS <= secs && secs <= MAX_SECS && nanos < 1_000_000_000 {
            Some(Timestamp { secs, nanos })
        } else {
            None
        }
    }

    /// The current time. Every reading is at or after the start of 1970; which
    /// one comes rests on the machine's clock, and two calls may differ.
    pub fn now() -> (r: Timestamp)
        ensures
            r.is_reading(),
    {
        let (secs, nanos): (i64, u32) = utc_now();
        Timestamp { secs, nanos }
    }

    /// The whole seconds since the start of 1970.
    pub fn secs(&self) -> (r: i64)
        ensures
            r == self.spec_secs(),
    {
        self.secs
    }

    /// The nanoseconds past the whole seconds.
    pub fn nanos(&self) -> (r: u32)
        ensures
            r == self.spec_nanos(),
    {
        self.nanos
    }

    /// The RFC 3339 text, with the zone written as an offset.
    pub fn to_rfc3339(&self) -> (r: String)
        ensures
            r@ == rfc3339_text(self.spec_secs(), self.spec_nanos()),
    {
        proof {
            use_type_invariant(self);
        }
        rfc3339(self.secs, self.nanos)
    }

    /// The RFC 3339 text, with the zone written as `Z`. It tells this point in
    /// time from every other.
    pub fn to_rfc3339_zulu(&self) -> (r: String)
        ensures
            r@ == rfc3339_zulu_text(self.spec_secs(), self.spec_nanos()),
            tells_one_time(r@, self.spec_secs(), self.spec_nanos()),
    {
        proof {
            use_type_invariant(self);
        }
        rfc3339_zulu(self.secs, self.nanos)
    }

    /// Whole milliseconds from `earlier` to this point in time, and 0 where
    /// `earlier` is the later of the two.
    pub fn millis_since(&self, earlier: &Timestamp) -> (r: u64)
        ensures
            r == elapsed_millis(self.as_nanos(), earlier.as_nanos()),
    {
        proof {
            use_type_invariant(self);
            use_type_invariant(earlier);
        }
        let nanos: i128 = (self.secs as i128 - earlier.secs as i128) * 1_000_000_000
            + (self.nanos as i128 - earlier.nanos as i128);
        if nanos < 0 {
            0
        } else {
            (nanos / 1_000_000) as u64
        }
    }
}

/// Two points in time with the same parts are the same.
pub proof fn law_parts_name_the_time(a: Timestamp, b: Timestamp)
    requires
        a.spec_secs() == b.spec_secs(),
        a.spec_nanos() == b.spec_nanos(),
    ensures
        a == b,
{
}

/// Whole milliseconds between two counts of nanoseconds, and 0 where the
/// second is the greater.
pub open spec fn elapsed_millis(later: int, earlier: int) -> int {
    if later < earlier {
        0
    } else {
        (later - earlier) / 1_000_000
    }
}

/// Milliseconds between two points in time are whole ones, rounded down, and
/// none where time went backwards.
pub proof fn law_milliseconds_are_whole(later: Timestamp, earlier: Timestamp)
    ensures
        ({
            let nanos = (later.spec_secs() - earlier.spec_secs()) * 1_000_000_000 + (
            later.spec_nanos() - earlier.spec_nanos());
            let millis = elapsed_millis(later.as_nanos(), earlier.as_nanos());
            &&& nanos >= 0 ==> 1_000_000 * millis <= nanos < 1_000_000 * (millis + 1)
            &&& nanos < 0 ==> millis == 0
        }),
{
}

} // verus!
