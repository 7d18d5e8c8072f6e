//! Instants: seconds and nanoseconds since the Unix epoch, with chrono for the
//! clock and for RFC 3339 text.
use vstd::prelude::*;

verus! {

/// The first second of chrono's calendar (January 1 of year -262143).
pub const FIRST_SECOND: i64 = -8334601228800;

/// The last second of chrono's calendar (December 31 of year 262142).
pub const LAST_SECOND: i64 = 8210266876799;

/// An instant in UTC. `nanos` reaches past one second within a leap second only.
#[derive(Debug, Clone, Copy, PartialEq, Eq)]
pub struct Timestamp {
    pub secs: i64,
    pub nanos: u32,
}

impl Timestamp {
    /// An instant that chrono's calendar holds.
    pub open spec fn valid(self) -> bool {
        &&& FIRST_SECOND <= self.secs <= LAST_SECOND
        &&& self.nanos < 1_000_000_000 || (self.nanos < 2_000_000_000 && self.secs % 60 == 59)
    }

    /// Strictly earlier.
    pub open spec fn precedes(self, other: Timestamp) -> bool {
        self.secs < other.secs || (self.secs == other.secs && self.nanos < other.nanos)
    }

    pub fn is_before(&self, other: &Timestamp) -> (r: bool)
        ensures
            r == self.precedes(*other),
    {
        self.secs < other.secs || (self.secs == other.secs && self.nanos < other.nanos)
    }
}

/// The RFC 3339 text that chrono writes for an instant.
pub uninterp spec fn rfc3339_text(secs: int, nanos: int) -> Seq<char>;

/// The instant that chrono reads from an RFC 3339 text, or the text of its complaint.
pub uninterp spec fn rfc3339_value(text: Seq<char>) -> Result<(int, int), Seq<char>>;

/// Where chrono's addition takes an instant that lies within a leap second.
pub uninterp spec fn leap_shifted(secs: int, nanos: int, delta: int) -> Option<(int, int)>;

/// An instant moved by whole seconds, where chrono's calendar still holds it.
pub open spec fn shifted(t: Timestamp, delta: int) -> Option<(int, int)> {
    if t.nanos >= 1_000_000_000 {
        leap_shifted(t.secs as int, t.nanos as int, delta)
    } else if FIRST_SECOND <= t.secs + delta <= LAST_SECOND {
        Some((t.secs + delta, t.nanos as int))
    } else {
        None
    }
}

/// The RFC 3339 text of an instant moved by whole seconds.
pub open spec fn shifted_text(t: Timestamp, delta: int) -> Option<Seq<char>> {
    match shifted(t, delta) {
        Some((secs, nanos)) => Some(rfc3339_text(secs, nanos)),
        None => None,
    }
}

/// What chrono counts between two instants where one lies within a leap second.
pub uninterp spec fn leap_elapsed(secs: int, nanos: int, since_secs: int, since_nanos: int) -> int;

/// The whole seconds from one instant to another; a part of a second is dropped.
pub open spec fn elapsed(t: Timestamp, since: Timestamp) -> int {
    if t.nanos >= 1_000_000_000 || since.nanos >= 1_000_000_000 {
        leap_elapsed(t.secs as int, t.nanos as int, since.secs as int, since.nanos as int)
    } else {
        let nanos = (t.secs - since.secs) * 1_000_000_000 + (t.nanos - since.nanos);
        if nanos >= 0 { nanos / 1_000_000_000 } else { -((-nanos) / 1_000_000_000) }
    }
}

/// `chrono::Utc::now`: the current instant. Nothing is claimed of which one it
/// is beyond chrono's calendar holding it, outside any leap second.
#[verifier::external_body]
pub(crate) fn utc_now() -> (t: Timestamp)
    ensures
        t.valid(),
        t.nanos < 1_000_000_000,
{
    let now = chrono::Utc::now();
    Timestamp { secs: now.timestamp(), nanos: now.timestamp_subsec_nanos() }
}

/// `chrono::DateTime::checked_add_signed` with a whole number of seconds: the
/// instant that many seconds on, and `None` where the calendar does not hold it.
#[verifier::external_body]
pub(crate) fn add_seconds(t: Timestamp, delta: i64) -> (r: Option<Timestamp>)
    requires
        t.valid(),
    ensures
        t.nanos < 1_000_000_000 ==> match r {
            Some(u) => u.secs == t.secs + delta && u.nanos == t.nanos && u.valid(),
            None => !(FIRST_SECOND <= t.secs + delta <= LAST_SECOND),
        },
        t.nanos >= 1_000_000_000 ==> match r {
            Some(u) => leap_shifted(t.secs as int, t.nanos as int, delta as int) == Some(
                (u.secs as int, u.nanos as int),
            ) && u.valid(),
            None => leap_shifted(t.secs as int, t.nanos as int, delta as int) is None,
        },
{
    let start = chrono::DateTime::from_timestamp(t.secs, t.nanos)?;
    let end = start.checked_add_signed(chrono::TimeDelta::try_seconds(delta)?)?;
    Some(Timestamp { secs: end.timestamp(), nanos: end.timestamp_subsec_nanos() })
}

/// `chrono::DateTime::signed_duration_since` and `chrono::TimeDelta::num_seconds`:
/// the whole seconds between two instants, rounded toward zero.
#[verifier::external_body]
pub(crate) fn elapsed_seconds(t: Timestamp, since: Timestamp) -> (n: i64)
    requires
        t.valid(),
        since.valid(),
    ensures
        t.nanos < 1_000_000_000 && since.nanos < 1_000_000_000 ==> n == elapsed(t, since),
        t.nanos >= 1_000_000_000 || since.nanos >= 1_000_000_000 ==> n == leap_elapsed(
            t.secs as int,
            t.nanos as int,
            since.secs as int,
            since.nanos as int,
        ),
{
    let end = chrono::DateTime::from_timestamp(t.secs, t.nanos).unwrap_or_default();
    let start = chrono::DateTime::from_timestamp(since.secs, since.nanos).unwrap_or_default();
    end.signed_duration_since(start).num_seconds()
}

/// `chrono::DateTime::to_rfc3339`: the instant's RFC 3339 text.
#[verifier::external_body]
pub(crate) fn to_rfc3339(t: Timestamp) -> (s: String)
    requires
        t.valid(),
    ensures
        s@ == rfc3339_text(t.secs as int, t.nanos as int),
{
    chrono::DateTime::from_timestamp(t.secs, t.nanos).unwrap_or_default().to_rfc3339()
}

/// `chrono::DateTime::parse_from_rfc3339`: the instant a text denotes, or the
/// text of chrono's parse error.
#[verifier::external_body]
pub(crate) fn parse_rfc3339(text: &str) -> (r: Result<Timestamp, String>)
    ensures
        match r {
            Ok(t) => rfc3339_value(text@) == Ok::<(int, int), Seq<char>>(
                (t.secs as int, t.nanos as int),
            ) && t.valid(),
            Err(e) => rfc3339_value(text@) == Err::<(int, int), Seq<char>>(e@),
        },
{
    match chrono::DateTime::parse_from_rfc3339(text) {
        Ok(d) => Ok(Timestamp { secs: d.timestamp(), nanos: d.timestamp_subsec_nanos() }),
        Err(e) => Err(e.to_string()),
    }
}

/// The current instant.
pub fn now() -> (t: Timestamp)
    ensures
        t.valid(),
        t.nanos < 1_000_000_000,
{
    utc_now()
}

/// The RFC 3339 text of an instant.
pub fn stamp(t: Timestamp) -> (s: String)
    requires
        t.valid(),
    ensures
        s@ == rfc3339_text(t.secs as int, t.nanos as int),
{
    to_rfc3339(t)
}

/// The RFC 3339 text of the instant `secs` after `t`, or before it where `secs`
/// is negative; `None` where the calendar does not hold it.
pub fn stamp_in(t: Timestamp, secs: i64) -> (r: Option<String>)
    requires
        t.valid(),
    ensures
        (match r {
            Some(s) => Some(s@),
            None => None,
        }) == shifted_text(t, secs as int),
{
    match add_seconds(t, secs) {
        Some(at) => Some(to_rfc3339(at)),
        None => None,
    }
}

} // verus!
