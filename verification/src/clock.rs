//! What the process believes of its own clock, to be noted on every run it
//! creates.
use vstd::prelude::*;
use vstd::string::*;
use crate::rows::{opt, opt_int};

verus! {

/// How far the clock can be trusted.
#[derive(Debug, Clone, Copy, PartialEq, Eq, Structural)]
pub enum ClockConfidence {
    Synced,
    Drifted,
    Unknown,
}

impl ClockConfidence {
    pub open spec fn text(self) -> Seq<char> {
        match self {
            ClockConfidence::Synced => "synced"@,
            ClockConfidence::Drifted => "drifted"@,
            ClockConfidence::Unknown => "unknown"@,
        }
    }

    pub fn as_str(&self) -> (r: &'static str)
        ensures
            r@ == self.text(),
    {
        match self {
            ClockConfidence::Synced => "synced",
            ClockConfidence::Drifted => "drifted",
            ClockConfidence::Unknown => "unknown",
        }
    }
}

/// A verdict on the clock, the offset in milliseconds behind it, and the
/// evidence for it.
#[derive(Debug, Clone, PartialEq, Eq)]
pub struct ClockStatus {
    pub confidence: ClockConfidence,
    pub offset_ms: Option<i64>,
    pub source: Option<String>,
}

#[verifier::ext_equal]
pub struct ClockStatusView {
    pub confidence: ClockConfidence,
    pub offset_ms: Option<int>,
    pub source: Option<Seq<char>>,
}

impl View for ClockStatus {
    type V = ClockStatusView;

    open spec fn view(&self) -> ClockStatusView {
        ClockStatusView {
            confidence: self.confidence,
            offset_ms: opt_int(self.offset_ms),
            source: opt(self.source),
        }
    }
}

/// Nothing has looked at the clock.
pub open spec fn unassessed() -> ClockStatusView {
    ClockStatusView { confidence: ClockConfidence::Unknown, offset_ms: None, source: None }
}

impl ClockStatus {
    /// Nothing has looked at the clock.
    pub fn unknown() -> (s: ClockStatus)
        ensures
            s@ == unassessed(),
    {
        ClockStatus { confidence: ClockConfidence::Unknown, offset_ms: None, source: None }
    }

    /// `source` shows the clock to be right.
    pub fn synced(source: &str) -> (s: ClockStatus)
        ensures
            s@ == (ClockStatusView {
                confidence: ClockConfidence::Synced,
                offset_ms: None,
                source: Some(source@),
            }),
    {
        ClockStatus {
            confidence: ClockConfidence::Synced,
            offset_ms: None,
            source: Some(source.to_owned()),
        }
    }

    /// `source` shows the clock to be wrong by `offset_ms`.
    pub fn drifted(offset_ms: i64, source: &str) -> (s: ClockStatus)
        ensures
            s@ == (ClockStatusView {
                confidence: ClockConfidence::Drifted,
                offset_ms: Some(offset_ms as int),
                source: Some(source@),
            }),
    {
        ClockStatus {
            confidence: ClockConfidence::Drifted,
            offset_ms: Some(offset_ms),
            source: Some(source.to_owned()),
        }
    }

    /// The same verdict once more.
    pub fn duplicate(&self) -> (s: ClockStatus)
        ensures
            s@ == self@,
    {
        ClockStatus {
            confidence: self.confidence,
            offset_ms: self.offset_ms,
            source: self.source.clone(),
        }
    }
}

impl Default for ClockStatus {
    fn default() -> (s: ClockStatus)
        ensures
            s@ == unassessed(),
    {
        ClockStatus::unknown()
    }
}

/// Where the verdict is published.
#[derive(Debug, Clone)]
pub struct Clock {
    pub status: ClockStatus,
}

impl Clock {
    /// A clock that nothing has looked at.
    pub fn new() -> (c: Clock)
        ensures
            c.status@ == unassessed(),
    {
        Clock { status: ClockStatus::unknown() }
    }
}

/// Replaces the published verdict, all of it.
pub fn publish(clock: &mut Clock, status: ClockStatus)
    ensures
        final(clock).status@ == status@,
{
    clock.status = status;
}

/// The published verdict.
pub fn current(clock: &Clock) -> (s: ClockStatus)
    ensures
        s@ == clock.status@,
{
    clock.status.duplicate()
}

} // verus!
