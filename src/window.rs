//! Time windows: resolving absolute or relative bounds against a clock
//! reading into the half-open interval `[from, to)` that a range scan uses.

use vstd::prelude::*;
use crate::model::Timestamp;

verus! {

/// One side of a window request.
#[derive(Debug, Clone, Copy, PartialEq, Eq, Structural)]
pub enum TimeSpec {
    /// An absolute timestamp, taken as it is.
    At(Timestamp),
    /// A duration in milliseconds before the clock reading.
    Ago(i64),
    /// No bound on this side.
    Unbounded,
}

/// A window request.
#[derive(Debug, Clone, Copy, PartialEq, Eq, Structural)]
pub enum WindowSpec {
    /// Both sides given.
    Between(TimeSpec, TimeSpec),
    /// From the given side up to the clock reading.
    Since(TimeSpec),
}

/// Why a window cannot be served.
#[derive(Debug, Clone, Copy, PartialEq, Eq, Structural)]
pub enum QueryError {
    /// The window starts after it ends.
    InvalidWindow,
    /// A relative bound falls outside the range of timestamps.
    OutOfRange,
}

/// A concrete window `[from, to)`; a missing side is unbounded.
#[derive(Debug, Clone, Copy, PartialEq, Eq, Structural)]
pub struct TimePeriod {
    pub from: Option<Timestamp>,
    pub to: Option<Timestamp>,
}

/// Whether `from` does not lie after `to`.
pub open spec fn ordered(from: Option<Timestamp>, to: Option<Timestamp>) -> bool {
    match (from, to) {
        (Some(f), Some(t)) => f <= t,
        _ => true,
    }
}

/// The bound that `s` names when the clock reads `now`.
pub open spec fn resolve_time_spec(s: TimeSpec, now: Timestamp) -> Result<Option<Timestamp>, QueryError> {
    match s {
        TimeSpec::At(t) => Ok(Some(t)),
        TimeSpec::Ago(d) => if i64::MIN <= now - d <= i64::MAX {
            Ok(Some((now - d) as Timestamp))
        } else {
            Err(QueryError::OutOfRange)
        },
        TimeSpec::Unbounded => Ok(None),
    }
}

/// The window that `spec` names when the clock reads `now`: each side
/// resolved on its own, `Since` ending at `now`, and a window that starts
/// after it ends refused.
pub open spec fn window_of(spec: WindowSpec, now: Timestamp) -> Result<TimePeriod, QueryError> {
    let (fs, ts) = match spec {
        WindowSpec::Between(f, t) => (f, t),
        WindowSpec::Since(f) => (f, TimeSpec::At(now)),
    };
    match (resolve_time_spec(fs, now), resolve_time_spec(ts, now)) {
        (Ok(from), Ok(to)) => if ordered(from, to) {
            Ok(TimePeriod { from, to })
        } else {
            Err(QueryError::InvalidWindow)
        },
        (Err(e), _) => Err(e),
        (_, Err(e)) => Err(e),
    }
}

/// Resolves one side of a window against the clock reading `now`.
pub fn resolve_time(s: TimeSpec, now: Timestamp) -> (r: Result<Option<Timestamp>, QueryError>)
    ensures
        r == resolve_time_spec(s, now),
{
    match s {
        TimeSpec::At(t) => Ok(Some(t)),
        TimeSpec::Ago(d) => match now.checked_sub(d) {
            Some(t) => Ok(Some(t)),
            None => Err(QueryError::OutOfRange),
        },
        TimeSpec::Unbounded => Ok(None),
    }
}

/// Builds the window that `spec` names when the clock reads `now`.
pub fn build_window(spec: WindowSpec, now: Timestamp) -> (r: Result<TimePeriod, QueryError>)
    ensures
        r == window_of(spec, now),
{
    let (fs, ts) = match spec {
        WindowSpec::Between(f, t) => (f, t),
        WindowSpec::Since(f) => (f, TimeSpec::At(now)),
    };
    let from = match resolve_time(fs, now) {
        Ok(b) => b,
        Err(e) => return Err(e),
    };
    let to = match resolve_time(ts, now) {
        Ok(b) => b,
        Err(e) => return Err(e),
    };
    let p = TimePeriod { from, to };
    if p.is_ordered() {
        Ok(p)
    } else {
        Err(QueryError::InvalidWindow)
    }
}

/// Relies on `chrono::Utc::now` and `DateTime::timestamp_millis`: the wall
/// clock in milliseconds since the Unix epoch. Nothing is promised of the value.
#[verifier::external_body]
pub(crate) fn now_millis() -> (r: Timestamp) {
    chrono::Utc::now().timestamp_millis()
}

impl TimePeriod {
    /// Whether the window does not start after it ends.
    pub fn is_ordered(&self) -> (r: bool)
        ensures
            r == ordered(self.from, self.to),
    {
        match (self.from, self.to) {
            (Some(f), Some(t)) => f <= t,
            _ => true,
        }
    }

    /// The window between `from` and `to`, each side resolved against the
    /// clock at the moment of the call.
    pub fn between(from: TimeSpec, to: TimeSpec) -> (r: Result<TimePeriod, QueryError>)
        ensures
            exists|now: Timestamp| r == window_of(WindowSpec::Between(from, to), now),
    {
        build_window(WindowSpec::Between(from, to), now_millis())
    }

    /// The window from `from` up to the clock reading at the moment of the call.
    pub fn from(from: TimeSpec) -> (r: Result<TimePeriod, QueryError>)
        ensures
            exists|now: Timestamp| r == window_of(WindowSpec::Since(from), now),
    {
        build_window(WindowSpec::Since(from), now_millis())
    }
}

} // verus!
