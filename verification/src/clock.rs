//! Instants, expiry windows and the wall clock.

use vstd::prelude::*;

verus! {

/// Nanoseconds in the absolute window of a token that is not yet bound to a
/// user: ten minutes, counted from its creation.
pub const PREAUTH_WINDOW_NANOS: i128 = 600_000_000_000;

/// Nanoseconds in the sliding window of a session: seven days, counted from
/// the last use.
pub const SESSION_WINDOW_NANOS: i128 = 604_800_000_000_000;

/// Nanoseconds for which an unused token row is kept before it may be
/// reclaimed: seven days, counted from the last use.
pub const RETENTION_NANOS: i128 = 604_800_000_000_000;

/// The nanosecond count that stands for "never".
pub const NEVER_NANOS: i128 = 170_141_183_460_469_231_731_687_303_715_884_105_727;

/// Bound on what the wall clock can report: 2^63 seconds, in nanoseconds.
pub const CLOCK_BOUND_NANOS: i128 = 9_223_372_036_854_775_808_000_000_000;

/// An instant on the UTC time line, in nanoseconds since the Unix epoch.
#[derive(Clone, Copy, Debug, PartialEq, Eq, PartialOrd, Ord, Hash, Structural)]
pub struct Timestamp {
    pub nanos: i128,
}

impl Timestamp {
    /// The reserved maximal instant, later than every reading of the clock.
    pub open spec fn never() -> Timestamp {
        Timestamp { nanos: NEVER_NANOS }
    }

    /// Whether this is an instant that the wall clock can report.
    pub open spec fn is_instant(self) -> bool {
        -CLOCK_BOUND_NANOS <= self.nanos < CLOCK_BOUND_NANOS
    }

    /// The instant `nanos` nanoseconds after the Unix epoch.
    pub fn from_unix_nanos(nanos: i128) -> (t: Timestamp)
        ensures
            t.nanos == nanos,
    {
        Timestamp { nanos }
    }

    /// The sentinel instant that no clock reading reaches.
    #[verifier::when_used_as_spec(never)]
    pub fn sentinel() -> (t: Timestamp)
        ensures
            t == Timestamp::never(),
    {
        Timestamp { nanos: NEVER_NANOS }
    }

    /// Whether this is the sentinel.
    pub fn is_never(self) -> (r: bool)
        ensures
            r == (self == Timestamp::never()),
    {
        self.nanos == NEVER_NANOS
    }
}

/// A window of `window` nanoseconds that opened at `since` has lapsed at
/// `now` when `since + window` lies strictly before `now`.
pub open spec fn lapsed(since: Timestamp, window: int, now: Timestamp) -> bool {
    since.nanos + window < now.nanos
}

/// Decides `lapsed` without overflow, whatever the three values are.
pub fn has_lapsed(since: Timestamp, window: i128, now: Timestamp) -> (r: bool)
    ensures
        r == lapsed(since, window as int, now),
{
    match since.nanos.checked_add(window) {
        Some(deadline) => deadline < now.nanos,
        None => window < 0,
    }
}

/// Reads the wall clock through `time::OffsetDateTime::now_utc` and
/// `OffsetDateTime::unix_timestamp_nanos`.
///
/// Nothing is claimed about which instant comes back, only that it is a whole
/// count of seconds that fits in 64 bits, plus less than a second of
/// nanoseconds. Two readings need not be ordered. The reading panics where
/// the system clock is set to a date that `OffsetDateTime` cannot hold.
#[verifier::external_body]
fn wall_clock() -> (now: Timestamp)
    ensures
        now.is_instant(),
{
    Timestamp { nanos: time::OffsetDateTime::now_utc().unix_timestamp_nanos() }
}

/// The instant that the wall clock shows.
pub fn now() -> (t: Timestamp)
    ensures
        t.is_instant(),
{
    wall_clock()
}

} // verus!
