//! Points in time.
//!
//! Timestamps are kept as text. Where their order matters they are read as RFC 3339 into
//! a `Moment`, the seconds and nanoseconds since the unix epoch.

use vstd::prelude::*;
use vstd::string::*;

use crate::atom::Timestamp;
use crate::lists::SortKey;
use crate::model::{DwbaseError, ErrorView, Result};
use crate::text;

verus! {

/// What reading a text as an RFC 3339 date and time gives: the whole seconds since the unix
/// epoch and the nanoseconds on top of them, or what is wrong with the text.
pub uninterp spec fn rfc3339(s: Seq<char>) -> std::result::Result<(i64, u32), Seq<char>>;

/// `time::OffsetDateTime::parse` with the well-known `Rfc3339` description is a function of
/// the text. Of a date and time, `unix_timestamp` gives the whole seconds since the unix
/// epoch, rounded down, and `nanosecond`, which is below a thousand million, the rest. Which
/// texts are accepted, and what is said of the others, is left open.
#[verifier::external_body]
fn parse_rfc3339(s: &str) -> (r: std::result::Result<(i64, u32), String>)
    ensures
        r is Ok <==> rfc3339(s@) is Ok,
        r matches Ok(t) ==> rfc3339(s@)->Ok_0 == t && t.1 < 1_000_000_000,
        r matches Err(e) ==> rfc3339(s@)->Err_0 == e@,
{
    match time::OffsetDateTime::parse(s, &time::format_description::well_known::Rfc3339) {
        Ok(t) => Ok((t.unix_timestamp(), t.nanosecond())),
        Err(e) => Err(e.to_string()),
    }
}

/// A point in time: seconds since the unix epoch, rounded down, and nanoseconds on top.
#[derive(Clone, Copy, Debug, PartialEq, Eq, Structural)]
pub struct Moment {
    pub secs: i64,
    pub nanos: u32,
}

/// Nanoseconds in a second.
pub const NANOS_PER_SECOND: i128 = 1_000_000_000;

/// Nanoseconds in a millisecond.
pub const NANOS_PER_MILLI: i128 = 1_000_000;

/// Nanoseconds in a day.
pub const NANOS_PER_DAY: i128 = 86_400_000_000_000;

impl Moment {
    /// Nanoseconds since the unix epoch.
    pub open spec fn total(self) -> int {
        self.secs * 1_000_000_000 + self.nanos
    }

    /// The unix epoch.
    pub open spec fn spec_epoch() -> Moment {
        Moment { secs: 0, nanos: 0 }
    }

    /// The unix epoch.
    pub fn epoch() -> (r: Self)
        ensures
            r == Moment::spec_epoch(),
    {
        Moment { secs: 0, nanos: 0 }
    }

    /// Nanoseconds since the unix epoch.
    pub fn nanos_since_epoch(self) -> (r: i128)
        ensures
            r == self.total(),
    {
        self.secs as i128 * NANOS_PER_SECOND + self.nanos as i128
    }

    /// Whole milliseconds since the unix epoch, rounded towards it.
    pub open spec fn spec_millis(self) -> i64 {
        quotient(self.total(), 1_000_000) as i64
    }

    /// Whole milliseconds since the unix epoch, rounded towards it.
    pub fn millis(self) -> (r: i64)
        ensures
            r == self.spec_millis(),
    {
        let total: i128 = self.nanos_since_epoch();
        if total >= 0 {
            (total / NANOS_PER_MILLI) as i64
        } else {
            (-((-total) / NANOS_PER_MILLI)) as i64
        }
    }

    /// Whole milliseconds by which this moment is later than another; none if it is not.
    pub open spec fn spec_millis_since(self, earlier: Moment) -> u64 {
        if self.total() > earlier.total() {
            ((self.total() - earlier.total()) / 1_000_000) as u64
        } else {
            0
        }
    }

    /// Whole milliseconds by which this moment is later than another; none if it is not.
    pub fn millis_since(self, earlier: Moment) -> (r: u64)
        ensures
            r == self.spec_millis_since(earlier),
    {
        let a: i128 = self.nanos_since_epoch();
        let b: i128 = earlier.nanos_since_epoch();
        if a > b {
            ((a - b) / NANOS_PER_MILLI) as u64
        } else {
            0
        }
    }
}

/// `a` divided by a positive `b`, rounded towards zero.
pub open spec fn quotient(a: int, b: int) -> int {
    if a >= 0 {
        a / b
    } else {
        -((-a) / b)
    }
}

impl SortKey for Moment {
    open spec fn precedes(&self, other: &Self) -> bool {
        self.total() < other.total()
    }

    proof fn precedes_irreflexive(a: &Self) {
    }

    proof fn precedes_transitive(a: &Self, b: &Self, c: &Self) {
    }

    proof fn apart_transitive(a: &Self, b: &Self, c: &Self) {
    }

    fn comes_before(&self, other: &Self) -> (r: bool) {
        self.nanos_since_epoch() < other.nanos_since_epoch()
    }
}

/// The moment that a timestamp names, if it is valid.
pub open spec fn moment_of(ts: Seq<char>) -> Option<Moment> {
    match rfc3339(ts) {
        Ok(t) => Some(Moment { secs: t.0, nanos: t.1 }),
        Err(_) => None,
    }
}

/// The moment that a timestamp names, or the unix epoch.
pub open spec fn moment_or_epoch(ts: Seq<char>) -> Moment {
    match moment_of(ts) {
        Some(m) => m,
        None => Moment::spec_epoch(),
    }
}

/// The error for a timestamp that is not valid.
pub open spec fn timestamp_error(ts: Seq<char>) -> ErrorView {
    ErrorView::InvalidInput("invalid timestamp "@ + ts + ": "@ + rfc3339(ts)->Err_0)
}

/// Reads a timestamp.
pub fn parse_ts(ts: &Timestamp) -> (r: Result<Moment>)
    ensures
        match moment_of(ts@) {
            Some(m) => r == Ok::<Moment, DwbaseError>(m),
            None => r matches Err(e) && e@ == timestamp_error(ts@),
        },
{
    match parse_rfc3339(ts.text()) {
        Ok(t) => Ok(Moment { secs: t.0, nanos: t.1 }),
        Err(e) => {
            let mut message = text::joined3("invalid timestamp ", ts.text(), ": ");
            message.append(e.as_str());
            Err(DwbaseError::InvalidInput(message))
        },
    }
}

/// Reads a timestamp; one that is not valid counts as the unix epoch.
pub fn parse_or_epoch(ts: &Timestamp) -> (r: Moment)
    ensures
        r == moment_or_epoch(ts@),
{
    match parse_ts(ts) {
        Ok(m) => m,
        Err(_) => Moment::epoch(),
    }
}

}
