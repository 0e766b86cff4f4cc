//! Instants and the local calendar date they fall on.

use vstd::prelude::*;

verus! {

/// Nanoseconds in one second.
pub const NANOS_PER_SECOND: u32 = 1_000_000_000;

/// An instant, counted from the Unix epoch: `secs` whole seconds (negative
/// before the epoch) and `nanos` nanoseconds after that second began.
#[derive(Clone, Copy, Debug, PartialEq, Eq, Structural)]
pub struct Timestamp {
    pub secs: i64,
    pub nanos: u32,
}

/// An instant together with the local offset from UTC, in seconds east,
/// that was in force at the place of observation.
#[derive(Clone, Copy, Debug, PartialEq, Eq, Structural)]
pub struct ZonedInstant {
    pub at: Timestamp,
    pub offset_secs: i32,
}

impl Timestamp {
    /// The instant as nanoseconds since the Unix epoch.
    pub open spec fn total_nanos(self) -> int {
        self.secs as int * (NANOS_PER_SECOND as int) + self.nanos as int
    }

    /// The instant as nanoseconds since the Unix epoch.
    pub fn nanos_since_epoch(&self) -> (total: i128)
        ensures
            total == self.total_nanos(),
    {
        (self.secs as i128) * 1_000_000_000 + (self.nanos as i128)
    }

    /// Whether this instant lies strictly before `other`.
    pub fn is_before(&self, other: &Timestamp) -> (before: bool)
        ensures
            before == (self.total_nanos() < other.total_nanos()),
    {
        self.nanos_since_epoch() < other.nanos_since_epoch()
    }
}

/// The local calendar date, written `YYYY-MM-DD`, of the instant `secs`
/// seconds after the Unix epoch at a place `offset_secs` seconds east of
/// UTC, as chrono computes and formats it; `None` where chrono cannot
/// represent the instant, the offset, or the local time.
pub uninterp spec fn local_date_text(secs: int, offset_secs: int) -> Option<Seq<char>>;

/// Calls chrono: `DateTime::from_timestamp` for the instant,
/// `FixedOffset::east_opt` for the offset, `NaiveDateTime::checked_add_offset`
/// for the local time, and `NaiveDate::format` with `%Y-%m-%d` for the
/// text. The contract names the result and claims only that it depends on
/// nothing but the two arguments.
#[verifier::external_body]
fn chrono_local_date(secs: i64, offset_secs: i32) -> (text: Option<String>)
    ensures
        match text {
            Some(t) => local_date_text(secs as int, offset_secs as int) == Some(t@),
            None => local_date_text(secs as int, offset_secs as int) is None,
        },
{
    let utc = chrono::DateTime::from_timestamp(secs, 0)?;
    let offset = chrono::FixedOffset::east_opt(offset_secs)?;
    let local = utc.naive_utc().checked_add_offset(offset)?;
    Some(local.date().format("%Y-%m-%d").to_string())
}

/// The date key of an instant: its local calendar date as text.
pub open spec fn date_key_of(t: ZonedInstant) -> Option<Seq<char>> {
    local_date_text(t.at.secs as int, t.offset_secs as int)
}

/// Computes the date key of `t`, the `YYYY-MM-DD` text of its local
/// calendar date; `None` where the date cannot be represented.
pub fn date_key(t: &ZonedInstant) -> (key: Option<String>)
    ensures
        match key {
            Some(k) => date_key_of(*t) == Some(k@),
            None => date_key_of(*t) is None,
        },
{
    chrono_local_date(t.at.secs, t.offset_secs)
}

} // verus!
