//! Points in time, as they are written into the database.

use vstd::prelude::*;

verus! {

/// A point in time: seconds since the start of 1970 in UTC, and nanoseconds since the last whole
/// second.
#[derive(Debug, Clone, Copy, PartialEq, Eq, Structural)]
pub struct Moment {
    pub secs: i64,
    pub nanos: u32,
}

impl Moment {
    /// The nanoseconds are less than a second.
    pub open spec fn wf(self) -> bool {
        self.nanos < 1_000_000_000
    }

    /// Nanoseconds since the start of 1970.
    pub open spec fn total_nanos(self) -> int {
        self.secs * 1_000_000_000 + self.nanos
    }
}

/// The text of a point in time, as RFC 3339 writes it; nothing where chrono cannot represent the
/// time.
pub uninterp spec fn rfc3339_text(secs: i64, nanos: u32) -> Option<Seq<char>>;

/// Calls `chrono::DateTime::from_timestamp` for UTC and `to_rfc3339` on what it gives. The text
/// depends on the two numbers alone; how it is written is not stated.
#[verifier::external_body]
fn format_rfc3339(secs: i64, nanos: u32) -> (text: Option<String>)
    ensures
        match text {
            Some(t) => rfc3339_text(secs, nanos) == Some(t@),
            None => rfc3339_text(secs, nanos) is None,
        },
{
    chrono::DateTime::<chrono::Utc>::from_timestamp(secs, nanos).map(|time| time.to_rfc3339())
}

/// The whole seconds from `earlier` to `later`, zero where `later` comes first.
pub open spec fn whole_seconds(earlier: Moment, later: Moment) -> nat {
    if later.total_nanos() >= earlier.total_nanos() {
        ((later.total_nanos() - earlier.total_nanos()) / 1_000_000_000) as nat
    } else {
        0
    }
}

impl Moment {
    /// The text of the point in time, as RFC 3339 writes it.
    pub fn to_rfc3339(&self) -> (text: Option<String>)
        ensures
            match text {
                Some(t) => rfc3339_text(self.secs, self.nanos) == Some(t@),
                None => rfc3339_text(self.secs, self.nanos) is None,
            },
    {
        format_rfc3339(self.secs, self.nanos)
    }

    /// The whole seconds from an earlier point in time to this one.
    pub fn seconds_since(&self, earlier: &Moment) -> (secs: u64)
        requires
            self.wf(),
            earlier.wf(),
        ensures
            secs == whole_seconds(*earlier, *self),
    {
        let from: i128 = earlier.secs as i128 * 1_000_000_000 + earlier.nanos as i128;
        let to: i128 = self.secs as i128 * 1_000_000_000 + self.nanos as i128;
        if to >= from {
            ((to - from) / 1_000_000_000) as u64
        } else {
            0
        }
    }
}

/// The whole seconds between two points in time are the most that fit between them; there are
/// none where the second comes before the first.
pub proof fn whole_seconds_fit_between(earlier: Moment, later: Moment)
    ensures
        ({
            let gap = (later.secs - earlier.secs) * 1_000_000_000 + (later.nanos - earlier.nanos);
            let s = whole_seconds(earlier, later);
            &&& gap >= 0 ==> s * 1_000_000_000 <= gap < (s + 1) * 1_000_000_000
            &&& gap < 0 ==> s == 0
        }),
{
}

} // verus!
