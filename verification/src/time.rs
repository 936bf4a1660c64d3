//! Points in time.
use vstd::prelude::*;

verus! {

/// The largest number of seconds that a [`Timestamp`] holds.
pub const MAX_SECONDS: i64 = 10_000_000_000_000;

/// A point in time: seconds since the start of 1970 in UTC, and nanoseconds within the second.
#[derive(Debug, Clone, Copy, PartialEq, Eq, Structural)]
pub struct Timestamp {
    pub secs: i64,
    pub nanos: u32,
}

impl Timestamp {
    /// Whether the fields are in range.
    pub open spec fn wf(self) -> bool {
        0 <= self.secs <= MAX_SECONDS && self.nanos < 1_000_000_000
    }

    /// Nanoseconds since the start of 1970.
    pub open spec fn total_nanos(self) -> int {
        self.secs * 1_000_000_000 + self.nanos
    }

    /// Whole milliseconds from `self` until `later`; a part of a millisecond is dropped.
    pub open spec fn millis_until(self, later: Timestamp) -> int {
        let nanos = later.total_nanos() - self.total_nanos();
        if nanos >= 0 {
            nanos / 1_000_000
        } else {
            -(-nanos / 1_000_000)
        }
    }

    /// Milliseconds from `self` until `later`.
    pub fn millis_to(self, later: Timestamp) -> (ms: i64)
        requires
            self.wf(),
            later.wf(),
        ensures
            ms == self.millis_until(later),
    {
        let from: i128 = self.secs as i128 * 1_000_000_000 + self.nanos as i128;
        let to: i128 = later.secs as i128 * 1_000_000_000 + later.nanos as i128;
        if to >= from {
            ((to - from) / 1_000_000) as i64
        } else {
            -(((from - to) / 1_000_000) as i64)
        }
    }

    /// The current time, from `chrono::Utc::now`, which counts up from 1970 in whole seconds and
    /// nanoseconds below a second. Nothing ties two readings to each other.
    #[verifier::external_body]
    fn read_clock() -> (t: Timestamp)
        ensures
            t.wf(),
    {
        let now = chrono::Utc::now();
        Timestamp { secs: now.timestamp(), nanos: now.timestamp_subsec_nanos() }
    }

    /// Whether the clock was read.
    pub closed spec fn is_reading(self) -> bool {
        call_ensures(Timestamp::read_clock, (), self)
    }

    /// What the clock shows is in range.
    pub proof fn law_readings_are_in_range(self)
        requires
            self.is_reading(),
        ensures
            self.wf(),
    {
    }

    /// The current time.
    pub(crate) fn now() -> (t: Timestamp)
        ensures
            t.is_reading(),
            t.wf(),
    {
        let t = Timestamp::read_clock();
        assert(call_ensures(Timestamp::read_clock, (), t));
        t
    }

    /// Whether the fields are in range.
    pub fn in_range(self) -> (res: bool)
        ensures
            res == self.wf(),
    {
        0 <= self.secs && self.secs <= MAX_SECONDS && self.nanos < 1_000_000_000
    }
}

/// A span that is passed in two parts takes as long as both, up to the dropped parts.
pub proof fn law_spans_add_up(a: Timestamp, b: Timestamp, c: Timestamp)
    requires
        a.total_nanos() <= b.total_nanos() <= c.total_nanos(),
    ensures
        a.millis_until(b) + b.millis_until(c) <= a.millis_until(c) <= a.millis_until(b)
            + b.millis_until(c) + 1,
{
}

/// A span is counted in whole milliseconds of a million nanoseconds, a part of one dropped; counted
/// backwards it is as long, with the other sign.
pub proof fn law_spans_are_whole_milliseconds(a: Timestamp, b: Timestamp)
    ensures
        ({
            let nanos = (b.secs - a.secs) * 1_000_000_000 + (b.nanos - a.nanos);
            let ms = a.millis_until(b);
            &&& nanos >= 0 ==> 1_000_000 * ms <= nanos < 1_000_000 * (ms + 1)
            &&& b.millis_until(a) == -ms
        }),
{
}

} // verus!
