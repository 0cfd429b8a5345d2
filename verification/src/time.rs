//! Points in time and spans of time as plain numbers.
use vstd::prelude::*;

verus! {

/// A point in time: seconds since the start of 1970 in UTC, and nanoseconds into the second.
#[derive(Clone, Copy, Debug, PartialEq, Eq, Structural)]
pub struct Timestamp {
    pub secs: i64,
    pub nanos: u32,
}

/// A span of time.
#[derive(Clone, Copy, Debug, PartialEq, Eq, Structural)]
pub struct Duration {
    pub secs: u64,
    pub nanos: u32,
}

/// The nanoseconds of a second.
pub const NANOS_PER_SEC: i128 = 1_000_000_000;

impl Timestamp {
    /// Nanoseconds since the start of 1970.
    pub open spec fn total(self) -> int {
        self.secs * 1_000_000_000 + self.nanos
    }

    /// The nanoseconds stay below a second.
    pub open spec fn wf(self) -> bool {
        self.nanos < 1_000_000_000
    }

    /// Nanoseconds since the start of 1970, where 64 bits hold them.
    pub fn timestamp_nanos_opt(self) -> (r: Option<i64>)
        ensures
            r == (if i64::MIN <= self.total() <= i64::MAX {
                Some(self.total() as i64)
            } else {
                None
            }),
    {
        let total: i128 = self.secs as i128 * NANOS_PER_SEC + self.nanos as i128;
        if i64::MIN as i128 <= total && total <= i64::MAX as i128 {
            Some(total as i64)
        } else {
            None
        }
    }
}

impl Duration {
    /// The length in nanoseconds.
    pub open spec fn total(self) -> int {
        self.secs * 1_000_000_000 + self.nanos
    }

    /// The nanoseconds stay below a second.
    pub open spec fn wf(self) -> bool {
        self.nanos < 1_000_000_000
    }

    /// The empty span.
    pub fn zero() -> (r: Self)
        ensures
            r == (Duration { secs: 0, nanos: 0 }),
            r.wf(),
            r.total() == 0,
    {
        Duration { secs: 0, nanos: 0 }
    }
}

/// The span of so many nanoseconds.
pub open spec fn span(nanoseconds: int) -> Duration {
    Duration {
        secs: (nanoseconds / 1_000_000_000) as u64,
        nanos: (nanoseconds % 1_000_000_000) as u32,
    }
}

/// The time from `start` to `now`, and no time at all where `now` comes first.
pub open spec fn since(start: Timestamp, now: Timestamp) -> Duration {
    if now.total() >= start.total() {
        span(now.total() - start.total())
    } else {
        span(0)
    }
}

/// The time from `start` to `now`, and no time at all where `now` comes first.
pub fn elapsed(start: Timestamp, now: Timestamp) -> (r: Duration)
    requires
        start.wf(),
        now.wf(),
    ensures
        r == since(start, now),
        r.wf(),
        r.total() == (if now.total() >= start.total() {
            now.total() - start.total()
        } else {
            0
        }),
{
    let borrow: bool = now.nanos < start.nanos;
    let secs: i128 = now.secs as i128 - start.secs as i128 - (if borrow {
        1i128
    } else {
        0i128
    });
    if secs < 0 {
        return Duration::zero();
    }
    let nanos: u32 = if borrow {
        now.nanos + 1_000_000_000 - start.nanos
    } else {
        now.nanos - start.nanos
    };
    Duration { secs: secs as u64, nanos }
}

/// A span takes the time that the one point comes after the other.
pub proof fn law_since(start: Timestamp, now: Timestamp)
    requires
        start.wf(),
        now.wf(),
    ensures
        since(start, now).wf(),
        now.total() >= start.total() ==> start.total() + since(start, now).total() == now.total(),
        now.total() < start.total() ==> since(start, now).total() == 0,
        now.secs >= start.secs && now.nanos == start.nanos ==> since(start, now).secs == now.secs
            - start.secs && since(start, now).nanos == 0,
        now.secs == start.secs && now.nanos >= start.nanos ==> since(start, now).secs == 0
            && since(start, now).nanos == now.nanos - start.nanos,
        now.secs < start.secs ==> since(start, now).secs == 0 && since(start, now).nanos == 0,
{
}

} // verus!
