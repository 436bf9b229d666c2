//! Wall-clock timestamps as seconds and nanoseconds since the Unix epoch.

use vstd::prelude::*;

verus! {

/// Nanoseconds per second; `nsec` of a well-formed timestamp is below this.
pub const NSEC_PER_SEC: u32 = 1000000000;

/// A point in time: seconds and nanoseconds since the Unix epoch.
#[derive(Clone, Copy, Debug, PartialEq, Eq, Structural)]
pub struct Timespec {
    pub sec: i64,
    pub nsec: u32,
}

impl Timespec {
    /// A timestamp is well-formed when the nanosecond part is a proper
    /// fraction of a second.
    pub open spec fn wf(self) -> bool {
        self.nsec < NSEC_PER_SEC
    }

    pub fn new(sec: i64, nsec: u32) -> (r: Timespec)
        ensures
            r.sec == sec,
            r.nsec == nsec,
    {
        Timespec { sec, nsec }
    }

    /// The current wall time.
    ///
    /// Relies on `std::time::SystemTime::now` and
    /// `SystemTime::duration_since(UNIX_EPOCH)`: the duration since the
    /// epoch is non-negative with a sub-second nanosecond part; on a clock
    /// set before the epoch the duration is taken as zero.
    #[verifier::external_body]
    pub fn now() -> (r: Timespec)
        ensures
            r.sec >= 0,
            r.wf(),
    {
        let duration = std::time::SystemTime::now()
            .duration_since(std::time::SystemTime::UNIX_EPOCH)
            .unwrap_or(std::time::Duration::ZERO);
        Timespec { sec: duration.as_secs() as i64, nsec: duration.subsec_nanos() }
    }
}

/// The current wall time; see [`Timespec::now`].
pub fn now() -> (r: Timespec)
    ensures
        r.sec >= 0,
        r.wf(),
{
    Timespec::now()
}

} // verus!
