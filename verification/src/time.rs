use vstd::prelude::*;

verus! {

/// Microseconds in a second.
pub const USEC_PER_SEC: usize = 1_000_000;

/// Slack, in microseconds, added to the hardware clock before it is reported.
pub const TIME_SLACK_US: usize = 1000;

/// A time as seconds and microseconds, as `get_time` hands it to user space.
#[derive(Clone, Copy, Debug, PartialEq, Eq, Structural)]
pub struct TimeVal {
    pub sec: usize,
    pub usec: usize,
}

/// The time reported after one reading of the clock: never earlier than what
/// was reported before (`last`), nor than the clock plus the slack.
pub open spec fn reported_time(last: usize, real_us: usize) -> int {
    if last >= real_us + TIME_SLACK_US {
        last as int
    } else {
        real_us + TIME_SLACK_US
    }
}

impl TimeVal {
    /// `us` microseconds split into whole seconds and the microseconds left over.
    pub fn from_us(us: usize) -> (t: TimeVal)
        ensures
            t.sec == us / USEC_PER_SEC,
            t.usec == us % USEC_PER_SEC,
            t.sec * USEC_PER_SEC + t.usec == us,
            t.usec < USEC_PER_SEC,
    {
        TimeVal { sec: us / USEC_PER_SEC, usec: us % USEC_PER_SEC }
    }
}

/// The time `get_time` reports: the clock reading `real_us` plus the slack,
/// but never earlier than the time reported last (`*last_us`), which is
/// advanced to the reported time.
pub fn sys_get_time(last_us: &mut usize, real_us: usize) -> (t: TimeVal)
    requires
        real_us + TIME_SLACK_US <= usize::MAX,
    ensures
        *final(last_us) == reported_time(*old(last_us), real_us),
        *final(last_us) >= real_us + TIME_SLACK_US,
        *final(last_us) >= *old(last_us),
        *final(last_us) == real_us + TIME_SLACK_US || *final(last_us) == *old(last_us),
        t.sec == *final(last_us) / USEC_PER_SEC,
        t.usec == *final(last_us) % USEC_PER_SEC,
{
    let shifted = real_us + TIME_SLACK_US;
    if shifted > *last_us {
        *last_us = shifted;
    }
    TimeVal::from_us(*last_us)
}

/// The reported time is the later of the last report and the clock plus the
/// slack: it is never below either, and it is one of the two.
pub proof fn lemma_reported_time_is_max(last: usize, real_us: usize)
    ensures
        reported_time(last, real_us) >= last,
        reported_time(last, real_us) >= real_us + TIME_SLACK_US,
        reported_time(last, real_us) == last || reported_time(last, real_us) == real_us + TIME_SLACK_US,
{
}

/// Two readings of the clock, one after the other, never report a time that
/// goes back: the second report is at least the first.
pub proof fn lemma_reported_time_monotonic(last: usize, real1: usize, real2: usize)
    requires
        real1 + TIME_SLACK_US <= usize::MAX,
    ensures
        reported_time(reported_time(last, real1) as usize, real2) >= reported_time(last, real1),
{
}

/// The moment a thread asleep for `ms` milliseconds from `now_ms` wakes up.
pub fn sys_sleep(now_ms: usize, ms: usize) -> (expire_ms: usize)
    requires
        now_ms + ms <= usize::MAX,
    ensures
        expire_ms == now_ms + ms,
{
    now_ms + ms
}

} // verus!
