//! Time managers: after each finished iteration they say how long the search
//! may go on before the next one is done.

use vstd::prelude::*;
use std::time::Duration;
use crate::evaluation::{kind_of, EvaluationKind};
use crate::search::search_defs::SearchResult;

verus! {

/// The nanoseconds that a `Duration` lasts.
pub uninterp spec fn nanos_of(d: Duration) -> nat;

/// The nanoseconds of the longest `Duration`.
pub const MAX_NANOS: u128 = 18_446_744_073_709_551_615_999_999_999u128;

/// The nanoseconds in a second.
pub const SECOND: u128 = 1_000_000_000u128;

/// `Duration::as_nanos`. The contract names the result and says that it is
/// at most that of `Duration::MAX`.
#[verifier::external_body]
fn as_nanos(d: Duration) -> (r: u128)
    ensures
        r == nanos_of(d),
        r <= MAX_NANOS,
{
    d.as_nanos()
}

/// `Duration::new`, which panics only where the nanoseconds carry over into
/// seconds that do not fit: the duration of so many seconds and nanoseconds.
#[verifier::external_body]
fn duration_new(secs: u64, nanos: u32) -> (r: Duration)
    requires
        nanos < 1_000_000_000,
    ensures
        nanos_of(r) == secs * 1_000_000_000 + nanos,
{
    Duration::new(secs, nanos)
}

/// The `Duration` that lasts `nanos` nanoseconds.
pub fn duration_of(nanos: u128) -> (r: Duration)
    requires
        nanos <= MAX_NANOS,
    ensures
        nanos_of(r) == nanos,
{
    let secs: u128 = nanos / SECOND;
    let rest: u128 = nanos % SECOND;
    duration_new(secs as u64, rest as u32)
}

/// The sum of two spans of time, or the longest span where the sum is longer.
pub open spec fn capped_sum(a: nat, b: nat) -> nat {
    if a + b > MAX_NANOS {
        MAX_NANOS as nat
    } else {
        a + b
    }
}

/// What is left of `interval` after `elapsed`.
pub open spec fn time_left(interval: nat, elapsed: nat) -> nat {
    if interval > elapsed {
        (interval - elapsed) as nat
    } else {
        0
    }
}

/// So many hundredths of a span of time, or the longest span where that is longer.
pub open spec fn share(nanos: nat, percent: nat) -> nat {
    if nanos * percent / 100 > MAX_NANOS {
        MAX_NANOS as nat
    } else {
        nanos * percent / 100
    }
}

pub trait TimeManager {
    /// Takes in a new result, `time` after the one before it, and says how
    /// long the search may go on without another: if no result comes within
    /// that time, the search is to stop.
    fn update(&mut self, result: SearchResult, time: Duration) -> Duration;
}

/// A time manager that uses a fixed amount of time per move.
pub struct FixedTimeManager {
    interval: u128,
    elapsed: u128,
}

impl FixedTimeManager {
    #[verifier::type_invariant]
    spec fn bounded(self) -> bool {
        self.interval <= MAX_NANOS && self.elapsed <= MAX_NANOS
    }

    /// The nanoseconds that a move may take.
    pub closed spec fn interval(self) -> nat {
        self.interval as nat
    }

    /// The nanoseconds that the results so far have taken.
    pub closed spec fn elapsed(self) -> nat {
        self.elapsed as nat
    }

    pub fn new(interval: Duration) -> (r: Self)
        ensures
            r.interval() == nanos_of(interval),
            r.elapsed() == 0,
    {
        FixedTimeManager { interval: as_nanos(interval), elapsed: 0 }
    }

    /// A manager that allows `interval` nanoseconds per move.
    fn of_nanos(interval: u128) -> (r: Self)
        requires
            interval <= MAX_NANOS,
        ensures
            r.interval() == interval,
            r.elapsed() == 0,
    {
        FixedTimeManager { interval, elapsed: 0 }
    }
}

impl TimeManager for FixedTimeManager {
    fn update(&mut self, result: SearchResult, time: Duration) -> (r: Duration)
        ensures
            final(self).interval() == old(self).interval(),
            final(self).elapsed() == capped_sum(old(self).elapsed(), nanos_of(time)),
            nanos_of(r) == time_left(final(self).interval(), final(self).elapsed()),
    {
        proof {
            use_type_invariant(&*self);
        }
        let sum: u128 = self.elapsed + as_nanos(time);
        self.elapsed = if sum > MAX_NANOS {
            MAX_NANOS
        } else {
            sum
        };
        if self.interval > self.elapsed {
            duration_of(self.interval - self.elapsed)
        } else {
            duration_of(0)
        }
    }
}

/// A time manager that uses a fixed share of the time left per move.
pub struct PercentageTimeManager(FixedTimeManager);

impl PercentageTimeManager {
    /// The nanoseconds that a move may take.
    pub closed spec fn interval(self) -> nat {
        self.0.interval()
    }

    /// The nanoseconds that the results so far have taken.
    pub closed spec fn elapsed(self) -> nat {
        self.0.elapsed()
    }

    /// A manager that allows `percentage` hundredths of `time_left` per
    /// move, but `minimum_time` at least.
    pub fn new(time_left: Duration, percentage: u32, minimum_time: Duration) -> (r: Self)
        ensures
            r.elapsed() == 0,
            r.interval() == if share(nanos_of(time_left), percentage as nat) > nanos_of(
                minimum_time,
            ) {
                share(nanos_of(time_left), percentage as nat)
            } else {
                nanos_of(minimum_time)
            },
    {
        let left: u128 = as_nanos(time_left);
        let minimum: u128 = as_nanos(minimum_time);
        assert(left * percentage <= MAX_NANOS * 0xffff_ffff) by (nonlinear_arith)
            requires
                0 <= left <= MAX_NANOS,
                0 <= percentage <= 0xffff_ffff,
        ;
        let part: u128 = left * (percentage as u128) / 100;
        let capped: u128 = if part > MAX_NANOS {
            MAX_NANOS
        } else {
            part
        };
        PercentageTimeManager(
            FixedTimeManager::of_nanos(
                if capped > minimum {
                    capped
                } else {
                    minimum
                },
            ),
        )
    }
}

impl TimeManager for PercentageTimeManager {
    fn update(&mut self, result: SearchResult, time: Duration) -> (r: Duration)
        ensures
            final(self).interval() == old(self).interval(),
            final(self).elapsed() == capped_sum(old(self).elapsed(), nanos_of(time)),
            nanos_of(r) == time_left(final(self).interval(), final(self).elapsed()),
    {
        self.0.update(result, time)
    }
}

/// The standard time manager: a share of the time left per move, and no time
/// at all once a mate is in sight.
pub struct StandardTimeManager(PercentageTimeManager);

impl StandardTimeManager {
    /// The nanoseconds that a move may take.
    pub closed spec fn interval(self) -> nat {
        self.0.interval()
    }

    /// The nanoseconds that the results so far have taken.
    pub closed spec fn elapsed(self) -> nat {
        self.0.elapsed()
    }

    /// A manager that allows `percentage` hundredths of `time_left` per
    /// move, but `minimum_time` at least.
    pub fn new(time_left: Duration, percentage: u32, minimum_time: Duration) -> (r: Self)
        ensures
            r.elapsed() == 0,
            r.interval() == if share(nanos_of(time_left), percentage as nat) > nanos_of(
                minimum_time,
            ) {
                share(nanos_of(time_left), percentage as nat)
            } else {
                nanos_of(minimum_time)
            },
    {
        StandardTimeManager(PercentageTimeManager::new(time_left, percentage, minimum_time))
    }
}

impl TimeManager for StandardTimeManager {
    fn update(&mut self, result: SearchResult, time: Duration) -> (r: Duration)
        ensures
            final(self).interval() == old(self).interval(),
            kind_of(result.value.value()) is Centipawn ==> final(self).elapsed() == capped_sum(
                old(self).elapsed(),
                nanos_of(time),
            ) && nanos_of(r) == time_left(final(self).interval(), final(self).elapsed()),
            !(kind_of(result.value.value()) is Centipawn) ==> final(self).elapsed() == old(
                self,
            ).elapsed() && nanos_of(r) == 0,
    {
        match result.value.kind() {
            EvaluationKind::Centipawn(_) => self.0.update(result, time),
            _ => duration_of(0),
        }
    }
}

} // verus!
