//! State shared by the request handlers.
use vstd::prelude::*;

verus! {

/// The running average of the intervals between views, as the view cost
/// is derived from it.
pub open spec fn next_average(prev: u64, count: u64, since: u64) -> u64 {
    if count == 0 {
        since
    } else if (prev * count + since) / count as int > u64::MAX {
        u64::MAX
    } else {
        ((prev * count + since) / count as int) as u64
    }
}

/// Bookkeeping of the intervals between views: when the last view came,
/// how many views came, and their running average interval in
/// milliseconds.
#[derive(Debug, Clone, Copy)]
pub struct LastView {
    pub instant: u64,
    pub count: u64,
    pub average: u64,
}

impl LastView {
    /// Bookkeeping that starts at `now` (milliseconds).
    pub fn new(now: u64) -> (r: LastView)
        ensures
            r.instant == now,
            r.count == 0,
            r.average == 0,
    {
        LastView { instant: now, count: 0, average: 0 }
    }

    /// Records a view at `now` (milliseconds) and returns the new running
    /// average interval. A clock that went back counts as no time at all.
    pub fn push(&mut self, now: u64) -> (r: u64)
        ensures
            final(self).instant == now,
            final(self).count == if old(self).count == u64::MAX {
                u64::MAX
            } else {
                (old(self).count + 1) as u64
            },
            r == next_average(
                old(self).average,
                old(self).count,
                if now >= old(self).instant {
                    (now - old(self).instant) as u64
                } else {
                    0
                },
            ),
            final(self).average == r,
    {
        let since: u64 = if now >= self.instant {
            now - self.instant
        } else {
            0
        };
        self.instant = now;
        let count = self.count;
        if self.count < u64::MAX {
            self.count = self.count + 1;
        }
        let prev = self.average;
        let new = if count == 0 {
            since
        } else {
            let a = prev as u128;
            let b = count as u128;
            proof {
                assert(a * b <= 0xffff_ffff_ffff_ffff * 0xffff_ffff_ffff_ffff) by (nonlinear_arith)
                    requires
                        a <= 0xffff_ffff_ffff_ffff,
                        b <= 0xffff_ffff_ffff_ffff,
                ;
            }
            let total: u128 = a * b + since as u128;
            let q = total / (count as u128);
            if q > u64::MAX as u128 {
                u64::MAX
            } else {
                q as u64
            }
        };
        self.average = new;
        new
    }
}

} // verus!
