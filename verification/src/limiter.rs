//! Exponential backoff for the poll cadence: the delay doubles with every
//! empty pass up to a configurable ceiling, and falls back to one second as
//! soon as a pass finds new work.

use vstd::prelude::*;

verus! {

/// Two to the given power.
pub open spec fn pow2(n: nat) -> nat
    decreases n,
{
    if n == 0 {
        1
    } else {
        2 * pow2((n - 1) as nat)
    }
}

proof fn lemma_pow2_nondecreasing(a: nat, b: nat)
    requires
        a <= b,
    ensures
        pow2(a) <= pow2(b),
    decreases b,
{
    if a < b {
        lemma_pow2_nondecreasing(a, (b - 1) as nat);
    }
}

/// The delay, in seconds, after `n` consecutive empty passes under the given
/// ceiling: two to the `n`, but never more than the ceiling.
pub open spec fn delay_secs_spec(n: nat, max: nat) -> nat {
    if pow2(n) <= max {
        pow2(n)
    } else {
        max
    }
}

/// Paces the poll loop. It only spaces out the passes; work found by a pass
/// is dispatched at once, never delayed by the backoff.
pub struct RateLimiter {
    /// How many passes in a row found nothing new.
    pub empty_passes: u32,
    /// The delay ceiling, in seconds.
    pub max_interval_secs: u64,
}

impl RateLimiter {
    /// A fresh limiter under the given ceiling, with no empty pass counted.
    pub fn new(max_interval_secs: u64) -> (r: Self)
        ensures
            r.empty_passes == 0,
            r.max_interval_secs == max_interval_secs,
    {
        RateLimiter { empty_passes: 0, max_interval_secs }
    }

    /// Counts one more empty pass. The count saturates at the machine limit,
    /// far beyond where the delay ceiling has long taken over.
    pub fn increment(&mut self)
        ensures
            final(self).empty_passes == if old(self).empty_passes < u32::MAX {
                old(self).empty_passes + 1
            } else {
                old(self).empty_passes as int
            },
            final(self).max_interval_secs == old(self).max_interval_secs,
    {
        if self.empty_passes < u32::MAX {
            self.empty_passes = self.empty_passes + 1;
        }
    }

    /// Starts over after a pass that found new work.
    pub fn reset(&mut self)
        ensures
            final(self).empty_passes == 0,
            final(self).max_interval_secs == old(self).max_interval_secs,
    {
        self.empty_passes = 0;
    }

    /// The delay before the next pass: `2^empty_passes` seconds, capped at
    /// the ceiling.
    pub fn next_delay_secs(&self) -> (d: u64)
        ensures
            d == delay_secs_spec(self.empty_passes as nat, self.max_interval_secs as nat),
    {
        let n = self.empty_passes;
        let max = self.max_interval_secs;
        let mut d: u64 = 1;
        let mut i: u32 = 0;
        while i < n
            invariant_except_break
                0 <= i <= n,
                d == pow2(i as nat),
            ensures
                0 <= i <= n,
                i == n ==> d == pow2(n as nat),
                i < n ==> d == max && pow2(n as nat) >= max,
            decreases n - i,
        {
            if d >= max {
                proof {
                    lemma_pow2_nondecreasing(i as nat, n as nat);
                }
                d = max;
                break;
            }
            if d > u64::MAX / 2 {
                proof {
                    lemma_pow2_nondecreasing((i + 1) as nat, n as nat);
                    assert(pow2((i + 1) as nat) == 2 * pow2(i as nat));
                }
                d = max;
                break;
            }
            d = d * 2;
            i += 1;
        }
        if i == n {
            // the loop ran to the end: d is the exact power
            if d > max {
                return max;
            }
        }
        d
    }
}

} // verus!
