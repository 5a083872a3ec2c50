//! Exponential backoff for source-handle acquisition: the delay doubles
//! from a fixed initial value up to a cap, and resets on success. The
//! retry count is unbounded.

use vstd::prelude::*;

verus! {

/// Two to the power `n`.
pub open spec fn pow2(n: nat) -> int
    decreases n,
{
    if n == 0 {
        1
    } else {
        2 * pow2((n - 1) as nat)
    }
}

/// The delay before the attempt with the given index: the initial delay
/// doubled that many times, capped at the maximum.
pub open spec fn backoff_delay(initial: int, max: int, attempt: nat) -> int {
    if initial * pow2(attempt) <= max {
        initial * pow2(attempt)
    } else {
        max
    }
}

proof fn lemma_pow2_pos(n: nat)
    ensures
        pow2(n) >= 1,
    decreases n,
{
    if n > 0 {
        lemma_pow2_pos((n - 1) as nat);
    }
}

/// The backoff delay never shrinks as attempts accumulate.
proof fn lemma_backoff_monotone(initial: int, max: int, i: nat, j: nat)
    requires
        initial >= 0,
        i <= j,
    ensures
        backoff_delay(initial, max, i) <= backoff_delay(initial, max, j),
    decreases j - i,
{
    if i < j {
        lemma_backoff_monotone(initial, max, i, (j - 1) as nat);
        lemma_pow2_pos((j - 1) as nat);
        assert(initial * pow2(j) == 2 * (initial * pow2((j - 1) as nat))) by (nonlinear_arith)
            requires
                pow2(j) == 2 * pow2((j - 1) as nat),
        ;
        assert(initial * pow2((j - 1) as nat) >= 0) by (nonlinear_arith)
            requires
                initial >= 0,
                pow2((j - 1) as nat) >= 1,
        ;
    }
}

/// Doubling delay with a cap and a fixed initial value.
pub struct ExponentialBackoff {
    initial_delay_ms: u64,
    max_delay_ms: u64,
    attempt: u64,
}

impl ExponentialBackoff {
    /// The initial delay, in milliseconds.
    pub closed spec fn spec_initial_delay_ms(&self) -> int {
        self.initial_delay_ms as int
    }

    /// The maximum delay, in milliseconds.
    pub closed spec fn spec_max_delay_ms(&self) -> int {
        self.max_delay_ms as int
    }

    /// How many delays have been handed out since the last reset.
    pub closed spec fn spec_attempt(&self) -> int {
        self.attempt as int
    }

    /// A fresh backoff at attempt zero.
    pub fn new(initial_delay_ms: u64, max_delay_ms: u64) -> (r: ExponentialBackoff)
        ensures
            r.spec_initial_delay_ms() == initial_delay_ms as int,
            r.spec_max_delay_ms() == max_delay_ms as int,
            r.spec_attempt() == 0,
    {
        ExponentialBackoff { initial_delay_ms, max_delay_ms, attempt: 0 }
    }

    /// The delay to sleep before the next try, doubling up to the cap;
    /// counts the attempt.
    pub fn next_delay_ms(&mut self) -> (r: u64)
        ensures
            r as int == backoff_delay(
                old(self).spec_initial_delay_ms(),
                old(self).spec_max_delay_ms(),
                old(self).spec_attempt() as nat,
            ),
            final(self).spec_attempt() == if old(self).spec_attempt() < u64::MAX {
                old(self).spec_attempt() + 1
            } else {
                old(self).spec_attempt()
            },
            final(self).spec_initial_delay_ms() == old(self).spec_initial_delay_ms(),
            final(self).spec_max_delay_ms() == old(self).spec_max_delay_ms(),
    {
        let ghost initial = self.initial_delay_ms as int;
        let ghost max = self.max_delay_ms as int;
        let mut d: u64 = if self.initial_delay_ms > self.max_delay_ms {
            self.max_delay_ms
        } else {
            self.initial_delay_ms
        };
        proof {
            assert(pow2(0) == 1);
            assert(d as int == backoff_delay(initial, max, 0));
        }
        let mut i: u64 = 0;
        while i < self.attempt && d < self.max_delay_ms
            invariant
                i <= self.attempt,
                initial == self.initial_delay_ms as int,
                max == self.max_delay_ms as int,
                d as int == backoff_delay(initial, max, i as nat),
            decreases self.attempt - i,
        {
            let ghost iv = i as nat;
            let doubled = if d > u64::MAX / 2 {
                u64::MAX
            } else {
                d * 2
            };
            d = if doubled > self.max_delay_ms {
                self.max_delay_ms
            } else {
                doubled
            };
            proof {
                lemma_pow2_pos(iv);
                assert(initial * pow2(iv + 1) == 2 * (initial * pow2(iv))) by (nonlinear_arith)
                    requires
                        pow2(iv + 1) == 2 * pow2(iv),
                ;
                assert(initial * pow2(iv) >= 0) by (nonlinear_arith)
                    requires
                        initial >= 0,
                        pow2(iv) >= 1,
                ;
                assert(d as int == backoff_delay(initial, max, iv + 1));
            }
            i = i + 1;
        }
        proof {
            if i < self.attempt {
                // The cap was reached early; later attempts stay capped.
                lemma_backoff_monotone(initial, max, i as nat, self.attempt as nat);
                lemma_backoff_monotone(initial, max, 0, i as nat);
                assert(d as int == backoff_delay(initial, max, self.attempt as nat));
            }
        }
        if self.attempt < u64::MAX {
            self.attempt = self.attempt + 1;
        }
        d
    }

    /// Forget the failures: the next delay starts over from the initial
    /// value.
    pub fn reset(&mut self)
        ensures
            final(self).spec_attempt() == 0,
            final(self).spec_initial_delay_ms() == old(self).spec_initial_delay_ms(),
            final(self).spec_max_delay_ms() == old(self).spec_max_delay_ms(),
    {
        self.attempt = 0;
    }
}

} // verus!
