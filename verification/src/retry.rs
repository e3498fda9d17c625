//! Bounded retry with increasing (Fibonacci) backoff around one publish
//! attempt. The policy decides; the caller performs the attempt and the
//! waiting.

use vstd::prelude::*;

verus! {

/// The Fibonacci sequence, base of the backoff schedule.
pub open spec fn spec_fib(n: nat) -> nat
    decreases n,
{
    if n == 0 {
        0
    } else if n == 1 {
        1
    } else {
        spec_fib((n - 1) as nat) + spec_fib((n - 2) as nat)
    }
}

proof fn lemma_fib_mono(a: nat, b: nat)
    requires
        a <= b,
    ensures
        spec_fib(a) <= spec_fib(b),
    decreases b,
{
    if a < b && b >= 2 {
        lemma_fib_mono(a, (b - 1) as nat);
    }
}

/// Law: the backoff never shrinks from one failed attempt to the next.
pub proof fn lemma_backoff_monotone(base: u64, i: nat, j: nat)
    requires
        i <= j,
    ensures
        base * spec_fib(i) <= base * spec_fib(j),
{
    lemma_fib_mono(i, j);
    assert(base * spec_fib(i) <= base * spec_fib(j)) by (nonlinear_arith)
        requires
            spec_fib(i) <= spec_fib(j),
        {}
}

/// Some attempt among the first `k` would succeed.
pub open spec fn succeeds_within(outcomes: Seq<bool>, k: int) -> bool {
    exists|i: int| 0 <= i < k && outcomes[i]
}

/// Bounded retry policy: at most `max_attempts` attempts in all, waiting
/// `base_millis * fib(i)` after the `i`-th failed attempt. Exhaustion is
/// fatal for the whole release run.
#[derive(Clone, Copy, Debug, PartialEq, Eq, Structural)]
pub struct RetryPolicy {
    pub base_millis: u64,
    pub max_attempts: u64,
}

impl RetryPolicy {
    /// Bounds that keep every backoff computation inside `u64`.
    pub open spec fn wf(self) -> bool {
        &&& 1 <= self.max_attempts <= 16
        &&& 1 <= self.base_millis <= 1_000_000
    }

    /// The shipped policy: up to 6 attempts, backoff starting at 4 s.
    pub fn standard() -> (r: RetryPolicy)
        ensures
            r.base_millis == 4000,
            r.max_attempts == 6,
            r.wf(),
    {
        RetryPolicy { base_millis: 4000, max_attempts: 6 }
    }

    /// A further attempt is allowed after `attempt` attempts have failed.
    pub fn should_retry(&self, attempt: u64) -> (r: bool)
        ensures
            r == (attempt < self.max_attempts),
    {
        attempt < self.max_attempts
    }

    /// Milliseconds to wait after the `attempt`-th failed attempt.
    pub fn backoff_millis(&self, attempt: u64) -> (r: u64)
        requires
            self.wf(),
            1 <= attempt <= self.max_attempts,
        ensures
            r == self.base_millis * spec_fib(attempt as nat),
    {
        let mut a: u64 = 0;
        let mut b: u64 = 1;
        let mut i: u64 = 1;
        proof {
            assert(spec_fib(16) == 987) by {
                reveal_with_fuel(spec_fib, 17);
            }
        }
        while i < attempt
            invariant
                1 <= i <= attempt <= 16,
                a == spec_fib((i - 1) as nat),
                b == spec_fib(i as nat),
                spec_fib(16) == 987,
            decreases attempt - i,
        {
            proof {
                lemma_fib_mono((i + 1) as nat, 16);
            }
            let t = a + b;
            a = b;
            b = t;
            i += 1;
        }
        proof {
            lemma_fib_mono(attempt as nat, 16);
            assert(b * self.base_millis <= 987 * 1_000_000) by (nonlinear_arith)
                requires
                    b <= 987,
                    self.base_millis <= 1_000_000,
            {}
        }
        self.base_millis * b
    }

    /// The decision process of one retried publish, run over the outcomes
    /// the successive attempts would have (`outcomes[i]` is whether attempt
    /// `i + 1` succeeds). Returns how many attempts are made and whether
    /// the publish succeeds: attempts stop at the first success, and a
    /// publish that never succeeds is attempted exactly `max_attempts`
    /// times before the failure becomes fatal.
    pub fn attempts_taken(&self, outcomes: &Vec<bool>) -> (r: (u64, bool))
        requires
            self.wf(),
            outcomes@.len() >= self.max_attempts,
        ensures
            r.1 == succeeds_within(outcomes@, self.max_attempts as int),
            r.1 ==> 1 <= r.0 <= self.max_attempts && outcomes@[r.0 - 1] && !succeeds_within(
                outcomes@,
                r.0 - 1,
            ),
            !r.1 ==> r.0 == self.max_attempts,
            (forall|i: int| 0 <= i < outcomes@.len() ==> !(#[trigger] outcomes@[i])) ==> (r.0
                == self.max_attempts && !r.1),
    {
        let mut i: u64 = 0;
        while i < self.max_attempts
            invariant
                self.wf(),
                i <= self.max_attempts,
                outcomes@.len() >= self.max_attempts,
                !succeeds_within(outcomes@, i as int),
            decreases self.max_attempts - i,
        {
            if outcomes[i as usize] {
                return (i + 1, true);
            }
            i += 1;
        }
        (self.max_attempts, false)
    }
}

} // verus!
