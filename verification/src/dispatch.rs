//! Alert dispatch hardening: a bounded exponential-backoff retry policy.
//!
//! Delivery itself is a network call made by the surrounding runtime; the
//! policy here is the decision core. After `attempts_made` failed attempts
//! it answers either "retry after this delay" — the base delay doubled once
//! per failure already made — or "give up" once the attempt budget is
//! spent. A failed send is reported, never escalated: the caller treats
//! dispatch failure as best effort.

use vstd::prelude::*;

verus! {

/// Two to the power `n`.
pub open spec fn pow2(n: nat) -> nat
    decreases n,
{
    if n == 0 {
        1
    } else {
        2 * pow2((n - 1) as nat)
    }
}

proof fn lemma_pow2_increases(a: nat, b: nat)
    requires
        a <= b,
    ensures
        pow2(a) <= pow2(b),
    decreases b,
{
    if a < b {
        lemma_pow2_increases(a, (b - 1) as nat);
    }
}

/// A bounded exponential-backoff retry policy for alert dispatch.
#[derive(Clone, Copy, PartialEq, Eq, Structural, Debug)]
pub struct RetryPolicy {
    /// How many attempts in all are allowed, the first one included.
    pub max_attempts: u8,
    /// Delay before the second attempt; each later delay doubles it.
    pub base_delay_ms: u32,
}

impl RetryPolicy {
    /// At least one attempt; the base delay is at most a minute, so the
    /// largest backoff (nine doublings) stays far below `u32::MAX`.
    pub open spec fn wf(self) -> bool {
        &&& 1 <= self.max_attempts <= 10
        &&& 1 <= self.base_delay_ms <= 60_000
    }

    /// Up to three attempts, starting at half a second.
    pub fn default_value() -> (r: RetryPolicy)
        ensures
            r.wf(),
            r == (RetryPolicy { max_attempts: 3, base_delay_ms: 500 }),
    {
        RetryPolicy { max_attempts: 3, base_delay_ms: 500 }
    }
}

/// What to do about a dispatch that has not succeeded yet.
#[derive(Clone, Copy, PartialEq, Eq, Structural, Debug)]
pub enum DispatchStep {
    /// Try again after this many milliseconds.
    Retry(u32),
    /// The attempt budget is spent: report the failure and move on.
    GiveUp,
}

/// Decides the next move after `attempts_made` failed dispatch attempts
/// (at least the first attempt has been made and failed): retry with the
/// exponentially grown delay while the budget allows, give up once it is
/// spent.
pub fn next_dispatch_step(policy: &RetryPolicy, attempts_made: u8) -> (r: DispatchStep)
    requires
        policy.wf(),
        attempts_made >= 1,
    ensures
        attempts_made >= policy.max_attempts ==> r == DispatchStep::GiveUp,
        attempts_made < policy.max_attempts ==> (r matches DispatchStep::Retry(d)
            && d as int == policy.base_delay_ms as int * pow2((attempts_made - 1) as nat)),
{
    if attempts_made >= policy.max_attempts {
        return DispatchStep::GiveUp;
    }
    let doublings: u8 = attempts_made - 1;
    let mut delay: u32 = policy.base_delay_ms;
    let mut k: u8 = 0;
    proof {
        lemma_pow2_increases(doublings as nat, 9);
        lemma_pow2_increases(0, doublings as nat);
        reveal_with_fuel(pow2, 10);
        assert(pow2(9) == 512);
        assert(pow2(0) == 1);
        assert(policy.base_delay_ms as int * pow2(0) == policy.base_delay_ms as int);
        assert(policy.base_delay_ms as int * pow2(0)
            <= policy.base_delay_ms as int * pow2(doublings as nat)) by (nonlinear_arith)
            requires
                pow2(0) <= pow2(doublings as nat),
                policy.base_delay_ms >= 1;
        assert(policy.base_delay_ms as int * pow2(doublings as nat) <= 60_000 * 512)
            by (nonlinear_arith)
            requires
                1 <= policy.base_delay_ms as int <= 60_000,
                1 <= pow2(doublings as nat) <= 512;
    }
    while k < doublings
        invariant
            policy.wf(),
            0 <= k <= doublings,
            doublings <= 9,
            delay as int == policy.base_delay_ms as int * pow2(k as nat),
            delay as int <= policy.base_delay_ms as int * pow2(doublings as nat),
            policy.base_delay_ms as int * pow2(doublings as nat) <= 60_000 * 512,
        decreases doublings - k,
    {
        proof {
            lemma_pow2_increases(k as nat + 1, doublings as nat);
            assert(policy.base_delay_ms as int * pow2(k as nat) * 2
                == policy.base_delay_ms as int * pow2((k + 1) as nat)) by (nonlinear_arith);
            assert(policy.base_delay_ms as int * pow2((k + 1) as nat)
                <= policy.base_delay_ms as int * pow2(doublings as nat)) by (nonlinear_arith)
                requires
                    pow2((k + 1) as nat) <= pow2(doublings as nat),
                    policy.base_delay_ms >= 1;
        }
        delay = delay * 2;
        k = k + 1;
    }
    DispatchStep::Retry(delay)
}

} // verus!
