//! The write retry policy for a store that can fail: transient failures are
//! retried after an exponentially growing, capped delay, up to a bounded
//! number of retries; persistent failures, and transient ones past the cap,
//! reject the single message.

use vstd::prelude::*;
use vstd::arithmetic::power2::{lemma_pow2_unfold, pow2};

verus! {

/// How a store write failed.
#[derive(Debug, Clone, Copy, PartialEq, Eq, Structural)]
pub enum StoreFailure {
    /// A timeout or an unavailable store: worth another try.
    Transient,
    /// A serialisation or constraint failure: another try fails the same way.
    Persistent,
}

/// What the writer does after an attempt.
#[derive(Debug, Clone, Copy, PartialEq, Eq, Structural)]
pub enum WriteStep {
    /// The write went through.
    Done,
    /// Try again after this many milliseconds.
    RetryAfter(u64),
    /// Give the message up as rejected by the store.
    Rejected,
}

/// Bounds of the retry loop around a store write.
#[derive(Debug, Clone, Copy, PartialEq, Eq, Structural)]
pub struct RetryPolicy {
    /// Retries allowed after the first attempt.
    pub max_retries: u32,
    /// Delay before the first retry, in milliseconds.
    pub base_delay_ms: u64,
    /// Upper bound of any delay, in milliseconds.
    pub max_delay_ms: u64,
}

/// The delay before retry number `retry` (counting from zero): the base
/// delay doubled `retry` times, capped.
pub open spec fn backoff_spec(p: RetryPolicy, retry: nat) -> nat {
    let d = p.base_delay_ms * pow2(retry);
    if d <= p.max_delay_ms {
        d as nat
    } else {
        p.max_delay_ms as nat
    }
}

/// The step after attempt number `attempt` (counting from zero) ended with
/// `outcome`.
pub open spec fn next_step_spec(p: RetryPolicy, attempt: u32, outcome: Result<(), StoreFailure>) -> WriteStep {
    match outcome {
        Ok(()) => WriteStep::Done,
        Err(StoreFailure::Persistent) => WriteStep::Rejected,
        Err(StoreFailure::Transient) => if attempt < p.max_retries {
            WriteStep::RetryAfter(backoff_spec(p, attempt as nat) as u64)
        } else {
            WriteStep::Rejected
        },
    }
}

impl RetryPolicy {
    /// The delay before retry number `retry`.
    pub fn backoff(&self, retry: u32) -> (r: u64)
        ensures
            r == backoff_spec(*self, retry as nat),
    {
        let cap = self.max_delay_ms;
        let mut d: u64 = if self.base_delay_ms <= cap {
            self.base_delay_ms
        } else {
            cap
        };
        let mut i: u32 = 0;
        proof {
            assert(pow2(0) == 1) by {
                vstd::arithmetic::power2::lemma2_to64();
            }
        }
        while i < retry
            invariant
                i <= retry,
                cap == self.max_delay_ms,
                d == backoff_spec(*self, i as nat),
            decreases retry - i,
        {
            proof {
                lemma_pow2_unfold((i + 1) as nat);
                let b = self.base_delay_ms as int;
                let q = pow2(i as nat) as int;
                assert(b * (2 * q) == 2 * (b * q)) by (nonlinear_arith);
                assert(b * q >= 0) by (nonlinear_arith)
                    requires
                        b >= 0,
                        q >= 0,
                ;
            }
            if d > cap - d {
                d = cap;
            } else {
                d = d + d;
            }
            i = i + 1;
        }
        d
    }

    /// Decides what follows attempt number `attempt` of a write that ended
    /// with `outcome`.
    pub fn next_step(&self, attempt: u32, outcome: Result<(), StoreFailure>) -> (r: WriteStep)
        ensures
            r == next_step_spec(*self, attempt, outcome),
    {
        match outcome {
            Ok(()) => WriteStep::Done,
            Err(StoreFailure::Persistent) => WriteStep::Rejected,
            Err(StoreFailure::Transient) => if attempt < self.max_retries {
                WriteStep::RetryAfter(self.backoff(attempt))
            } else {
                WriteStep::Rejected
            },
        }
    }
}

} // verus!
