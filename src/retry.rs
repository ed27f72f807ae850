use vstd::prelude::*;

verus! {

/// How a copy is retried: at most `max_attempts` attempts, `delay_ms`
/// milliseconds apart.
#[derive(Clone, Copy, Debug, PartialEq, Eq, Structural)]
pub struct RetryPolicy {
    pub max_attempts: u32,
    pub delay_ms: u64,
}

/// What follows a copy attempt.
#[derive(Clone, Copy, Debug, PartialEq, Eq, Structural)]
pub enum CopyStep {
    /// The copy succeeded: stop.
    Done,
    /// Wait this many milliseconds, then try again.
    RetryAfter(u64),
    /// Every attempt failed: abandon the copy.
    GiveUp,
}

/// The step after an attempt that followed `failures` failed ones.
pub open spec fn next_step(p: RetryPolicy, failures: u32, succeeded: bool) -> CopyStep {
    if succeeded {
        CopyStep::Done
    } else if failures + 1 < p.max_attempts {
        CopyStep::RetryAfter(p.delay_ms)
    } else {
        CopyStep::GiveUp
    }
}

/// The number of attempts made when the attempts turn out as `outcomes`
/// says, in order: up to the first success, and never more than the policy allows.
pub open spec fn attempts_made(p: RetryPolicy, outcomes: Seq<bool>) -> nat
    decreases outcomes.len(),
{
    if outcomes.len() == 0 || p.max_attempts == 0 {
        0
    } else if outcomes[0] || p.max_attempts == 1 {
        1
    } else {
        1 + attempts_made(
            RetryPolicy { max_attempts: (p.max_attempts - 1) as u32, ..p },
            outcomes.subrange(1, outcomes.len() as int),
        )
    }
}

impl RetryPolicy {
    /// A hundred attempts, ten milliseconds apart.
    pub fn standard() -> (r: RetryPolicy)
        ensures
            r.max_attempts == 100,
            r.delay_ms == 10,
    {
        RetryPolicy { max_attempts: 100, delay_ms: 10 }
    }

    /// Decides what follows an attempt made after `failures` failed ones.
    pub fn after_attempt(&self, failures: u32, succeeded: bool) -> (r: CopyStep)
        requires
            failures < self.max_attempts,
        ensures
            r == next_step(*self, failures, succeeded),
    {
        if succeeded {
            CopyStep::Done
        } else if failures + 1 < self.max_attempts {
            CopyStep::RetryAfter(self.delay_ms)
        } else {
            CopyStep::GiveUp
        }
    }
}

/// Following the policy's steps, a copy makes at most `max_attempts`
/// attempts, and stops at the first one that succeeds.
pub proof fn lemma_attempts_bounded(p: RetryPolicy, outcomes: Seq<bool>)
    ensures
        attempts_made(p, outcomes) <= p.max_attempts,
        attempts_made(p, outcomes) <= outcomes.len(),
        forall|i: int| 0 <= i < attempts_made(p, outcomes) - 1 ==> !outcomes[i],
    decreases outcomes.len(),
{
    if outcomes.len() > 0 && p.max_attempts > 1 && !outcomes[0] {
        let q = RetryPolicy { max_attempts: (p.max_attempts - 1) as u32, ..p };
        let rest = outcomes.subrange(1, outcomes.len() as int);
        lemma_attempts_bounded(q, rest);
        assert forall|i: int| 0 <= i < attempts_made(p, outcomes) - 1 implies !outcomes[i] by {
            if i > 0 {
                assert(outcomes[i] == rest[i - 1]);
            }
        }
    }
}

} // verus!
