//! The evaluation budget: a counter of fitness evaluations with a fixed ceiling.

use vstd::prelude::*;

verus! {

/// How many claims have succeeded after `attempts` calls of `try_claim` on a
/// fresh budget with the given ceiling.
pub open spec fn used_after_attempts(ceiling: nat, attempts: nat) -> nat
    decreases attempts,
{
    if attempts == 0 {
        0
    } else {
        let u = used_after_attempts(ceiling, (attempts - 1) as nat);
        if u < ceiling {
            u + 1
        } else {
            u
        }
    }
}

/// The count after `n` more attempts on a budget that has counted `used`:
/// each attempt succeeds while the count is below the ceiling.
pub open spec fn count_after(used: nat, n: nat, ceiling: nat) -> nat {
    if used + n <= ceiling {
        used + n
    } else {
        ceiling
    }
}

/// A counter of evaluations that never passes its ceiling.
///
/// Once the counter reaches the ceiling every further claim fails, and the
/// caller must not perform the evaluation it was about to make.
pub struct EvaluationBudget {
    used: usize,
    ceiling: usize,
}

impl EvaluationBudget {
    /// Number of successful claims so far.
    pub closed spec fn spec_used(&self) -> nat {
        self.used as nat
    }

    /// The fixed ceiling.
    pub closed spec fn spec_ceiling(&self) -> nat {
        self.ceiling as nat
    }

    /// The counter never exceeds the ceiling.
    pub open spec fn wf(&self) -> bool {
        self.spec_used() <= self.spec_ceiling()
    }

    /// A fresh budget that allows `ceiling` evaluations.
    pub fn new(ceiling: usize) -> (r: Self)
        ensures
            r.wf(),
            r.spec_used() == 0,
            r.spec_ceiling() == ceiling,
    {
        EvaluationBudget { used: 0, ceiling }
    }

    /// Claims one evaluation. Succeeds exactly when the count was below the
    /// ceiling, and then counts the claim.
    pub fn try_claim(&mut self) -> (r: bool)
        requires
            old(self).wf(),
        ensures
            final(self).wf(),
            r == (old(self).spec_used() < old(self).spec_ceiling()),
            final(self).spec_ceiling() == old(self).spec_ceiling(),
            final(self).spec_used() == if r {
                old(self).spec_used() + 1
            } else {
                old(self).spec_used()
            },
    {
        if self.used < self.ceiling {
            self.used = self.used + 1;
            true
        } else {
            false
        }
    }

    /// Number of successful claims so far.
    pub fn used(&self) -> (r: usize)
        ensures
            r == self.spec_used(),
    {
        self.used
    }

    /// The fixed ceiling.
    pub fn ceiling(&self) -> (r: usize)
        ensures
            r == self.spec_ceiling(),
    {
        self.ceiling
    }

    /// Evaluations still allowed.
    pub fn remaining(&self) -> (r: usize)
        requires
            self.wf(),
        ensures
            r == self.spec_ceiling() - self.spec_used(),
    {
        self.ceiling - self.used
    }

    /// Whether every further claim fails.
    pub fn is_exhausted(&self) -> (r: bool)
        ensures
            r == (self.spec_used() >= self.spec_ceiling()),
    {
        self.used >= self.ceiling
    }
}

/// Budget exactness: after any number of attempts on a fresh budget, the
/// number of successful claims is the smaller of the ceiling and the number
/// of attempts, so it never exceeds the ceiling.
pub proof fn lemma_claims_exact(ceiling: nat, attempts: nat)
    ensures
        used_after_attempts(ceiling, attempts) == if attempts < ceiling {
            attempts
        } else {
            ceiling
        },
        used_after_attempts(ceiling, attempts) <= ceiling,
    decreases attempts,
{
    if attempts > 0 {
        lemma_claims_exact(ceiling, (attempts - 1) as nat);
    }
}

} // verus!
