//! Cooperative preemption: a reduction budget for a polled computation.
//!
//! The limiter counts how many times the wrapped future has been polled in a
//! row; once the budget is spent it refuses one poll (the caller then wakes
//! itself and yields) and starts counting again.
use vstd::prelude::*;

verus! {

/// The budget actually used for a requested budget: at least 1.
pub open spec fn effective_budget(budget: usize) -> usize {
    if budget == 0 {
        1
    } else {
        budget
    }
}

/// One poll request: the new count and whether the inner future is polled,
/// after `polled` polls in a row under `budget`.
pub open spec fn poll_step(polled: usize, budget: usize) -> (usize, bool) {
    if polled >= budget {
        (0, false)
    } else {
        ((polled + 1) as usize, true)
    }
}

/// Polls made in a row, and how many are allowed.
struct PollCount {
    budget: usize,
    polled: usize,
}

impl PollCount {
    /// The count stays within a budget of at least 1.
    #[verifier::type_invariant]
    spec fn wf(&self) -> bool {
        1 <= self.budget && self.polled <= self.budget
    }

    /// Count one poll request, as `poll_step` says.
    fn take_turn(&mut self) -> (go: bool)
        ensures
            (final(self).polled, go) == poll_step(old(self).polled, old(self).budget),
            final(self).budget == old(self).budget,
    {
        proof {
            use_type_invariant(&*self);
        }
        if self.polled >= self.budget {
            self.polled = 0;
            return false;
        }
        self.polled = self.polled + 1;
        true
    }
}

/// A very small wrapper that counts how many times the inner future has been polled
/// and forces a yield when the configured budget is reached.
pub struct ReductionLimiter<F> {
    inner: F,
    count: PollCount,
}

impl<F> ReductionLimiter<F> {
    /// The wrapped computation.
    pub closed spec fn inner(&self) -> F {
        self.inner
    }

    /// Polls allowed in a row.
    pub closed spec fn budget(&self) -> usize {
        self.count.budget
    }

    /// Polls made in a row so far.
    pub closed spec fn polled(&self) -> usize {
        self.count.polled
    }

    /// Wrap a future with a reduction `budget`.
    pub fn new(inner: F, budget: usize) -> (r: Self)
        ensures
            r.inner() == inner,
            r.budget() == effective_budget(budget),
            budget >= 1 ==> r.budget() == budget,
            budget == 0 ==> r.budget() == 1,
            r.polled() == 0,
    {
        // enforce a minimum budget of 1 to avoid degenerate behavior
        let budget = if budget == 0 {
            1
        } else {
            budget
        };
        ReductionLimiter { inner, count: PollCount { budget, polled: 0 } }
    }

    /// Ask to poll the inner future: `true` to go ahead (the poll is
    /// counted), `false` when the budget is spent (the count restarts and the
    /// caller is to yield instead).
    pub fn admit_poll(&mut self) -> (go: bool)
        ensures
            (final(self).polled(), go) == poll_step(old(self).polled(), old(self).budget()),
            final(self).budget() == old(self).budget(),
            final(self).inner() == old(self).inner(),
    {
        self.count.take_turn()
    }

    /// The wrapped future, to poll it.
    pub fn inner_mut(&mut self) -> (r: &mut F)
        ensures
            *r == old(self).inner(),
            final(self).inner() == *final(r),
            final(self).budget() == old(self).budget(),
            final(self).polled() == old(self).polled(),
    {
        &mut self.inner
    }
}

/// Fairness: with a budget of `b`, the inner future is polled `b` times in a
/// row, then one poll is refused and the count starts over.
pub proof fn lemma_budget_forces_yield(b: usize, k: usize)
    requires
        b >= 1,
    ensures
        k < b ==> poll_step(k, b) == ((k + 1) as usize, true),
        poll_step(b, b) == (0usize, false),
{
}

/// A limiter made with a budget of `b` lets the inner future be polled
/// exactly `b` times in a row (once when `b` is 0) before it refuses a poll:
/// the requested budget is kept as given, only 0 is raised to 1.
pub proof fn lemma_requested_budget_kept(b: usize, k: usize)
    ensures
        b >= 1 ==> effective_budget(b) == b,
        effective_budget(0) == 1,
        k < b ==> poll_step(k, effective_budget(b)) == ((k + 1) as usize, true),
        b >= 1 ==> poll_step(b, effective_budget(b)) == (0usize, false),
{
}

} // verus!
