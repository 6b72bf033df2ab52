//! Pending timers: each scheduled delayed or repeated send gets an id under
//! which it can be cancelled until it finishes.
use std::collections::HashMap;
use vstd::prelude::*;

verus! {

broadcast use vstd::std_specs::hash::group_hash_axioms;

/// The pending timers, each with the handle that cancels it, and the last
/// id handed out.
pub struct TimerTable<T> {
    pending: HashMap<u64, T>,
    counter: u64,
}

impl<T> TimerTable<T> {
    /// Pending timers by id.
    pub closed spec fn pending(&self) -> Map<u64, T> {
        self.pending@
    }

    /// The last id handed out (0 before the first).
    pub closed spec fn counter(&self) -> u64 {
        self.counter
    }

    /// Every pending id was handed out already.
    #[verifier::type_invariant]
    spec fn wf(&self) -> bool {
        forall|id: u64| #[trigger] self.pending@.contains_key(id) ==> 1 <= id <= self.counter
    }

    /// The last id handed out (0 before the first).
    pub fn last_id(&self) -> (id: u64)
        ensures
            id == self.counter(),
    {
        self.counter
    }

    /// No timer yet.
    pub fn new() -> (t: Self)
        ensures
            t.pending() == Map::<u64, T>::empty(),
            t.counter() == 0,
    {
        TimerTable { pending: HashMap::new(), counter: 0 }
    }

    /// Register a timer under a fresh id (one more than the last) and return the id.
    pub fn schedule(&mut self, cancel: T) -> (id: u64)
        requires
            old(self).counter() < u64::MAX,
        ensures
            id == old(self).counter() + 1,
            final(self).counter() == id,
            !old(self).pending().contains_key(id),
            final(self).pending() == old(self).pending().insert(id, cancel),
    {
        proof {
            use_type_invariant(&*self);
        }
        let id = self.counter + 1;
        self.counter = id;
        let mut pending = HashMap::new();
        std::mem::swap(&mut pending, &mut self.pending);
        pending.insert(id, cancel);
        assert forall|k: u64| #[trigger] pending@.contains_key(k) implies 1 <= k <= id by {
            if k != id {
                assert(old(self).pending().contains_key(k));
            }
        }
        self.pending = pending;
        id
    }

    /// Take a timer out, either to cancel it or because it finished. Gives
    /// its cancel handle when it was pending.
    pub fn take(&mut self, id: u64) -> (cancel: Option<T>)
        ensures
            final(self).counter() == old(self).counter(),
            final(self).pending() == old(self).pending().remove(id),
            old(self).pending().contains_key(id) ==> cancel == Some(old(self).pending()[id]),
            !old(self).pending().contains_key(id) ==> cancel is None,
    {
        proof {
            use_type_invariant(&*self);
        }
        let mut pending = HashMap::new();
        std::mem::swap(&mut pending, &mut self.pending);
        let r = pending.remove(&id);
        assert forall|k: u64| #[trigger] pending@.contains_key(k) implies 1 <= k <= self.counter by {
            assert(old(self).pending().contains_key(k));
        }
        self.pending = pending;
        r
    }
}

/// A timer can be cancelled once: the first take after scheduling finds it,
/// a second one finds nothing.
pub proof fn lemma_cancel_once<T>(pending: Map<u64, T>, id: u64, cancel: T)
    ensures
        pending.insert(id, cancel).contains_key(id),
        pending.insert(id, cancel)[id] == cancel,
        !pending.insert(id, cancel).remove(id).contains_key(id),
{
}

} // verus!
