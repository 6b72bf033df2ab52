//! Registry of zero-initialised byte buffers that a foreign caller fills in
//! place and then hands over (for example, to be sent as a message).
//!
//! The bytes themselves may be written in place by a foreign caller that the
//! runtime gave a buffer's address to, so the contracts here speak of which
//! identifiers are registered and how long their buffers are, never of the
//! bytes a buffer holds.
use std::collections::HashMap;
use vstd::prelude::*;

verus! {

broadcast use vstd::std_specs::hash::group_hash_axioms;

/// Identifier of a registered buffer.
pub type BufferId = u64;

/// The identifier handed out after `id` (wrapping around at `u64::MAX`).
pub open spec fn next_id(id: BufferId) -> BufferId {
    if id == u64::MAX {
        0
    } else {
        (id + 1) as u64
    }
}

/// Buffers keyed by identifier, and the identifier the next allocation gets.
pub struct BufferRegistry {
    inner: HashMap<BufferId, Vec<u8>>,
    next: BufferId,
}

impl BufferRegistry {
    /// The registered identifiers and the length of each one's buffer.
    pub closed spec fn lens(&self) -> Map<BufferId, nat> {
        self.inner@.map_values(|v: Vec<u8>| v@.len())
    }

    /// The identifier the next allocation gets.
    pub closed spec fn next(&self) -> BufferId {
        self.next
    }

    /// An empty registry whose first identifier is 1.
    pub fn new() -> (r: Self)
        ensures
            r.lens() == Map::<BufferId, nat>::empty(),
            r.next() == 1,
    {
        let r = BufferRegistry { inner: HashMap::new(), next: 1 };
        assert(r.lens() =~= Map::<BufferId, nat>::empty());
        r
    }

    /// Register a new buffer of `size` zero bytes and return its identifier.
    pub fn allocate(&mut self, size: usize) -> (id: BufferId)
        ensures
            id == old(self).next(),
            final(self).next() == next_id(old(self).next()),
            final(self).lens() == old(self).lens().insert(id, size as nat),
    {
        let id = self.next;
        self.next = if self.next == u64::MAX {
            0
        } else {
            self.next + 1
        };
        let buf = vec![0u8; size];
        self.inner.insert(id, buf);
        assert(self.lens() =~= old(self).lens().insert(id, size as nat));
        id
    }

    /// The length of the buffer registered under `id`, if any. The registry
    /// hands out no addresses: the bytes are reached by `take`.
    pub fn ptr_len(&self, id: BufferId) -> (len: Option<usize>)
        ensures
            len == (if self.lens().contains_key(id) {
                Some(self.lens()[id] as usize)
            } else {
                None
            }),
    {
        match self.inner.get(&id) {
            Some(v) => Some(v.len()),
            None => None,
        }
    }

    /// Take ownership of the buffer, removing it from the registry.
    pub fn take(&mut self, id: BufferId) -> (buf: Option<Vec<u8>>)
        ensures
            final(self).lens() == old(self).lens().remove(id),
            final(self).next() == old(self).next(),
            old(self).lens().contains_key(id) ==> (buf matches Some(b) && b@.len() == old(self).lens()[id]),
            !old(self).lens().contains_key(id) ==> buf is None,
    {
        let r = self.inner.remove(&id);
        assert(self.lens() =~= old(self).lens().remove(id));
        r
    }

    /// Put a buffer (back) under `id`, replacing any buffer held there.
    pub fn restore(&mut self, id: BufferId, buf: Vec<u8>)
        ensures
            final(self).lens() == old(self).lens().insert(id, buf@.len()),
            final(self).next() == old(self).next(),
    {
        let ghost n = buf@.len();
        self.inner.insert(id, buf);
        assert(self.lens() =~= old(self).lens().insert(id, n));
    }

    /// Free buffer without taking it.
    pub fn free(&mut self, id: BufferId)
        ensures
            final(self).lens() == old(self).lens().remove(id),
            final(self).next() == old(self).next(),
    {
        self.inner.remove(&id);
        assert(self.lens() =~= old(self).lens().remove(id));
    }
}

/// A buffer taken right after it was allocated holds `size` bytes, and a
/// second take of the same identifier finds nothing.
pub proof fn lemma_take_after_allocate(lens: Map<BufferId, nat>, id: BufferId, size: nat)
    ensures
        lens.insert(id, size).contains_key(id),
        lens.insert(id, size)[id] == size,
        !lens.insert(id, size).remove(id).contains_key(id),
{
}

/// Every registered identifier is one already handed out: between 1 and
/// the counter, the counter excluded.
pub open spec fn ids_below(lens: Map<BufferId, nat>, next: BufferId) -> bool {
    forall|k: BufferId| #[trigger] lens.contains_key(k) ==> 1 <= k < next
}

/// Identifiers count up by one from 1, so until the counter wraps an
/// allocation never reuses an identifier that is still registered: a new
/// registry has every registered identifier below its counter, allocating
/// (below `u64::MAX`), taking, freeing and putting a buffer back under an
/// identifier already handed out keep it so, and under it the
/// identifier an allocation hands out is not registered.
pub proof fn lemma_ids_are_fresh(lens: Map<BufferId, nat>, next: BufferId, size: nat, gone: BufferId)
    ensures
        ids_below(Map::<BufferId, nat>::empty(), 1),
        next < u64::MAX ==> next_id(next) == next + 1,
        ids_below(lens, next) ==> !lens.contains_key(next),
        ids_below(lens, next) && 1 <= next < u64::MAX ==> ids_below(lens.insert(next, size), next_id(next)),
        ids_below(lens, next) ==> ids_below(lens.remove(gone), next),
        ids_below(lens, next) && 1 <= gone < next ==> ids_below(lens.insert(gone, size), next),
{
}

} // verus!
