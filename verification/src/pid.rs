//! Generational process identifiers handed out by a slab of slots.
//!
//! A pid packs a slot index into its low 32 bits and the slot's generation
//! into its high 32 bits. Freeing a slot bumps its generation, so a pid that
//! was freed stops naming a live process even when its slot is reused.
use vstd::prelude::*;

verus! {

/// Identifier of a process.
pub type Pid = u64;

/// Number of distinct slot indices a pid can carry.
pub open spec fn index_space() -> int {
    0x1_0000_0000
}

/// The pid naming slot `index` in generation `generation`.
pub open spec fn pid_of(index: int, generation: int) -> Pid {
    (generation * 0x1_0000_0000 + index) as u64
}

/// The slot index carried by `pid`.
pub open spec fn pid_index(pid: Pid) -> int {
    pid as int % 0x1_0000_0000
}

/// The generation carried by `pid`.
pub open spec fn pid_generation(pid: Pid) -> int {
    pid as int / 0x1_0000_0000
}

/// The generation a slot takes when it is freed (wrapping at `u32::MAX`).
pub open spec fn next_generation(g: u32) -> u32 {
    if g == u32::MAX {
        0
    } else {
        (g + 1) as u32
    }
}

/// Abstract state of a slab: each slot's `(generation, occupied)` pair and
/// the stack of free slot indices (the last one is reused first).
pub struct SlabModel {
    pub slots: Seq<(u32, bool)>,
    pub free: Seq<usize>,
}

impl SlabModel {
    /// Well-formedness: the free stack lists exactly the unoccupied slots, once each.
    pub open spec fn wf(self) -> bool {
        &&& self.slots.len() <= index_space()
        &&& self.free.no_duplicates()
        &&& forall|j: int| 0 <= j < self.free.len() ==> #[trigger] self.free[j] < self.slots.len()
        &&& forall|i: int|
            0 <= i < self.slots.len() ==> (!self.slots[i].1 <==> #[trigger] self.free.contains(
                i as usize,
            ))
    }

    /// `pid` names an occupied slot in its current generation.
    pub open spec fn live(self, pid: Pid) -> bool {
        let i = pid_index(pid);
        &&& i < self.slots.len()
        &&& self.slots[i].1
        &&& self.slots[i].0 == pid_generation(pid)
    }

    /// There is room for one more process: a freed slot, or a fresh index below 2^32.
    pub open spec fn can_allocate(self) -> bool {
        self.free.len() > 0 || self.slots.len() < index_space()
    }

    /// Allocation: reuse the most recently freed slot, else append a slot of generation 1.
    pub open spec fn allocate(self) -> (SlabModel, Pid) {
        if self.free.len() > 0 {
            let idx = self.free.last();
            let g = self.slots[idx as int].0;
            (
                SlabModel { slots: self.slots.update(idx as int, (g, true)), free: self.free.drop_last() },
                pid_of(idx as int, g as int),
            )
        } else {
            (
                SlabModel { slots: self.slots.push((1u32, true)), free: self.free },
                pid_of(self.slots.len() as int, 1),
            )
        }
    }

    /// Deallocation: a live pid frees its slot and bumps the slot's generation;
    /// any other pid leaves the slab unchanged and reports `false`.
    pub open spec fn deallocate(self, pid: Pid) -> (SlabModel, bool) {
        if self.live(pid) {
            let i = pid_index(pid);
            let g = self.slots[i].0;
            (
                SlabModel {
                    slots: self.slots.update(i, (next_generation(g), false)),
                    free: self.free.push(i as usize),
                },
                true,
            )
        } else {
            (self, false)
        }
    }
}

#[derive(Clone, Copy)]
struct Entry {
    generation: u32,
    occupied: bool,
}

/// Small slab allocator that produces generational `Pid` values.
///
/// PID layout: [ generation: u32 | index: u32 ]
pub struct SlabAllocator {
    entries: Vec<Entry>,
    free_list: Vec<usize>,
}

/// The slab that entries and a free list stand for.
spec fn model_of(entries: Seq<Entry>, free: Seq<usize>) -> SlabModel {
    SlabModel { slots: entries.map_values(|e: Entry| (e.generation, e.occupied)), free }
}

impl View for SlabAllocator {
    type V = SlabModel;

    closed spec fn view(&self) -> SlabModel {
        model_of(self.entries@, self.free_list@)
    }
}

impl SlabAllocator {
    /// The free list lists exactly the unoccupied slots, once each.
    #[verifier::type_invariant]
    spec fn inv(&self) -> bool {
        model_of(self.entries@, self.free_list@).wf()
    }

    /// An allocator with no slot.
    fn empty() -> (s: Self)
        ensures
            s@ == empty_slab(),
    {
        assert(model_of(Seq::empty(), Seq::empty()).slots =~= Seq::<(u32, bool)>::empty());
        SlabAllocator { entries: Vec::new(), free_list: Vec::new() }
    }

    /// Create an empty slab allocator.
    pub fn new() -> (s: Self)
        ensures
            s@.wf(),
            s@.slots.len() == 0,
            s@.free.len() == 0,
            s@ == empty_slab(),
    {
        let s = Self::empty();
        assert(s@.slots =~= Seq::<(u32, bool)>::empty());
        s
    }

    /// Allocate a new slot and return its `Pid`.
    pub fn allocate(&mut self) -> (pid: Pid)
        requires
            old(self)@.can_allocate(),
        ensures
            final(self)@.wf(),
            (final(self)@, pid) == old(self)@.allocate(),
    {
        proof {
            use_type_invariant(&*self);
        }
        let ghost m = self@;
        let mut taken = Self::empty();
        std::mem::swap(&mut taken, self);
        let SlabAllocator { mut entries, mut free_list } = taken;
        assert(model_of(entries@, free_list@) == m);
        let pid = if let Some(idx) = free_list.pop() {
            assert(m.free[m.free.len() - 1] == idx);
            let mut e = entries[idx];
            e.occupied = true;
            entries.set(idx, e);
            assert(model_of(entries@, free_list@).slots =~= m.slots.update(
                idx as int,
                (e.generation, true),
            ));
            make_pid(idx, e.generation)
        } else {
            let idx = entries.len();
            entries.push(Entry { generation: 1, occupied: true });
            assert(model_of(entries@, free_list@).slots =~= m.slots.push((1u32, true)));
            make_pid(idx, 1)
        };
        proof {
            lemma_allocate_wf(m);
        }
        *self = SlabAllocator { entries, free_list };
        pid
    }

    /// Deallocate a `Pid`. Returns `true` if the PID was valid and freed.
    pub fn deallocate(&mut self, pid: Pid) -> (freed: bool)
        ensures
            final(self)@.wf(),
            (final(self)@, freed) == old(self)@.deallocate(pid),
    {
        proof {
            use_type_invariant(&*self);
        }
        let ghost m = self@;
        let (idx, generation) = split_pid(pid);
        if idx >= self.entries.len() {
            return false;
        }
        let mut e = self.entries[idx];
        if !e.occupied || e.generation != generation {
            return false;
        }
        assert(m.live(pid));
        let mut taken = Self::empty();
        std::mem::swap(&mut taken, self);
        let SlabAllocator { mut entries, mut free_list } = taken;
        assert(model_of(entries@, free_list@) == m);
        e.occupied = false;
        // bump generation so stale PIDs are easily detected
        e.generation = e.generation.wrapping_add(1);
        assert(e.generation == next_generation(m.slots[idx as int].0));
        entries.set(idx, e);
        free_list.push(idx);
        assert(model_of(entries@, free_list@).slots =~= m.slots.update(
            idx as int,
            (e.generation, false),
        ));
        assert(model_of(entries@, free_list@) == m.deallocate(pid).0);
        proof {
            lemma_deallocate_wf(m, pid);
        }
        *self = SlabAllocator { entries, free_list };
        true
    }

    /// Whether `allocate` can hand out one more pid: a freed slot is
    /// available, or a fresh index still fits in 32 bits.
    pub fn can_allocate(&self) -> (b: bool)
        ensures
            b == self@.can_allocate(),
    {
        self.free_list.len() > 0 || (self.entries.len() as u64) < 0x1_0000_0000u64
    }

    /// Check whether the pid currently refers to a live allocated slot.
    pub fn is_valid(&self, pid: Pid) -> (valid: bool)
        ensures
            valid == self@.live(pid),
    {
        let (idx, generation) = split_pid(pid);
        idx < self.entries.len() && self.entries[idx].occupied && self.entries[idx].generation
            == generation
    }
}

/// Pack a slot index and a generation into a pid.
pub fn make_pid(index: usize, generation: u32) -> (pid: Pid)
    requires
        index < 0x1_0000_0000,
    ensures
        pid == pid_of(index as int, generation as int),
{
    let i = index as u64;
    let g = generation as u64;
    assert((g << 32u64) | i == g * 0x1_0000_0000 + i) by (bit_vector)
        requires
            g < 0x1_0000_0000,
            i < 0x1_0000_0000,
    ;
    (g << 32u64) | i
}

/// Split a pid into its slot index and generation.
pub fn split_pid(pid: Pid) -> (parts: (usize, u32))
    ensures
        parts.0 == pid_index(pid),
        parts.1 == pid_generation(pid),
{
    let lo = pid & 0xffff_ffffu64;
    let hi = pid >> 32u64;
    assert(lo == pid % 0x1_0000_0000 && lo < 0x1_0000_0000) by (bit_vector)
        requires
            lo == pid & 0xffff_ffffu64,
    ;
    assert(hi == pid / 0x1_0000_0000 && hi < 0x1_0000_0000) by (bit_vector)
        requires
            hi == pid >> 32u64,
    ;
    (lo as usize, hi as u32)
}

/// Unpacking a packed index and generation gives them back.
pub proof fn lemma_pid_parts(index: int, generation: int)
    requires
        0 <= index < index_space(),
        0 <= generation < index_space(),
    ensures
        pid_index(pid_of(index, generation)) == index,
        pid_generation(pid_of(index, generation)) == generation,
{
    assert(0 <= generation * 0x1_0000_0000 + index < 0x1_0000_0000_0000_0000) by (nonlinear_arith)
        requires
            0 <= index < 0x1_0000_0000,
            0 <= generation < 0x1_0000_0000,
    ;
    assert((generation * 0x1_0000_0000 + index) % 0x1_0000_0000 == index) by (nonlinear_arith)
        requires
            0 <= index < 0x1_0000_0000,
            0 <= generation,
    ;
    assert((generation * 0x1_0000_0000 + index) / 0x1_0000_0000 == generation) by (nonlinear_arith)
        requires
            0 <= index < 0x1_0000_0000,
            0 <= generation,
    ;
}

/// Two pids with the same index and generation are the same pid.
pub proof fn lemma_pid_determined(p: Pid, q: Pid)
    requires
        pid_index(p) == pid_index(q),
        pid_generation(p) == pid_generation(q),
    ensures
        p == q,
{
    assert(p as int == pid_generation(p) * 0x1_0000_0000 + pid_index(p)) by (nonlinear_arith);
    assert(q as int == pid_generation(q) * 0x1_0000_0000 + pid_index(q)) by (nonlinear_arith);
}

/// Allocation hands out a pid that was not live, makes it live, and leaves
/// the liveness of every other pid unchanged.
pub proof fn lemma_allocate_fresh(m: SlabModel)
    requires
        m.wf(),
        m.can_allocate(),
    ensures
        ({
            let (m2, p) = m.allocate();
            &&& m2.live(p)
            &&& !m.live(p)
            &&& forall|q: Pid| q != p ==> (#[trigger] m2.live(q) == m.live(q))
        }),
{
    let (m2, p) = m.allocate();
    let idx: int = if m.free.len() > 0 { m.free.last() as int } else { m.slots.len() as int };
    if m.free.len() > 0 {
        assert(m.free.contains(m.free.last()));
        assert(m.free[m.free.len() - 1] < m.slots.len());
        assert(m.free.contains(idx as usize));
        assert(!m.slots[idx].1);
    }
    lemma_pid_parts(idx, m2.slots[idx].0 as int);
    assert(pid_index(p) == idx);
    assert(m2.live(p));
    assert(!m.live(p));
    assert forall|q: Pid| q != p implies (#[trigger] m2.live(q) == m.live(q)) by {
        if pid_index(q) == idx {
            if m2.live(q) || m.live(q) {
                if pid_generation(q) == m2.slots[idx].0 as int {
                    lemma_pid_determined(p, q);
                }
            }
        } else {
            if 0 <= pid_index(q) < m.slots.len() {
                assert(m2.slots[pid_index(q)] == m.slots[pid_index(q)]);
            }
        }
    }
}

/// Freeing a live pid succeeds, makes it stale, and leaves every other pid as it was.
pub proof fn lemma_deallocate_live(m: SlabModel, p: Pid)
    requires
        m.wf(),
        m.live(p),
    ensures
        ({
            let (m2, freed) = m.deallocate(p);
            &&& freed
            &&& !m2.live(p)
            &&& forall|q: Pid| q != p ==> (#[trigger] m2.live(q) == m.live(q))
        }),
{
    let (m2, freed) = m.deallocate(p);
    let i = pid_index(p);
    assert forall|q: Pid| q != p implies (#[trigger] m2.live(q) == m.live(q)) by {
        if pid_index(q) == i {
            if m.live(q) {
                lemma_pid_determined(p, q);
            }
        } else {
            if 0 <= pid_index(q) < m.slots.len() {
                assert(m2.slots[pid_index(q)] == m.slots[pid_index(q)]);
            }
        }
    }
}

/// Freeing the same pid twice: the second call reports `false` and changes nothing.
pub proof fn lemma_double_free(m: SlabModel, p: Pid)
    requires
        m.wf(),
        m.live(p),
    ensures
        ({
            let (m2, first) = m.deallocate(p);
            let (m3, second) = m2.deallocate(p);
            &&& first
            &&& !second
            &&& m3 == m2
        }),
{
    lemma_deallocate_live(m, p);
}

/// Freeing a pid and allocating again reuses its slot under a different pid:
/// the new pid is live and the freed one stays stale.
pub proof fn lemma_reuse_gives_new_pid(m: SlabModel, p: Pid)
    requires
        m.wf(),
        m.live(p),
    ensures
        ({
            let (m2, _freed) = m.deallocate(p);
            let (m3, q) = m2.allocate();
            &&& m2.can_allocate()
            &&& q != p
            &&& m3.live(q)
            &&& !m3.live(p)
        }),
{
    let (m2, _freed) = m.deallocate(p);
    let (m3, q) = m2.allocate();
    let i = pid_index(p);
    let g = m.slots[i].0;
    assert(m2.free.last() == i as usize);
    assert(q == pid_of(i, next_generation(g) as int));
    lemma_pid_parts(i, next_generation(g) as int);
    assert(pid_generation(q) != pid_generation(p));
    assert(m3.slots[i] == (next_generation(g), true));
}

/// Allocation keeps a slab well formed.
proof fn lemma_allocate_wf(m: SlabModel)
    requires
        m.wf(),
        m.can_allocate(),
    ensures
        m.allocate().0.wf(),
{
    let m2 = m.allocate().0;
    if m.free.len() > 0 {
        let idx = m.free.last();
        assert(m.free.contains(idx));
        assert(m2.free =~= m.free.drop_last());
        assert(m.free.drop_last().no_duplicates());
        assert forall|j: int| 0 <= j < m2.free.len() implies #[trigger] m2.free[j]
            < m2.slots.len() by {
            assert(m2.free[j] == m.free[j]);
        }
        assert forall|i: int| 0 <= i < m2.slots.len() implies (!m2.slots[i].1
            <==> #[trigger] m2.free.contains(i as usize)) by {
            if i == idx {
                if m2.free.contains(idx) {
                    let k = choose|k: int| 0 <= k < m2.free.len() && m2.free[k] == idx;
                    assert(m.free[k] == m.free[m.free.len() - 1]);
                }
            } else {
                assert(m2.slots[i] == m.slots[i]);
                if m.free.contains(i as usize) {
                    let k = choose|k: int| 0 <= k < m.free.len() && m.free[k] == i as usize;
                    assert(k != m.free.len() - 1);
                    assert(m2.free[k] == i as usize);
                }
            }
        }
    } else {
        assert forall|i: int| 0 <= i < m2.slots.len() implies (!m2.slots[i].1
            <==> #[trigger] m2.free.contains(i as usize)) by {
            if i < m.slots.len() {
                assert(m2.slots[i] == m.slots[i]);
            }
        }
    }
}

/// Deallocation keeps a slab well formed.
proof fn lemma_deallocate_wf(m: SlabModel, p: Pid)
    requires
        m.wf(),
    ensures
        m.deallocate(p).0.wf(),
{
    if m.live(p) {
        let m2 = m.deallocate(p).0;
        let idx = pid_index(p);
        assert(!m.free.contains(idx as usize));
        assert forall|a: int, b: int| 0 <= a < m2.free.len() && 0 <= b < m2.free.len() && a != b
            implies m2.free[a] != m2.free[b] by {
            if a < m.free.len() && b < m.free.len() {
            } else if a < m.free.len() {
                assert(m.free.contains(m2.free[a]));
            } else {
                assert(m.free.contains(m2.free[b]));
            }
        }
        assert forall|j: int| 0 <= j < m2.free.len() implies #[trigger] m2.free[j]
            < m2.slots.len() by {
            if j < m.free.len() {
                assert(m2.free[j] == m.free[j]);
            }
        }
        assert forall|i: int| 0 <= i < m2.slots.len() implies (!m2.slots[i].1
            <==> #[trigger] m2.free.contains(i as usize)) by {
            if i != idx {
                assert(m2.slots[i] == m.slots[i]);
                if m.free.contains(i as usize) {
                    let k = choose|k: int| 0 <= k < m.free.len() && m.free[k] == i as usize;
                    assert(m2.free[k] == i as usize);
                }
                if m2.free.contains(i as usize) {
                    let k = choose|k: int| 0 <= k < m2.free.len() && m2.free[k] == i as usize;
                    assert(k < m.free.len());
                    assert(m.free[k] == i as usize);
                }
            } else {
                assert(m2.free[m.free.len() as int] == idx as usize);
            }
        }
    }
}

/// A call made on a slab allocator.
pub enum SlabOp {
    Allocate,
    Deallocate(Pid),
}

/// A slab with no slots.
pub open spec fn empty_slab() -> SlabModel {
    SlabModel { slots: Seq::empty(), free: Seq::empty() }
}

/// The slab after the calls `ops`, in order, starting from an empty one.
pub open spec fn replay(ops: Seq<SlabOp>) -> SlabModel
    decreases ops.len(),
{
    if ops.len() == 0 {
        empty_slab()
    } else {
        let m = replay(ops.drop_last());
        match ops.last() {
            SlabOp::Allocate => m.allocate().0,
            SlabOp::Deallocate(p) => m.deallocate(p).0,
        }
    }
}

/// Every allocation in `ops` is made where `allocate` allows it.
pub open spec fn allowed(ops: Seq<SlabOp>) -> bool {
    forall|i: int|
        0 <= i < ops.len() && (#[trigger] ops[i]) is Allocate ==> replay(ops.take(i)).can_allocate()
}

/// The pid the allocation at position `i` of `ops` returned.
pub open spec fn returned(ops: Seq<SlabOp>, i: int) -> Pid {
    replay(ops.take(i)).allocate().1
}

/// The call at position `j` of `ops` freed `p` and reported `true`.
pub open spec fn freed(ops: Seq<SlabOp>, j: int, p: Pid) -> bool {
    &&& ops[j] == SlabOp::Deallocate(p)
    &&& replay(ops.take(j)).deallocate(p).1
}

/// The allocation at position `i` of `ops` returned `p`, and no later call freed it.
pub open spec fn issued_at(ops: Seq<SlabOp>, i: int, p: Pid) -> bool {
    &&& 0 <= i < ops.len()
    &&& ops[i] is Allocate
    &&& returned(ops, i) == p
    &&& forall|j: int| i < j < ops.len() ==> !#[trigger] freed(ops, j, p)
}

/// `p` was returned by some allocation of `ops` and not freed since.
pub open spec fn outstanding(ops: Seq<SlabOp>, p: Pid) -> bool {
    exists|i: int| #[trigger] issued_at(ops, i, p)
}

/// A last call that neither hands out `p` nor frees it leaves `p` as
/// outstanding as it was before.
proof fn lemma_outstanding_unaffected(ops: Seq<SlabOp>, p: Pid)
    requires
        ops.len() > 0,
        !(ops.last() is Allocate && returned(ops, ops.len() - 1) == p),
        !freed(ops, ops.len() - 1, p),
    ensures
        outstanding(ops, p) == outstanding(ops.drop_last(), p),
{
    let n = ops.len() as int;
    let init = ops.drop_last();
    assert forall|i: int| 0 <= i <= n - 1 implies #[trigger] ops.take(i) == init.take(i) by {
        assert(ops.take(i) =~= init.take(i));
    }
    if outstanding(ops, p) {
        let i = choose|i: int| #[trigger] issued_at(ops, i, p);
        assert(ops[n - 1] == ops.last());
        assert(i < n - 1);
        assert(ops.take(i) == init.take(i));
        assert(init[i] == ops[i]);
        assert forall|j: int| i < j < init.len() implies !#[trigger] freed(init, j, p) by {
            assert(ops.take(j) == init.take(j));
            assert(init[j] == ops[j]);
            assert(!freed(ops, j, p));
        }
        assert(issued_at(init, i, p));
    }
    if outstanding(init, p) {
        let i = choose|i: int| #[trigger] issued_at(init, i, p);
        assert(ops.take(i) == init.take(i));
        assert(init[i] == ops[i]);
        assert forall|j: int| i < j < ops.len() implies !#[trigger] freed(ops, j, p) by {
            if j < n - 1 {
                assert(ops.take(j) == init.take(j));
                assert(init[j] == ops[j]);
                assert(!freed(init, j, p));
            } else {
                assert(ops[n - 1] == ops.last());
            }
        }
        assert(issued_at(ops, i, p));
    }
}

/// Starting from an empty allocator, after any sequence of calls in which
/// every allocation was allowed, the slab is well formed and a pid is valid
/// exactly when some allocation returned it and no deallocation has freed
/// it since (the validity `is_valid` reports).
pub proof fn lemma_valid_means_outstanding(ops: Seq<SlabOp>, p: Pid)
    requires
        allowed(ops),
    ensures
        replay(ops).wf(),
        replay(ops).live(p) == outstanding(ops, p),
    decreases ops.len(),
{
    if ops.len() == 0 {
        assert(!outstanding(ops, p));
        return;
    }
    let n = ops.len() as int;
    let init = ops.drop_last();
    assert(ops.take(n - 1) =~= init);
    assert(ops[n - 1] == ops.last());
    assert forall|i: int| 0 <= i < init.len() && (#[trigger] init[i]) is Allocate implies replay(
        init.take(i),
    ).can_allocate() by {
        assert(ops.take(i) =~= init.take(i));
        assert(ops[i] == init[i]);
    }
    lemma_valid_means_outstanding(init, p);
    let m = replay(init);
    match ops.last() {
        SlabOp::Allocate => {
            assert(m.can_allocate());
            lemma_allocate_wf(m);
            lemma_allocate_fresh(m);
            let q = returned(ops, n - 1);
            assert(q == m.allocate().1);
            if p == q {
                assert(issued_at(ops, n - 1, p));
            } else {
                lemma_outstanding_unaffected(ops, p);
            }
        },
        SlabOp::Deallocate(d) => {
            lemma_deallocate_wf(m, d);
            if m.live(d) {
                lemma_deallocate_live(m, d);
            }
            if freed(ops, n - 1, p) {
                assert(p == d);
                assert forall|i: int| !#[trigger] issued_at(ops, i, p) by {
                    if 0 <= i < n && ops[i] is Allocate {
                        assert(i < n - 1);
                        assert(freed(ops, n - 1, p));
                    }
                }
            } else {
                lemma_outstanding_unaffected(ops, p);
            }
        },
    }
}

} // verus!
