//! Where a foreign push-actor handler runs each message it is sent.
//!
//! A handler that releases the interpreter lock either owns a dedicated
//! worker thread, or, once the number of such threads reaches its limit,
//! shares a pool of workers. A handler that keeps the lock runs inline.
use crate::mailbox::{Message, SystemMessage};
use vstd::prelude::*;

verus! {

/// Where one message of a push-actor handler is handled.
#[derive(Debug, Clone, Copy, PartialEq, Eq, Structural)]
pub enum Route {
    /// Hand it to the handler's dedicated worker thread.
    Forward,
    /// Hand it to the shared worker pool.
    Pool,
    /// Handle it on the actor's own task.
    Inline,
    /// The actor was told that a linked actor exited: let go of this
    /// message's handle on the worker channel.
    Exit,
    /// Nothing to do (heartbeats).
    Ignore,
}

/// The route of `m` for a handler that has a dedicated worker (`dedicated`),
/// that releases the interpreter lock (`release`), when the shared pool is
/// running (`pool`). User payloads and hot swaps go to the dedicated worker
/// if there is one, else to the pool when releasing the lock and the pool
/// runs, else inline.
pub open spec fn route_of(m: Message, dedicated: bool, release: bool, pool: bool) -> Route {
    match m {
        Message::User(_) | Message::System(SystemMessage::HotSwap(_)) => if dedicated {
            Route::Forward
        } else if release && pool {
            Route::Pool
        } else {
            Route::Inline
        },
        Message::System(SystemMessage::Exit(_)) => Route::Exit,
        Message::System(SystemMessage::Ping) | Message::System(SystemMessage::Pong) => Route::Ignore,
    }
}

/// A user payload or a hot swap is always run somewhere, never dropped: on
/// the dedicated worker exactly when there is one, on the shared pool
/// exactly when there is none but the lock is released and the pool runs,
/// and inline otherwise (in particular, by a handler that keeps the lock).
pub proof fn lemma_payloads_always_run(m: Message, dedicated: bool, release: bool, pool: bool)
    requires
        m is User || (m matches Message::System(s) && s is HotSwap),
    ensures
        route_of(m, dedicated, release, pool) != Route::Ignore,
        route_of(m, dedicated, release, pool) != Route::Exit,
        (route_of(m, dedicated, release, pool) == Route::Forward) == dedicated,
        (route_of(m, dedicated, release, pool) == Route::Pool) == (!dedicated && release && pool),
        (route_of(m, dedicated, release, pool) == Route::Inline) == (!dedicated && !(release && pool)),
{
}

/// An exit notice always ends the handler's use of its worker, and
/// heartbeats are always ignored, whatever the handler's placement.
pub proof fn lemma_system_routes(m: Message, dedicated: bool, release: bool, pool: bool)
    ensures
        (m matches Message::System(s) && s is Exit) ==> route_of(m, dedicated, release, pool) == Route::Exit,
        (m matches Message::System(s) && (s is Ping || s is Pong)) ==> route_of(m, dedicated, release, pool)
            == Route::Ignore,
{
}

/// Decide where a handler runs `m`.
pub fn route(m: &Message, dedicated: bool, release: bool, pool: bool) -> (r: Route)
    ensures
        r == route_of(*m, dedicated, release, pool),
{
    match m {
        Message::User(_) | Message::System(SystemMessage::HotSwap(_)) => {
            if dedicated {
                Route::Forward
            } else if release && pool {
                Route::Pool
            } else {
                Route::Inline
            }
        },
        Message::System(SystemMessage::Exit(_)) => Route::Exit,
        Message::System(SystemMessage::Ping) | Message::System(SystemMessage::Pong) => Route::Ignore,
    }
}

/// Counts the dedicated worker threads running.
pub struct ThreadQuota {
    active: usize,
}

impl ThreadQuota {
    /// Dedicated workers running.
    pub closed spec fn active(&self) -> usize {
        self.active
    }

    /// No worker running.
    pub fn new() -> (q: Self)
        ensures
            q.active() == 0,
    {
        ThreadQuota { active: 0 }
    }

    /// Try to start one more dedicated worker under the limit `max`: granted
    /// while fewer than `max` run; a refused handler uses the shared pool.
    pub fn try_acquire(&mut self, max: usize) -> (granted: bool)
        ensures
            granted == (old(self).active() < max),
            granted ==> final(self).active() == old(self).active() + 1,
            !granted ==> final(self).active() == old(self).active(),
    {
        if self.active >= max {
            return false;
        }
        self.active = self.active + 1;
        true
    }

    /// Place an actor that asked for its own thread: a dedicated worker
    /// while fewer than `max` run; past the limit the shared pool, or, in
    /// strict mode, a refusal.
    pub fn place(&mut self, max: usize, strict: bool) -> (p: Placement)
        ensures
            old(self).active() < max ==> p == Placement::Dedicated && final(self).active()
                == old(self).active() + 1,
            old(self).active() >= max ==> final(self).active() == old(self).active() && p == (if strict {
                Placement::Refused
            } else {
                Placement::SharedPool
            }),
    {
        if self.try_acquire(max) {
            Placement::Dedicated
        } else if strict {
            Placement::Refused
        } else {
            Placement::SharedPool
        }
    }

    /// Dedicated workers running.
    pub fn active_count(&self) -> (n: usize)
        ensures
            n == self.active(),
    {
        self.active
    }

    /// A dedicated worker stopped.
    pub fn release(&mut self)
        requires
            old(self).active() > 0,
        ensures
            final(self).active() == old(self).active() - 1,
    {
        self.active = self.active - 1;
    }
}

/// Where a Python push actor that asked for its own thread is placed.
#[derive(Clone, Copy, Debug, PartialEq, Eq, Structural)]
pub enum Placement {
    /// On a dedicated worker thread of its own.
    Dedicated,
    /// On the shared worker pool, the thread limit being reached.
    SharedPool,
    /// Nowhere: the limit is reached and strict mode refuses the spawn.
    Refused,
}

/// A request made of a `ThreadQuota`: start a worker under a limit, or
/// report that one stopped.
pub enum QuotaRequest {
    Acquire(usize),
    Release,
}

/// The running count after `r`, as `try_acquire` and `release` state it
/// (a release with no worker running is not allowed; it leaves zero here).
pub open spec fn quota_step(active: int, r: QuotaRequest) -> int {
    match r {
        QuotaRequest::Acquire(max) => if active < max {
            active + 1
        } else {
            active
        },
        QuotaRequest::Release => if active > 0 {
            active - 1
        } else {
            active
        },
    }
}

/// The running count after the requests `rs`, in order, starting from `active`.
pub open spec fn quota_after(active: int, rs: Seq<QuotaRequest>) -> int
    decreases rs.len(),
{
    if rs.len() == 0 {
        active
    } else {
        quota_step(quota_after(active, rs.drop_last()), rs.last())
    }
}

/// However requests come, as long as every acquire names a limit of at most
/// `max`, a quota that starts within `max` never has more than `max`
/// workers running, nor fewer than none.
pub proof fn lemma_quota_respected(active: int, rs: Seq<QuotaRequest>, max: int)
    requires
        0 <= active <= max,
        forall|i: int| 0 <= i < rs.len() ==> (#[trigger] rs[i] matches QuotaRequest::Acquire(m) ==> m <= max),
    ensures
        0 <= quota_after(active, rs) <= max,
    decreases rs.len(),
{
    if rs.len() > 0 {
        let init = rs.drop_last();
        assert forall|i: int| 0 <= i < init.len() implies (#[trigger] init[i] matches QuotaRequest::Acquire(m) ==> m <= max) by {
            assert(init[i] == rs[i]);
        }
        lemma_quota_respected(active, init, max);
        assert(rs[rs.len() - 1] == rs.last());
    }
}

} // verus!
