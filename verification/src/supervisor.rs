//! Supervisor
//!
//! Each supervised child is registered with a `ChildSpec` (factory + restart
//! strategy). When a watched child exits the supervisor restarts the single
//! child (one-for-one) or the whole supervised group (one-for-all). The
//! supervisor also keeps bidirectional links between pids: when one side of
//! a link exits, the runtime tells the other side.
//!
//! The supervisor decides *what* to restart; calling the factories, waiting
//! between attempts and recording their outcome is done by its caller, which
//! follows the plan returned by `notify_exit` and paces retries with
//! `RestartBackoff`.
use crate::pid::Pid;
use crate::registry::same_text;
use std::collections::HashMap;
use vstd::prelude::*;
use vstd::std_specs::iter::IteratorSpec;

verus! {

broadcast use vstd::std_specs::hash::group_hash_axioms;

/// Restart strategies.
#[derive(Debug, Clone, Copy, PartialEq, Eq, Structural)]
pub enum RestartStrategy {
    /// Restart only the failed child.
    RestartOne,
    /// Restart all children supervised by this supervisor.
    RestartAll,
}

/// The strategy a lower-case name stands for: `restartone`, `restart_one`
/// or `one` for one-for-one; `restartall`, `restart_all` or `all` for
/// one-for-all.
pub open spec fn strategy_named(name: Seq<char>) -> Option<RestartStrategy> {
    if name == "restartone"@ || name == "restart_one"@ || name == "one"@ {
        Some(RestartStrategy::RestartOne)
    } else if name == "restartall"@ || name == "restart_all"@ || name == "all"@ {
        Some(RestartStrategy::RestartAll)
    } else {
        None
    }
}

/// What `str::to_lowercase` makes of a string.
pub uninterp spec fn lowercase(s: Seq<char>) -> Seq<char>;

/// `str::to_lowercase`: the string with every character in lower case; the
/// result is given the name `lowercase`.
#[verifier::external_body]
fn to_lowercase(s: &str) -> (r: String)
    ensures
        r@ == lowercase(s@),
{
    s.to_lowercase()
}

/// The strategy an already lower-cased name stands for.
pub fn strategy_from_lowercase(name: &str) -> (r: Option<RestartStrategy>)
    ensures
        r == strategy_named(name@),
{
    if same_text(name, "restartone") || same_text(name, "restart_one") || same_text(name, "one") {
        Some(RestartStrategy::RestartOne)
    } else if same_text(name, "restartall") || same_text(name, "restart_all") || same_text(
        name,
        "all",
    ) {
        Some(RestartStrategy::RestartAll)
    } else {
        None
    }
}

/// The strategy a name stands for, ignoring case.
pub fn parse_strategy(name: &str) -> (r: Option<RestartStrategy>)
    ensures
        r == strategy_named(lowercase(name@)),
{
    let lower = to_lowercase(name);
    strategy_from_lowercase(lower.as_str())
}

/// A child specification holds a factory used to (re)spawn the child and the
/// restart strategy to apply when the child exits.
///
/// The factory is fallible: it yields the new child's pid, or a message
/// saying why it could not start one.
#[derive(Clone)]
pub struct ChildSpec<F> {
    pub factory: F,
    pub strategy: RestartStrategy,
}

/// Factories that can be made to report a given pid again; `watch` uses one
/// to supervise an existing pid without a way to respawn it.
pub trait PidFactory: Sized {
    /// A factory whose every call yields `pid`.
    fn returning(pid: Pid) -> Self;
}

/// The links of `p` in `links` (none when `p` has no entry).
pub open spec fn links_of(links: Map<Pid, Seq<Pid>>, p: Pid) -> Seq<Pid> {
    if links.contains_key(p) {
        links[p]
    } else {
        Seq::empty()
    }
}

/// `s` with every occurrence of `x` removed, the rest in order.
pub open spec fn strip(s: Seq<Pid>, x: Pid) -> Seq<Pid>
    decreases s.len(),
{
    if s.len() == 0 {
        s
    } else {
        let rest = strip(s.drop_last(), x);
        if s.last() == x {
            rest
        } else {
            rest.push(s.last())
        }
    }
}

/// Links after linking `a` with `b`: each is appended to the other's list.
pub open spec fn linked(links: Map<Pid, Seq<Pid>>, a: Pid, b: Pid) -> Map<Pid, Seq<Pid>> {
    let l1 = links.insert(a, links_of(links, a).push(b));
    l1.insert(b, links_of(l1, b).push(a))
}

/// Links after unlinking `a` and `b`: each is dropped from the other's list,
/// where that list exists.
pub open spec fn unlinked(links: Map<Pid, Seq<Pid>>, a: Pid, b: Pid) -> Map<Pid, Seq<Pid>> {
    let l1 = if links.contains_key(a) {
        links.insert(a, strip(links[a], b))
    } else {
        links
    };
    if l1.contains_key(b) {
        l1.insert(b, strip(l1[b], a))
    } else {
        l1
    }
}

/// Links after `p` dies: `p`'s entry goes, and `p` is dropped from the list
/// of every pid that `p` was linked to.
pub open spec fn detached(links: Map<Pid, Seq<Pid>>, p: Pid) -> Map<Pid, Seq<Pid>> {
    if links.contains_key(p) {
        Map::new(
            |k: Pid| links.contains_key(k) && k != p,
            |k: Pid|
                if links[p].contains(k) {
                    strip(links[k], p)
                } else {
                    links[k]
                },
        )
    } else {
        links
    }
}

/// Links after the pids of `ps` die, one after the other.
pub open spec fn detached_all(links: Map<Pid, Seq<Pid>>, ps: Seq<Pid>) -> Map<Pid, Seq<Pid>>
    decreases ps.len(),
{
    if ps.len() == 0 {
        links
    } else {
        detached(detached_all(links, ps.drop_last()), ps.last())
    }
}

/// `plan` holds each child of `children` exactly once, with its spec.
pub open spec fn plan_covers<F>(plan: Seq<(Pid, ChildSpec<F>)>, children: Map<Pid, ChildSpec<F>>) -> bool {
    &&& forall|i: int|
        0 <= i < plan.len() ==> children.contains_key(#[trigger] plan[i].0) && children[plan[i].0]
            == plan[i].1
    &&& forall|k: Pid| children.contains_key(k) ==> exists|i: int| 0 <= i < plan.len() && #[trigger] plan[i].0 == k
    &&& forall|i: int, j: int| 0 <= i < j < plan.len() ==> plan[i].0 != plan[j].0
}

/// The pids of a restart plan, in order.
pub open spec fn plan_pids<F>(plan: Seq<(Pid, ChildSpec<F>)>) -> Seq<Pid> {
    plan.map_values(|e: (Pid, ChildSpec<F>)| e.0)
}

/// `list` without any occurrence of `x`.
fn without(list: &Vec<Pid>, x: Pid) -> (r: Vec<Pid>)
    ensures
        r@ == strip(list@, x),
{
    let mut r: Vec<Pid> = Vec::new();
    let mut i: usize = 0;
    while i < list.len()
        invariant
            i <= list.len(),
            r@ == strip(list@.take(i as int), x),
        decreases list.len() - i,
    {
        assert(list@.take(i + 1).drop_last() =~= list@.take(i as int));
        if list[i] != x {
            r.push(list[i]);
        }
        i = i + 1;
    }
    assert(list@.take(list.len() as int) =~= list@);
    r
}

/// Stores child specs keyed by `Pid`, the errors met while restarting, and
/// the links between pids.
pub struct Supervisor<F> {
    children: HashMap<Pid, ChildSpec<F>>,
    /// Recent errors recorded while attempting to restart children.
    errors: Vec<String>,
    /// Bidirectional links between PIDs. If A is linked to B, and A exits,
    /// B should receive an exit signal (delivered by the Runtime).
    links: HashMap<Pid, Vec<Pid>>,
}

impl<F> Supervisor<F> {
    /// The supervised children and their specs.
    pub closed spec fn children(&self) -> Map<Pid, ChildSpec<F>> {
        self.children@
    }

    /// The links of each pid that has an entry.
    pub closed spec fn links(&self) -> Map<Pid, Seq<Pid>> {
        self.links@.map_values(|v: Vec<Pid>| v@)
    }

    /// The recorded restart errors, oldest first.
    pub closed spec fn error_log(&self) -> Seq<Seq<char>> {
        self.errors@.map_values(|s: String| s@)
    }

    /// Create a supervisor instance.
    pub fn new() -> (s: Self)
        ensures
            s.children() == Map::<Pid, ChildSpec<F>>::empty(),
            s.links() == Map::<Pid, Seq<Pid>>::empty(),
            s.error_log() == Seq::<Seq<char>>::empty(),
    {
        let s = Supervisor { children: HashMap::new(), errors: Vec::new(), links: HashMap::new() };
        assert(s.links() =~= Map::<Pid, Seq<Pid>>::empty());
        assert(s.error_log() =~= Seq::<Seq<char>>::empty());
        s
    }

    /// Add a child with an explicit child spec (factory + strategy).
    pub fn add_child(&mut self, pid: Pid, spec: ChildSpec<F>)
        ensures
            final(self).children() == old(self).children().insert(pid, spec),
            final(self).links() == old(self).links(),
            final(self).error_log() == old(self).error_log(),
    {
        self.children.insert(pid, spec);
    }

    /// Drop `pid`'s links and remove `pid` from the lists of the pids it was linked to.
    fn detach(&mut self, pid: Pid)
        ensures
            final(self).links() == detached(old(self).links(), pid),
            final(self).children() == old(self).children(),
            final(self).error_log() == old(self).error_log(),
    {
        let ghost l0 = self.links();
        if let Some(v) = self.links.remove(&pid) {
            assert(v@ == l0[pid]);
            let mut i: usize = 0;
            while i < v.len()
                invariant
                    i <= v.len(),
                    v@ == l0[pid],
                    l0.contains_key(pid),
                    self.children() == old(self).children(),
                    self.error_log() == old(self).error_log(),
                    self.links() == Map::new(
                        |k: Pid| l0.contains_key(k) && k != pid,
                        |k: Pid|
                            if v@.take(i as int).contains(k) {
                                strip(l0[k], pid)
                            } else {
                                l0[k]
                            },
                    ),
                decreases v.len() - i,
            {
                let other = v[i];
                let ghost before = self.links();
                if let Some(list) = self.links.get(&other) {
                    assert(before.contains_key(other) && list@ == before[other]);
                    let stripped = without(list, pid);
                    self.links.insert(other, stripped);
                    proof {
                        lemma_strip_twice(l0[other], pid);
                    }
                    assert(self.links() =~= before.insert(other, strip(before[other], pid)));
                } else {
                    assert(!before.contains_key(other));
                    assert(self.links() =~= before);
                }
                assert(v@.take(i + 1) =~= v@.take(i as int).push(other));
                assert forall|k: Pid| #![auto]
                    v@.take(i + 1).contains(k) == (v@.take(i as int).contains(k) || k == other) by {
                    lemma_push_contains(v@.take(i as int), other, k);
                }
                i = i + 1;
                assert(self.links() =~= Map::new(
                    |k: Pid| l0.contains_key(k) && k != pid,
                    |k: Pid|
                        if v@.take(i as int).contains(k) {
                            strip(l0[k], pid)
                        } else {
                            l0[k]
                        },
                ));
            }
            assert(v@.take(v.len() as int) =~= v@);
            assert(self.links() =~= detached(l0, pid));
        } else {
            assert(self.links() =~= l0);
        }
    }

    /// Remove a child from supervision.
    pub fn remove_child(&mut self, pid: Pid)
        ensures
            final(self).children() == old(self).children().remove(pid),
            final(self).links() == detached(old(self).links(), pid),
            final(self).error_log() == old(self).error_log(),
    {
        self.children.remove(&pid);
        // cleanup any links involving this pid
        self.detach(pid);
    }

    /// Remove a bidirectional link between two PIDs.
    pub fn unlink(&mut self, a: Pid, b: Pid)
        ensures
            final(self).links() == unlinked(old(self).links(), a, b),
            final(self).children() == old(self).children(),
            final(self).error_log() == old(self).error_log(),
    {
        let ghost l0 = self.links();
        if let Some(list) = self.links.get(&a) {
            let stripped = without(list, b);
            self.links.insert(a, stripped);
        }
        let ghost l1 = self.links();
        assert(l1 =~= (if l0.contains_key(a) {
            l0.insert(a, strip(l0[a], b))
        } else {
            l0
        }));
        if let Some(list) = self.links.get(&b) {
            let stripped = without(list, a);
            self.links.insert(b, stripped);
        }
        assert(self.links() =~= unlinked(l0, a, b));
    }

    /// Establish a bidirectional link between two PIDs.
    pub fn link(&mut self, a: Pid, b: Pid)
        ensures
            final(self).links() == linked(old(self).links(), a, b),
            final(self).children() == old(self).children(),
            final(self).error_log() == old(self).error_log(),
    {
        let ghost l0 = self.links();
        self.push_link(a, b);
        let ghost l1 = self.links();
        self.push_link(b, a);
        assert(self.links() =~= linked(l0, a, b));
    }

    /// Append `b` to `a`'s list of links, creating the list if needed.
    fn push_link(&mut self, a: Pid, b: Pid)
        ensures
            final(self).links() == old(self).links().insert(a, links_of(old(self).links(), a).push(b)),
            final(self).children() == old(self).children(),
            final(self).error_log() == old(self).error_log(),
    {
        let ghost l0 = self.links();
        let mut list = match self.links.remove(&a) {
            Some(list) => list,
            None => Vec::new(),
        };
        assert(list@ == links_of(l0, a));
        list.push(b);
        self.links.insert(a, list);
        assert(self.links() =~= l0.insert(a, links_of(l0, a).push(b)));
    }

    /// Return linked pids for `pid` (snapshot).
    pub fn linked_pids(&self, pid: Pid) -> (r: Vec<Pid>)
        ensures
            r@ == links_of(self.links(), pid),
    {
        match self.links.get(&pid) {
            Some(v) => v.clone(),
            None => Vec::new(),
        }
    }

    /// Stop watching a pid.
    pub fn unwatch(&mut self, pid: Pid)
        ensures
            final(self).children() == old(self).children().remove(pid),
            final(self).links() == old(self).links(),
            final(self).error_log() == old(self).error_log(),
    {
        self.children.remove(&pid);
    }

    /// Query helpers for tests/observability.
    pub fn contains_child(&self, pid: Pid) -> (r: bool)
        ensures
            r == self.children().contains_key(pid),
    {
        self.children.contains_key(&pid)
    }

    /// Number of supervised children.
    pub fn children_count(&self) -> (n: usize)
        ensures
            n == self.children().len(),
    {
        self.children.len()
    }

    /// The pids of the supervised children, each once, in no promised order.
    pub fn child_pids(&self) -> (r: Vec<Pid>)
        ensures
            r@.to_set() == self.children().dom(),
            r@.no_duplicates(),
    {
        let mut r: Vec<Pid> = Vec::new();
        let ghost keys = vstd::std_specs::hash::spec_keys_iter(&self.children).remaining();
        for k in it: self.children.keys()
            invariant
                it.seq() == keys,
                r@.len() == it.index(),
                forall|i: int| 0 <= i < it.index() ==> r@[i] == *it.seq()[i],
        {
            r.push(*k);
        }
        assert(r@ =~= keys.unref());
        r
    }

    /// Return a snapshot of recent supervisor error messages.
    pub fn errors(&self) -> (r: Vec<String>)
        ensures
            r@.map_values(|s: String| s@) == self.error_log(),
    {
        let mut r: Vec<String> = Vec::new();
        let mut i: usize = 0;
        while i < self.errors.len()
            invariant
                i <= self.errors.len(),
                r.len() == i,
                forall|j: int| 0 <= j < i ==> #[trigger] r@[j]@ == self.errors@[j]@,
            decreases self.errors.len() - i,
        {
            r.push(self.errors[i].clone());
            i = i + 1;
        }
        assert(r@.map_values(|s: String| s@) =~= self.error_log());
        r
    }

    /// Record an error met while restarting a child.
    pub fn record_error(&mut self, err: String)
        ensures
            final(self).error_log() == old(self).error_log().push(err@),
            final(self).children() == old(self).children(),
            final(self).links() == old(self).links(),
    {
        self.errors.push(err);
        assert(self.error_log() =~= old(self).error_log().push(err@));
    }

    /// Called when a child exits: decides which children to restart. A pid
    /// that is not supervised (for example one already replaced during a
    /// one-for-all restart) restarts nothing. Otherwise the child's strategy
    /// applies: one-for-one takes just that child out of supervision,
    /// one-for-all takes out every child. The children taken out lose their
    /// links and are returned, with their specs, for their factories to be
    /// called; each success is put back with `add_child`, each failure with
    /// `record_error`.
    pub fn notify_exit(&mut self, pid: Pid) -> (plan: Vec<(Pid, ChildSpec<F>)>)
        ensures
            !old(self).children().contains_key(pid) ==> {
                &&& plan@.len() == 0
                &&& final(self).children() == old(self).children()
                &&& final(self).links() == old(self).links()
            },
            old(self).children().contains_key(pid) && old(self).children()[pid].strategy
                == RestartStrategy::RestartOne ==> {
                &&& plan@ == seq![(pid, old(self).children()[pid])]
                &&& final(self).children() == old(self).children().remove(pid)
                &&& final(self).links() == detached(old(self).links(), pid)
            },
            old(self).children().contains_key(pid) && old(self).children()[pid].strategy
                == RestartStrategy::RestartAll ==> {
                &&& plan_covers(plan@, old(self).children())
                &&& final(self).children() == Map::<Pid, ChildSpec<F>>::empty()
                &&& final(self).links() == detached_all(old(self).links(), plan_pids(plan@))
            },
            final(self).error_log() == old(self).error_log(),
    {
        let strategy = match self.children.get(&pid) {
            Some(spec) => spec.strategy,
            None => {
                return Vec::new();
            },
        };
        let mut plan: Vec<(Pid, ChildSpec<F>)> = Vec::new();
        match strategy {
            RestartStrategy::RestartOne => {
                if let Some(spec) = self.children.remove(&pid) {
                    self.detach(pid);
                    plan.push((pid, spec));
                }
                assert(plan@ =~= seq![(pid, old(self).children()[pid])]);
            },
            RestartStrategy::RestartAll => {
                let ghost c0 = self.children();
                let ghost l0 = self.links();
                let pids = self.child_pids();
                let mut i: usize = 0;
                while i < pids.len()
                    invariant
                        i <= pids.len(),
                        pids@.no_duplicates(),
                        pids@.to_set() == c0.dom(),
                        self.children() == c0.remove_keys(pids@.take(i as int).to_set()),
                        plan.len() == i,
                        forall|j: int|
                            0 <= j < i ==> (#[trigger] plan@[j]).0 == pids@[j] && plan@[j].1
                                == c0[pids@[j]],
                        self.links() == detached_all(l0, pids@.take(i as int)),
                        self.error_log() == old(self).error_log(),
                    decreases pids.len() - i,
                {
                    let p = pids[i];
                    assert(pids@.to_set().contains(p));
                    assert(!pids@.take(i as int).contains(p)) by {
                        if pids@.take(i as int).contains(p) {
                            let j = choose|j: int| 0 <= j < i && pids@.take(i as int)[j] == p;
                            assert(pids@[j] == pids@[i as int]);
                        }
                    }
                    assert(pids@.take(i + 1) =~= pids@.take(i as int).push(p));
                    assert(pids@.take(i + 1).drop_last() =~= pids@.take(i as int));
                    assert forall|k: Pid| #![auto]
                        pids@.take(i + 1).to_set().contains(k) == (pids@.take(i as int).to_set().contains(k)
                            || k == p) by {
                        lemma_push_contains(pids@.take(i as int), p, k);
                    }
                    assert(self.children().contains_key(p));
                    if let Some(spec) = self.children.remove(&p) {
                        self.detach(p);
                        plan.push((p, spec));
                    }
                    assert(self.children() =~= c0.remove_keys(pids@.take(i + 1).to_set()));
                    i = i + 1;
                }
                assert(pids@.take(pids.len() as int) =~= pids@);
                assert(self.children() =~= Map::<Pid, ChildSpec<F>>::empty());
                assert(plan_pids(plan@) =~= pids@);
                assert forall|k: Pid| c0.contains_key(k) implies exists|j: int|
                    0 <= j < plan.len() && #[trigger] plan@[j].0 == k by {
                    assert(pids@.to_set().contains(k));
                    let j = choose|j: int| 0 <= j < pids.len() && pids@[j] == k;
                    assert(plan@[j].0 == k);
                }
            },
        }
        plan
    }
}

impl<F: PidFactory> Supervisor<F> {
    /// Supervise `pid` with a factory that reports `pid` again, restarting it
    /// on its own.
    pub fn watch(&mut self, pid: Pid)
        ensures
            final(self).children().contains_key(pid),
            final(self).children()[pid].strategy == RestartStrategy::RestartOne,
            call_ensures(F::returning, (pid,), final(self).children()[pid].factory),
            final(self).children() == old(self).children().insert(pid, final(self).children()[pid]),
            final(self).links() == old(self).links(),
            final(self).error_log() == old(self).error_log(),
    {
        let spec = ChildSpec { factory: F::returning(pid), strategy: RestartStrategy::RestartOne };
        self.children.insert(pid, spec);
    }
}

/// Most factory calls spent on one child during a restart.
pub const MAX_RESTART_ATTEMPTS: u32 = 3;

/// Wait before the first retry, in milliseconds.
pub const INITIAL_BACKOFF_MS: u64 = 100;

/// `ms` doubled, saturating at `u64::MAX`.
pub open spec fn doubled(ms: u64) -> u64 {
    if ms > u64::MAX / 2 {
        u64::MAX
    } else {
        (ms * 2) as u64
    }
}

/// What a failed factory call leads to, after `attempts` calls for the
/// current child with the current wait `delay_ms`: the wait before the next
/// call (`None`: give the child up) and the wait that follows it.
pub open spec fn after_failed_call(attempts: u32, delay_ms: u64) -> (Option<u64>, u64) {
    if attempts >= MAX_RESTART_ATTEMPTS {
        (None, delay_ms)
    } else {
        (Some(delay_ms), doubled(delay_ms))
    }
}

/// Retry pacing for restarts: each child gets up to `MAX_RESTART_ATTEMPTS`
/// factory calls, with an exponential wait between calls. The wait keeps
/// doubling across the children of one restart.
pub struct RestartBackoff {
    attempts: u32,
    delay_ms: u64,
}

impl RestartBackoff {
    /// Factory calls made for the current child.
    pub closed spec fn attempts(&self) -> u32 {
        self.attempts
    }

    /// The wait before the next retry, in milliseconds.
    pub closed spec fn delay_ms(&self) -> u64 {
        self.delay_ms
    }

    /// Pacing at the start of a restart.
    pub fn new() -> (b: Self)
        ensures
            b.attempts() == 0,
            b.delay_ms() == INITIAL_BACKOFF_MS,
    {
        RestartBackoff { attempts: 0, delay_ms: INITIAL_BACKOFF_MS }
    }

    /// Start on the next child of the plan.
    pub fn begin_child(&mut self)
        ensures
            final(self).attempts() == 0,
            final(self).delay_ms() == old(self).delay_ms(),
    {
        self.attempts = 0;
    }

    /// Count a factory call for the current child (the count stops at
    /// `MAX_RESTART_ATTEMPTS`, which a caller following `after_failure`
    /// never passes).
    pub fn start_attempt(&mut self)
        ensures
            final(self).attempts() == (if old(self).attempts() < MAX_RESTART_ATTEMPTS {
                (old(self).attempts() + 1) as u32
            } else {
                old(self).attempts()
            }),
            final(self).delay_ms() == old(self).delay_ms(),
    {
        if self.attempts < MAX_RESTART_ATTEMPTS {
            self.attempts = self.attempts + 1;
        }
    }

    /// After a failed factory call: how long to wait before calling again,
    /// or `None` once the child has had all its calls.
    pub fn after_failure(&mut self) -> (wait: Option<u64>)
        ensures
            (wait, final(self).delay_ms()) == after_failed_call(
                old(self).attempts(),
                old(self).delay_ms(),
            ),
            final(self).attempts() == old(self).attempts(),
    {
        if self.attempts >= MAX_RESTART_ATTEMPTS {
            return None;
        }
        let wait = self.delay_ms;
        self.delay_ms = if self.delay_ms > u64::MAX / 2 {
            u64::MAX
        } else {
            self.delay_ms * 2
        };
        Some(wait)
    }
}

/// Lemma: stripping `x` removes exactly the occurrences of `x`.
pub proof fn lemma_strip_contains(s: Seq<Pid>, x: Pid, y: Pid)
    ensures
        strip(s, x).contains(y) == (s.contains(y) && y != x),
    decreases s.len(),
{
    if s.len() > 0 {
        lemma_strip_contains(s.drop_last(), x, y);
        lemma_push_contains(strip(s.drop_last(), x), s.last(), y);
        lemma_push_contains(s.drop_last(), s.last(), y);
        assert(s.drop_last().push(s.last()) =~= s);
    }
}

/// Unlinking `a` and `b` touches no other link: for every pair `x`, `y`
/// other than `a`, `b` (either way round), `x` lists `y` afterwards exactly
/// when it did before.
pub proof fn lemma_unlink_keeps_other_links(links: Map<Pid, Seq<Pid>>, a: Pid, b: Pid, x: Pid, y: Pid)
    requires
        !((x == a && y == b) || (x == b && y == a)),
    ensures
        links_of(unlinked(links, a, b), x).contains(y) == links_of(links, x).contains(y),
{
    let l1 = if links.contains_key(a) {
        links.insert(a, strip(links[a], b))
    } else {
        links
    };
    if links.contains_key(a) {
        lemma_strip_contains(links[a], b, y);
    }
    if l1.contains_key(b) {
        lemma_strip_contains(l1[b], a, y);
    }
}

/// Linking `a` and `b` touches no other link: for every pair `x`, `y` other
/// than `a`, `b` (either way round), `x` lists `y` afterwards exactly when it
/// did before.
pub proof fn lemma_link_keeps_other_links(links: Map<Pid, Seq<Pid>>, a: Pid, b: Pid, x: Pid, y: Pid)
    requires
        !((x == a && y == b) || (x == b && y == a)),
    ensures
        links_of(linked(links, a, b), x).contains(y) == links_of(links, x).contains(y),
{
    let l1 = links.insert(a, links_of(links, a).push(b));
    lemma_push_contains(links_of(links, a), b, y);
    lemma_push_contains(links_of(l1, b), a, y);
}

/// A dead actor's links go and nothing else: afterwards `p` lists no one and
/// no one lists `p`, while any `x` other than `p` lists any `y` other than
/// `p` exactly when it did before.
pub proof fn lemma_detach_keeps_other_links(links: Map<Pid, Seq<Pid>>, p: Pid, x: Pid, y: Pid)
    requires
        symmetric(links),
        x != p,
        y != p,
    ensures
        links_of(detached(links, p), x).contains(y) == links_of(links, x).contains(y),
        !links_of(detached(links, p), x).contains(p),
        links_of(detached(links, p), p).len() == 0,
{
    if links.contains_key(p) && links.contains_key(x) {
        lemma_strip_contains(links[x], p, y);
        lemma_strip_contains(links[x], p, p);
        if links[x].contains(p) {
            assert(links[p].contains(x));
        }
    }
}

/// Links are symmetric: whenever `a` lists `b`, `b` has an entry that lists `a`.
pub open spec fn symmetric(links: Map<Pid, Seq<Pid>>) -> bool {
    forall|a: Pid, b: Pid|
        links.contains_key(a) && #[trigger] links[a].contains(b) ==> links.contains_key(b)
            && links[b].contains(a)
}

/// Linking keeps links symmetric, and afterwards each side lists the other.
pub proof fn lemma_link_symmetric(links: Map<Pid, Seq<Pid>>, a: Pid, b: Pid)
    requires
        symmetric(links),
    ensures
        symmetric(linked(links, a, b)),
        links_of(linked(links, a, b), a).contains(b),
        links_of(linked(links, a, b), b).contains(a),
{
    let l1 = links.insert(a, links_of(links, a).push(b));
    let l2 = linked(links, a, b);
    assert forall|x: Pid, y: Pid| l2.contains_key(x) && #[trigger] l2[x].contains(y) implies l2.contains_key(y)
        && l2[y].contains(x) by {
        lemma_push_contains(links_of(links, a), b, y);
        lemma_push_contains(links_of(l1, b), a, y);
        lemma_push_contains(links_of(links, a), b, x);
        lemma_push_contains(links_of(l1, b), a, x);
        lemma_push_contains(links_of(links, a), b, a);
        lemma_push_contains(links_of(l1, b), a, b);
        if x != a && x != b {
            assert(links[x].contains(y));
        } else if x == a && x != b {
            if y != b {
                assert(links_of(links, a).contains(y));
                assert(links[y].contains(a));
            }
        } else if x == b && x != a {
            if y != a {
                assert(links_of(l1, b).contains(y));
                assert(links[b].contains(y));
                assert(links[y].contains(b));
            }
        }
    }
    lemma_push_contains(links_of(links, a), b, b);
    lemma_push_contains(links_of(l1, b), a, a);
    lemma_push_contains(links_of(l1, b), a, b);
}

/// Unlinking keeps links symmetric, and afterwards neither side lists the other.
pub proof fn lemma_unlink_symmetric(links: Map<Pid, Seq<Pid>>, a: Pid, b: Pid)
    requires
        symmetric(links),
    ensures
        symmetric(unlinked(links, a, b)),
        !links_of(unlinked(links, a, b), a).contains(b),
        !links_of(unlinked(links, a, b), b).contains(a),
{
    let l1 = if links.contains_key(a) {
        links.insert(a, strip(links[a], b))
    } else {
        links
    };
    let l2 = unlinked(links, a, b);
    assert forall|x: Pid, y: Pid| l2.contains_key(x) && #[trigger] l2[x].contains(y) implies l2.contains_key(y)
        && l2[y].contains(x) by {
        if links.contains_key(a) {
            lemma_strip_contains(links[a], b, y);
            lemma_strip_contains(links[a], b, x);
        }
        if l1.contains_key(b) {
            lemma_strip_contains(l1[b], a, y);
            lemma_strip_contains(l1[b], a, x);
            if links.contains_key(b) {
                lemma_strip_contains(links[b], b, y);
                lemma_strip_contains(links[b], b, x);
            }
        }
        assert(links.contains_key(x));
        assert(links[x].contains(y));
        assert(links[y].contains(x));
    }
    if links.contains_key(a) {
        lemma_strip_contains(links[a], b, b);
    }
    if l1.contains_key(b) {
        lemma_strip_contains(l1[b], a, a);
        if links.contains_key(a) && a == b {
            lemma_strip_contains(links[a], b, a);
        }
    }
    if l2.contains_key(a) && a != b && l1.contains_key(b) {
        assert(l2[a] == l1[a]);
    }
}

/// A dead pid's links go: it keeps no entry, and, links being symmetric, no
/// other pid lists it any more. Links stay symmetric.
pub proof fn lemma_detach_forgets(links: Map<Pid, Seq<Pid>>, p: Pid)
    requires
        symmetric(links),
    ensures
        symmetric(detached(links, p)),
        !detached(links, p).contains_key(p),
        forall|k: Pid| #[trigger] detached(links, p).contains_key(k) ==> !detached(links, p)[k].contains(p),
{
    let d = detached(links, p);
    if links.contains_key(p) {
        assert forall|k: Pid| #[trigger] d.contains_key(k) implies !d[k].contains(p) by {
            if links[p].contains(k) {
                lemma_strip_contains(links[k], p, p);
            } else if links[k].contains(p) {
                assert(links[p].contains(k));
            }
        }
        assert forall|x: Pid, y: Pid| d.contains_key(x) && #[trigger] d[x].contains(y) implies d.contains_key(y)
            && d[y].contains(x) by {
            if links[p].contains(x) {
                lemma_strip_contains(links[x], p, y);
            }
            assert(links[x].contains(y));
            if y == p {
                assert(links[p].contains(x));
                lemma_strip_contains(links[x], p, p);
            }
            assert(links[y].contains(x));
            if links[p].contains(y) {
                lemma_strip_contains(links[y], p, x);
            }
        }
    } else {
        assert forall|k: Pid| #[trigger] d.contains_key(k) implies !d[k].contains(p) by {
            if links[k].contains(p) {
                assert(links.contains_key(p));
            }
        }
    }
}

/// A child gets at most `MAX_RESTART_ATTEMPTS` factory calls: after the first
/// and second failed calls the caller waits `d` and then `2d` (saturating),
/// after the third it gives the child up.
pub proof fn lemma_restart_attempts_bounded(d: u64)
    ensures
        after_failed_call(1, d) == (Some(d), doubled(d)),
        after_failed_call(2, doubled(d)) == (Some(doubled(d)), doubled(doubled(d))),
        after_failed_call(3, doubled(doubled(d))) == (None::<u64>, doubled(doubled(d))),
        forall|a: u32, e: u64| a >= MAX_RESTART_ATTEMPTS ==> (#[trigger] after_failed_call(a, e)).0 is None,
{
}

/// Lemma: what a sequence with one more element contains.
proof fn lemma_push_contains(s: Seq<Pid>, x: Pid, k: Pid)
    ensures
        s.push(x).contains(k) == (s.contains(k) || k == x),
{
    if s.push(x).contains(k) {
        let j = choose|j: int| 0 <= j < s.push(x).len() && s.push(x)[j] == k;
        if j < s.len() {
            assert(s[j] == k);
        }
    }
    if s.contains(k) {
        let j = choose|j: int| 0 <= j < s.len() && s[j] == k;
        assert(s.push(x)[j] == k);
    }
    if k == x {
        assert(s.push(x)[s.len() as int] == x);
    }
}

/// Lemma: stripping twice is stripping once.
proof fn lemma_strip_twice(s: Seq<Pid>, x: Pid)
    ensures
        strip(strip(s, x), x) == strip(s, x),
    decreases s.len(),
{
    if s.len() > 0 {
        lemma_strip_twice(s.drop_last(), x);
        let r = strip(s.drop_last(), x);
        if s.last() != x {
            assert(r.push(s.last()).drop_last() =~= r);
        }
    }
}

} // verus!
