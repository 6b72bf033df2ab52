//! Messages and the deferred-message queue of a mailbox.
//!
//! A mailbox receiver prefers system messages over user payloads, and a
//! selective receive sets aside the messages it skips so that later receives
//! deliver them in the order they arrived. `MessageQueue` holds those
//! set-aside messages (and the log of an observed actor).
use std::collections::VecDeque;
use vstd::prelude::*;

verus! {

#[verifier::external_type_specification]
#[verifier::external_body]
pub struct ExBytes(bytes::Bytes);

/// The bytes a `Bytes` handle gives access to.
pub uninterp spec fn bytes_content(b: bytes::Bytes) -> Seq<u8>;

/// `Bytes::clone`: another handle on the same bytes (the source returns a
/// handle sharing the same storage, or a copy of it for inline data). Only
/// the contents are stated: the new handle need not be field-for-field
/// identical to the one it was cloned from.
pub assume_specification[ <bytes::Bytes as Clone>::clone ](b: &bytes::Bytes) -> (r: bytes::Bytes)
    ensures
        bytes_content(r) == bytes_content(*b),
;

/// Why an actor stopped.
#[derive(Clone, Debug, PartialEq, Eq)]
pub enum ExitReason {
    /// The actor finished cleanly (its handler returned, or its mailbox was closed).
    Normal,
    /// The actor was shut down on request.
    Killed,
    /// The actor's task panicked.
    Panic,
    /// User code returned an unrecoverable error.
    Crash,
    /// Any other ending, described in words.
    Other(String),
}

/// How an actor's task came to an end, as the runtime observes it.
#[derive(Clone, Copy, Debug, PartialEq, Eq, Structural)]
pub enum TaskEnd {
    /// The task ran to completion.
    Finished,
    /// The task panicked.
    Panicked,
    /// The task was cancelled before it finished.
    Cancelled,
}

impl ExitReason {
    /// The reason recorded for an actor whose task ended as `end`.
    pub fn for_task_end(end: TaskEnd) -> (r: ExitReason)
        ensures
            end == TaskEnd::Finished ==> r == ExitReason::Normal,
            end == TaskEnd::Panicked ==> r == ExitReason::Panic,
            end == TaskEnd::Cancelled ==> (r matches ExitReason::Other(text) && text@ == "join_error"@),
    {
        match end {
            TaskEnd::Finished => ExitReason::Normal,
            TaskEnd::Panicked => ExitReason::Panic,
            TaskEnd::Cancelled => ExitReason::Other("join_error".to_owned()),
        }
    }

    /// The name a foreign caller sees for this reason.
    pub fn label(&self) -> (name: &str)
        ensures
            name@ == (match self {
                ExitReason::Normal => "normal"@,
                ExitReason::Killed => "killed"@,
                ExitReason::Panic => "panic"@,
                ExitReason::Crash => "crash"@,
                ExitReason::Other(text) => text@,
            }),
    {
        match self {
            ExitReason::Normal => "normal",
            ExitReason::Killed => "killed",
            ExitReason::Panic => "panic",
            ExitReason::Crash => "crash",
            ExitReason::Other(text) => text.as_str(),
        }
    }
}

/// What an exit notice says: which actor stopped, why, and any details
/// the runtime had (such as the text of a task failure).
#[derive(Clone, Debug, PartialEq, Eq)]
pub struct ExitInfo {
    pub from: u64,
    pub reason: ExitReason,
    pub metadata: Option<String>,
}

/// A system message (e.g., exit notifications).
#[derive(Clone, Debug, PartialEq, Eq)]
pub enum SystemMessage {
    /// A linked actor exited.
    Exit(ExitInfo),
    /// Hot Swap signal containing the raw pointer (usize)
    /// to the new handler function / closure.
    HotSwap(usize),
    /// Heartbeat signal to verify actor/node responsiveness.
    Ping,
    /// Response to a heartbeat signal.
    Pong,
}

impl SystemMessage {
    /// The name a foreign caller sees for this kind of system message.
    pub fn kind_name(&self) -> (name: &'static str)
        ensures
            name@ == (match self {
                SystemMessage::Exit(_) => "EXIT"@,
                SystemMessage::HotSwap(_) => "HOT_SWAP"@,
                SystemMessage::Ping => "PING"@,
                SystemMessage::Pong => "PONG"@,
            }),
    {
        match self {
            SystemMessage::Exit(_) => "EXIT",
            SystemMessage::HotSwap(_) => "HOT_SWAP",
            SystemMessage::Ping => "PING",
            SystemMessage::Pong => "PONG",
        }
    }

    /// The pid a system message is about: the exited actor for `Exit`.
    pub fn target_pid(&self) -> (pid: Option<u64>)
        ensures
            pid == (match self {
                SystemMessage::Exit(info) => Some(info.from),
                _ => None,
            }),
    {
        match self {
            SystemMessage::Exit(info) => Some(info.from),
            _ => None,
        }
    }

    /// Why the actor of an `Exit` notice stopped.
    pub fn exit_reason(&self) -> (r: Option<&ExitReason>)
        ensures
            r == (match self {
                SystemMessage::Exit(info) => Some(&info.reason),
                _ => None,
            }),
    {
        match self {
            SystemMessage::Exit(info) => Some(&info.reason),
            _ => None,
        }
    }
}

/// Message is an envelope that can be either a user payload (binary blob)
/// or a system message.
#[derive(Clone, Debug, PartialEq, Eq)]
pub enum Message {
    User(bytes::Bytes),
    System(SystemMessage),
}

/// `a` and `b` are the same message: the same system message, or user
/// payloads with the same bytes.
pub open spec fn same_message(a: Message, b: Message) -> bool {
    match (a, b) {
        (Message::User(x), Message::User(y)) => bytes_content(x) == bytes_content(y),
        (Message::System(s), Message::System(t)) => s == t,
        _ => false,
    }
}

/// A copy of an exit reason.
fn copy_reason(r: &ExitReason) -> (c: ExitReason)
    ensures
        c == *r,
{
    match r {
        ExitReason::Normal => ExitReason::Normal,
        ExitReason::Killed => ExitReason::Killed,
        ExitReason::Panic => ExitReason::Panic,
        ExitReason::Crash => ExitReason::Crash,
        ExitReason::Other(text) => ExitReason::Other(text.clone()),
    }
}

/// A copy of a system message.
fn copy_system(s: &SystemMessage) -> (c: SystemMessage)
    ensures
        c == *s,
{
    match s {
        SystemMessage::Exit(info) => {
            let metadata = match &info.metadata {
                Some(text) => Some(text.clone()),
                None => None,
            };
            SystemMessage::Exit(ExitInfo { from: info.from, reason: copy_reason(&info.reason), metadata })
        },
        SystemMessage::HotSwap(ptr) => SystemMessage::HotSwap(*ptr),
        SystemMessage::Ping => SystemMessage::Ping,
        SystemMessage::Pong => SystemMessage::Pong,
    }
}

/// A copy of a message; a user payload's copy shares its bytes.
fn copy_message(m: &Message) -> (c: Message)
    ensures
        same_message(*m, c),
{
    match m {
        Message::User(b) => Message::User(b.clone()),
        Message::System(s) => Message::System(copy_system(s)),
    }
}

/// Whether `m` is a system message.
pub open spec fn is_system(m: Message) -> bool {
    m is System
}

/// `i` is the first position of `s` whose message satisfies `p`.
pub open spec fn first_at(s: Seq<Message>, p: spec_fn(Message) -> bool, i: int) -> bool {
    &&& 0 <= i < s.len()
    &&& p(s[i])
    &&& forall|j: int| 0 <= j < i ==> !p(#[trigger] s[j])
}

/// The outcome of taking the first message of `before` that satisfies `p`:
/// that message comes out and the rest keep their order; with no such
/// message nothing comes out and nothing changes.
pub open spec fn took_first(
    before: Seq<Message>,
    after: Seq<Message>,
    p: spec_fn(Message) -> bool,
    taken: Option<Message>,
) -> bool {
    match taken {
        Some(m) => exists|i: int| first_at(before, p, i) && m == before[i] && after == before.remove(i),
        None => {
            &&& forall|j: int| 0 <= j < before.len() ==> !p(#[trigger] before[j])
            &&& after == before
        },
    }
}

/// A first-in first-out queue of messages.
pub struct MessageQueue {
    items: VecDeque<Message>,
}

impl View for MessageQueue {
    type V = Seq<Message>;

    closed spec fn view(&self) -> Seq<Message> {
        self.items@
    }
}

impl MessageQueue {
    /// An empty queue.
    pub fn new() -> (q: Self)
        ensures
            q@ == Seq::<Message>::empty(),
    {
        MessageQueue { items: VecDeque::new() }
    }

    /// Number of queued messages.
    pub fn len(&self) -> (n: usize)
        ensures
            n == self@.len(),
    {
        self.items.len()
    }

    /// Put a message at the back.
    pub fn push_back(&mut self, m: Message)
        ensures
            final(self)@ == old(self)@.push(m),
    {
        self.items.push_back(m);
    }

    /// Take the message at the front, if any.
    pub fn pop_front(&mut self) -> (m: Option<Message>)
        ensures
            old(self)@.len() == 0 ==> m is None && final(self)@ == old(self)@,
            old(self)@.len() > 0 ==> m == Some(old(self)@[0]) && final(self)@ == old(self)@.drop_first(),
    {
        let r = self.items.pop_front();
        proof {
            if old(self)@.len() > 0 {
                assert(self@ =~= old(self)@.drop_first());
            }
        }
        r
    }

    /// One step of a selective receive on a message that has just arrived:
    /// a message the matcher accepted is handed out, any other waits behind
    /// the messages already set aside.
    pub fn deliver_or_defer(&mut self, m: Message, accepted: bool) -> (out: Option<Message>)
        ensures
            accepted ==> out == Some(m) && final(self)@ == old(self)@,
            !accepted ==> out is None && final(self)@ == old(self)@.push(m),
    {
        if accepted {
            Some(m)
        } else {
            self.items.push_back(m);
            None
        }
    }

    /// The next message a receive hands out without waiting: the earliest
    /// set-aside system message; failing that, a system message that
    /// `poll_system` finds waiting (it is asked only then); failing that,
    /// the earliest set-aside message.
    pub fn take_ready<F: FnOnce() -> Option<SystemMessage>>(&mut self, poll_system: F) -> (m:
        Option<Message>)
        requires
            call_requires(poll_system, ()),
        ensures
            (exists|j: int| 0 <= j < old(self)@.len() && is_system(#[trigger] old(self)@[j])) ==> took_first(
                old(self)@,
                final(self)@,
                |x: Message| is_system(x),
                m,
            ),
            (forall|j: int| 0 <= j < old(self)@.len() ==> !is_system(#[trigger] old(self)@[j]))
                ==> exists|polled: Option<SystemMessage>|
                {
                    &&& #[trigger] call_ensures(poll_system, (), polled)
                    &&& match polled {
                        Some(s) => m == Some(Message::System(s)) && final(self)@ == old(self)@,
                        None => if old(self)@.len() == 0 {
                            m is None && final(self)@ == old(self)@
                        } else {
                            m == Some(old(self)@[0]) && final(self)@ == old(self)@.drop_first()
                        },
                    }
                },
    {
        let stashed = self.take_first_system();
        if stashed.is_some() {
            return stashed;
        }
        let polled = poll_system();
        match polled {
            Some(s) => Some(Message::System(s)),
            None => self.pop_front(),
        }
    }

    /// Take the earliest system message, if any; the others keep their order.
    pub fn take_first_system(&mut self) -> (m: Option<Message>)
        ensures
            took_first(old(self)@, final(self)@, |x: Message| is_system(x), m),
    {
        let ghost p = |x: Message| is_system(x);
        let mut i: usize = 0;
        while i < self.items.len()
            invariant
                self@ == old(self)@,
                i <= self@.len(),
                forall|j: int| 0 <= j < i ==> !p(#[trigger] self@[j]),
                p == (|x: Message| is_system(x)),
            decreases self@.len() - i,
        {
            let found = match &self.items[i] {
                Message::System(_) => true,
                Message::User(_) => false,
            };
            if found {
                let m = self.items.remove(i);
                assert(first_at(old(self)@, p, i as int));
                return m;
            }
            i = i + 1;
        }
        None
    }

    /// Take the earliest message the matcher accepts, asking it about the
    /// messages in order and stopping at the first yes; the others keep
    /// their order.
    pub fn take_first_matching<P: Fn(&Message) -> bool>(&mut self, matcher: P) -> (m: Option<
        Message,
    >)
        requires
            forall|x: Message| call_requires(matcher, (&x,)),
        ensures
            m matches Some(x) ==> exists|i: int|
                {
                    &&& 0 <= i < old(self)@.len()
                    &&& x == old(self)@[i]
                    &&& final(self)@ == old(self)@.remove(i)
                    &&& call_ensures(matcher, (&old(self)@[i],), true)
                    &&& forall|j: int|
                        0 <= j < i ==> call_ensures(matcher, (&old(self)@[j],), false)
                },
            m is None ==> {
                &&& final(self)@ == old(self)@
                &&& forall|j: int|
                    0 <= j < old(self)@.len() ==> call_ensures(matcher, (&old(self)@[j],), false)
            },
    {
        let mut i: usize = 0;
        while i < self.items.len()
            invariant
                self@ == old(self)@,
                i <= self@.len(),
                forall|x: Message| call_requires(matcher, (&x,)),
                forall|j: int| 0 <= j < i ==> call_ensures(matcher, (&old(self)@[j],), false),
            decreases self@.len() - i,
        {
            if matcher(&self.items[i]) {
                let m = self.items.remove(i);
                return m;
            }
            i = i + 1;
        }
        None
    }

    /// Copies of the queued messages, front first: the same system
    /// messages, and user payloads holding the same bytes.
    pub fn to_vec(&self) -> (v: Vec<Message>)
        ensures
            v@.len() == self@.len(),
            forall|i: int| 0 <= i < v@.len() ==> same_message(self@[i], #[trigger] v@[i]),
    {
        let mut v: Vec<Message> = Vec::new();
        let mut i: usize = 0;
        while i < self.items.len()
            invariant
                i <= self@.len(),
                v@.len() == i,
                forall|j: int| 0 <= j < i ==> same_message(self@[j], #[trigger] v@[j]),
            decreases self@.len() - i,
        {
            v.push(copy_message(&self.items[i]));
            i = i + 1;
        }
        v
    }
}

} // verus!
