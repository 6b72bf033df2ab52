use bytes::Bytes;
use iris::mailbox::{ExitInfo, ExitReason, Message, MessageQueue, SystemMessage, TaskEnd};

fn exit(from: u64) -> SystemMessage {
    SystemMessage::Exit(ExitInfo { from, reason: ExitReason::Normal, metadata: None })
}

fn user(b: &'static [u8]) -> Message {
    Message::User(Bytes::from_static(b))
}

#[test]
fn queue_is_first_in_first_out() {
    let mut q = MessageQueue::new();
    assert_eq!(q.pop_front(), None);
    q.push_back(user(b"m1"));
    q.push_back(user(b"m2"));
    assert_eq!(q.len(), 2);
    assert_eq!(q.pop_front(), Some(user(b"m1")));
    assert_eq!(q.pop_front(), Some(user(b"m2")));
    assert_eq!(q.pop_front(), None);
}

#[test]
fn system_messages_are_taken_first() {
    let mut q = MessageQueue::new();
    q.push_back(user(b"a"));
    q.push_back(Message::System(SystemMessage::Ping));
    q.push_back(user(b"b"));
    q.push_back(Message::System(exit(4)));
    assert_eq!(q.take_first_system(), Some(Message::System(SystemMessage::Ping)));
    assert_eq!(q.take_first_system(), Some(Message::System(exit(4))));
    assert_eq!(q.take_first_system(), None);
    assert_eq!(q.to_vec(), vec![user(b"a"), user(b"b")]);
}

#[test]
fn selective_receive_defers_and_preserves_order() {
    let mut q = MessageQueue::new();
    q.push_back(user(b"m1"));
    q.push_back(user(b"target"));
    q.push_back(user(b"m3"));

    let got = q.take_first_matching(|m| match m {
        Message::User(b) => b.as_ref() == b"target",
        _ => false,
    });
    assert_eq!(got, Some(user(b"target")));

    // the deferred messages come out in order
    assert_eq!(q.pop_front(), Some(user(b"m1")));
    assert_eq!(q.pop_front(), Some(user(b"m3")));
}

#[test]
fn no_match_leaves_queue_alone() {
    let mut q = MessageQueue::new();
    q.push_back(user(b"x"));
    let asked = std::cell::Cell::new(0);
    let got = q.take_first_matching(|_m| {
        asked.set(asked.get() + 1);
        false
    });
    assert_eq!(got, None);
    assert_eq!(asked.get(), 1);
    assert_eq!(q.len(), 1);
}

#[test]
fn system_message_names() {
    assert_eq!(exit(3).kind_name(), "EXIT");
    assert_eq!(SystemMessage::HotSwap(0).kind_name(), "HOT_SWAP");
    assert_eq!(SystemMessage::Ping.kind_name(), "PING");
    assert_eq!(SystemMessage::Pong.kind_name(), "PONG");
    assert_eq!(exit(3).target_pid(), Some(3));
    assert_eq!(SystemMessage::Pong.target_pid(), None);
}

#[test]
fn rejected_arrivals_wait_behind_earlier_ones() {
    let mut q = MessageQueue::new();
    q.push_back(user(b"early"));
    assert_eq!(q.deliver_or_defer(user(b"skip"), false), None);
    assert_eq!(q.deliver_or_defer(user(b"want"), true), Some(user(b"want")));
    assert_eq!(q.to_vec(), vec![user(b"early"), user(b"skip")]);
}

#[test]
fn exit_reasons_follow_how_the_task_ended() {
    assert_eq!(ExitReason::for_task_end(TaskEnd::Finished), ExitReason::Normal);
    assert_eq!(ExitReason::for_task_end(TaskEnd::Panicked), ExitReason::Panic);
    assert_eq!(ExitReason::for_task_end(TaskEnd::Cancelled), ExitReason::Other("join_error".to_string()));
    assert_eq!(ExitReason::Normal.label(), "normal");
    assert_eq!(ExitReason::Killed.label(), "killed");
    assert_eq!(ExitReason::Panic.label(), "panic");
    assert_eq!(ExitReason::Crash.label(), "crash");
    assert_eq!(ExitReason::Other("join_error".to_string()).label(), "join_error");
}

#[test]
fn exit_notices_carry_their_reason() {
    let notice = SystemMessage::Exit(ExitInfo {
        from: 9,
        reason: ExitReason::Panic,
        metadata: Some("join_error: boom".to_string()),
    });
    assert_eq!(notice.kind_name(), "EXIT");
    assert_eq!(notice.target_pid(), Some(9));
    assert_eq!(notice.exit_reason(), Some(&ExitReason::Panic));
    assert_eq!(SystemMessage::Ping.exit_reason(), None);
}

#[test]
fn ready_messages_come_system_first() {
    let mut q = MessageQueue::new();
    q.push_back(user(b"u1"));
    q.push_back(Message::System(SystemMessage::Ping));
    let asked = std::cell::Cell::new(0);
    let poll = || {
        asked.set(asked.get() + 1);
        Some(SystemMessage::Pong)
    };
    // A set-aside system message wins, and the channel is not asked.
    assert_eq!(q.take_ready(poll), Some(Message::System(SystemMessage::Ping)));
    assert_eq!(asked.get(), 0);
    // Then a system message waiting on the channel.
    assert_eq!(q.take_ready(|| Some(SystemMessage::Pong)), Some(Message::System(SystemMessage::Pong)));
    assert_eq!(q.len(), 1);
    // Then the earliest set-aside message.
    assert_eq!(q.take_ready(|| None), Some(user(b"u1")));
    assert_eq!(q.take_ready(|| None), None);
}
