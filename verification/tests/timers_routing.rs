use bytes::Bytes;
use iris::mailbox::{ExitInfo, ExitReason, Message, SystemMessage};
use iris::routing::{route, Placement, Route, ThreadQuota};
use iris::timers::TimerTable;

#[test]
fn timer_ids_count_up_and_cancel_once() {
    let mut t: TimerTable<&'static str> = TimerTable::new();
    let a = t.schedule("a");
    let b = t.schedule("b");
    assert_eq!((a, b), (1, 2));
    assert_eq!(t.take(a), Some("a"));
    assert_eq!(t.take(a), None);
    assert_eq!(t.schedule("c"), 3);
    assert_eq!(t.take(b), Some("b"));
}

#[test]
fn handler_routes() {
    let user = Message::User(Bytes::from_static(b"x"));
    let swap = Message::System(SystemMessage::HotSwap(0));
    assert_eq!(route(&user, true, true, true), Route::Forward);
    assert_eq!(route(&swap, true, false, false), Route::Forward);
    assert_eq!(route(&user, false, true, true), Route::Pool);
    assert_eq!(route(&user, false, true, false), Route::Inline);
    assert_eq!(route(&swap, false, false, true), Route::Inline);
    assert_eq!(route(&Message::System(SystemMessage::Exit(ExitInfo { from: 1, reason: ExitReason::Normal, metadata: None })), true, true, true), Route::Exit);
    assert_eq!(route(&Message::System(SystemMessage::Ping), false, false, false), Route::Ignore);
}

#[test]
fn thread_quota_caps_dedicated_workers() {
    let mut q = ThreadQuota::new();
    assert!(q.try_acquire(2));
    assert!(q.try_acquire(2));
    assert!(!q.try_acquire(2));
    q.release();
    assert!(q.try_acquire(2));
    assert!(!q.try_acquire(0));
}

#[test]
fn placement_past_the_limit_follows_strict_mode() {
    let mut q = ThreadQuota::new();
    assert_eq!(q.place(1, true), Placement::Dedicated);
    assert_eq!(q.place(1, false), Placement::SharedPool);
    assert_eq!(q.place(1, true), Placement::Refused);
    assert_eq!(q.active_count(), 1);
}
