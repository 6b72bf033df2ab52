use iris::pid::{make_pid, split_pid, SlabAllocator};

#[test]
fn allocate_and_free() {
    let mut s = SlabAllocator::new();
    let a = s.allocate();
    let b = s.allocate();
    assert_ne!(a, b);
    assert!(s.is_valid(a));
    assert!(s.deallocate(a));
    assert!(!s.is_valid(a));
    // re-allocate should return a different generational PID
    let c = s.allocate();
    assert!(s.is_valid(c));
    assert_ne!(c, a);
}

#[test]
fn pid_layout_is_generation_then_index() {
    assert_eq!(make_pid(0, 1), 0x1_0000_0000);
    assert_eq!(make_pid(5, 2), 0x2_0000_0005);
    assert_eq!(split_pid(0x2_0000_0005), (5, 2));
    assert_eq!(split_pid(make_pid(0xffff_ffff, 0xffff_ffff)), (0xffff_ffff, 0xffff_ffff));
}

#[test]
fn first_pids_use_generation_one() {
    let mut s = SlabAllocator::new();
    assert_eq!(s.allocate(), make_pid(0, 1));
    assert_eq!(s.allocate(), make_pid(1, 1));
}

#[test]
fn freed_slot_is_reused_with_next_generation() {
    let mut s = SlabAllocator::new();
    let a = s.allocate();
    let _b = s.allocate();
    assert!(s.deallocate(a));
    let c = s.allocate();
    assert_eq!(c, make_pid(0, 2));
}

#[test]
fn most_recently_freed_slot_is_reused_first() {
    let mut s = SlabAllocator::new();
    let a = s.allocate();
    let b = s.allocate();
    assert!(s.deallocate(a));
    assert!(s.deallocate(b));
    assert_eq!(s.allocate(), make_pid(1, 2));
    assert_eq!(s.allocate(), make_pid(0, 2));
}

#[test]
fn double_free_is_refused() {
    let mut s = SlabAllocator::new();
    let a = s.allocate();
    assert!(s.deallocate(a));
    assert!(!s.deallocate(a));
}

#[test]
fn unknown_and_stale_pids_are_invalid() {
    let mut s = SlabAllocator::new();
    assert!(!s.is_valid(make_pid(0, 1)));
    let a = s.allocate();
    assert!(!s.is_valid(make_pid(0, 2)));
    assert!(!s.is_valid(make_pid(7, 1)));
    assert!(!s.deallocate(make_pid(7, 1)));
    assert!(s.is_valid(a));
}

#[test]
fn validity_tracks_outstanding_pids() {
    let mut s = SlabAllocator::new();
    let a = s.allocate();
    let b = s.allocate();
    assert!(s.deallocate(a));
    let c = s.allocate();
    assert!(!s.deallocate(a));
    assert!(!s.is_valid(a));
    assert!(s.is_valid(b));
    assert!(s.is_valid(c));
    assert!(s.deallocate(c));
    assert!(!s.is_valid(c));
    assert!(s.is_valid(b));
}
