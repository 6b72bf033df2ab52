use iris::buffer::BufferRegistry;

#[test]
fn allocate_take_free() {
    let mut r = BufferRegistry::new();
    let a = r.allocate(5);
    let b = r.allocate(0);
    assert_eq!(a, 1);
    assert_eq!(b, 2);
    assert_eq!(r.ptr_len(a), Some(5));
    assert_eq!(r.ptr_len(b), Some(0));
    assert_eq!(r.take(a), Some(vec![0u8; 5]));
    assert_eq!(r.take(a), None);
    assert_eq!(r.ptr_len(a), None);
    r.free(b);
    assert_eq!(r.take(b), None);
    r.free(42);
}
