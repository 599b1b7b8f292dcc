use ustr::bumpalloc::LeakyBumpAlloc;

#[test]
fn new_allocator_starts_empty() {
    let alloc = LeakyBumpAlloc::new(1024, 8);
    assert_eq!(alloc.allocated(), 0);
    assert_eq!(alloc.capacity(), 1024);
}

#[test]
fn allocate_advances_the_counter() {
    let mut alloc = LeakyBumpAlloc::new(256, 8);
    let first = alloc.allocate(10);
    assert_eq!(first, 0);
    let second = alloc.allocate(22);
    assert_eq!(second, 10);
    assert_eq!(alloc.allocated(), 32);
    assert_eq!(alloc.capacity(), 256);
}

#[test]
fn allocator_grows_past_its_capacity_hint() {
    let mut alloc = LeakyBumpAlloc::new(16, 8);
    alloc.allocate(64);
    assert_eq!(alloc.allocated(), 64);
    assert_eq!(alloc.capacity(), 16);
}

#[test]
fn clear_resets_the_counter() {
    let mut alloc = LeakyBumpAlloc::new(512, 8);
    alloc.allocate(100);
    assert_eq!(alloc.allocated(), 100);
    alloc.clear();
    assert_eq!(alloc.allocated(), 0);
    assert_eq!(alloc.capacity(), 512);
    let offset = alloc.allocate(4);
    assert_eq!(offset, 0);
}

#[test]
fn zero_byte_allocation_is_counted_as_zero() {
    let mut alloc = LeakyBumpAlloc::new(64, 8);
    let offset = alloc.allocate(0);
    assert_eq!(offset, 0);
    assert_eq!(alloc.allocated(), 0);
}
