use rkb1_core::allocator::{AllocError, Heap, HeapRoot, InitOnce};

const BASE: usize = 0x2000_0000;
const WINDOW: usize = 0x1_0000;
const HEAP_START: usize = 0x2000_8000;

#[test]
fn heap_first_fit_and_exhaustion() {
    let mut h = Heap::new(1000, 100);
    assert_eq!(h.allocate(10, 1), Ok(1000));
    assert_eq!(h.allocate(20, 1), Ok(1010));
    // larger than what is left
    assert_eq!(h.allocate(80, 1), Err(AllocError));
    // exact fit of the remainder
    assert_eq!(h.allocate(70, 1), Ok(1030));
    assert_eq!(h.allocate(1, 1), Err(AllocError));
}

#[test]
fn heap_alignment_padding() {
    let mut h = Heap::new(1001, 99);
    let a = h.allocate(8, 8).unwrap();
    assert_eq!(a, 1008);
    assert_eq!(a % 8, 0);
}

#[test]
fn heap_round_trip_reuses_the_freed_span() {
    let mut h = Heap::new(2000, 64);
    let a = h.allocate(64, 1).unwrap();
    assert_eq!(a, 2000);
    assert_eq!(h.allocate(1, 1), Err(AllocError));
    h.deallocate(a, 64, 1);
    // the exact span is available again
    assert_eq!(h.allocate(64, 1), Ok(2000));
}

#[test]
fn heap_round_trip_smaller_request_fits() {
    let mut h = Heap::new(3000, 32);
    let a = h.allocate(32, 4).unwrap();
    h.deallocate(a, 32, 4);
    assert_eq!(h.allocate(8, 4), Ok(3000));
}

#[test]
fn coalescing_lower_then_upper() {
    let mut h = Heap::new(1000, 100);
    let a = h.allocate(30, 1).unwrap();
    let b = h.allocate(30, 1).unwrap();
    assert_eq!((a, b), (1000, 1030));
    h.deallocate(a, 30, 1);
    h.deallocate(b, 30, 1);
    // a request larger than either span but no larger than their sum
    assert_eq!(h.allocate(60, 1), Ok(1000));
}

#[test]
fn coalescing_upper_then_lower() {
    let mut h = Heap::new(1000, 100);
    let a = h.allocate(30, 1).unwrap();
    let b = h.allocate(30, 1).unwrap();
    h.deallocate(b, 30, 1);
    h.deallocate(a, 30, 1);
    assert_eq!(h.allocate(60, 1), Ok(1000));
}

#[test]
fn coalescing_with_both_neighbours() {
    let mut h = Heap::new(1000, 100);
    let a = h.allocate(20, 1).unwrap();
    let b = h.allocate(20, 1).unwrap();
    let c = h.allocate(20, 1).unwrap();
    h.deallocate(a, 20, 1);
    h.deallocate(c, 20, 1);
    // freeing the middle block merges all three spans
    h.deallocate(b, 20, 1);
    assert_eq!(h.allocate(100, 1), Ok(1000));
}

#[test]
fn address_to_heap_index_inverse() {
    let root = HeapRoot::new_unsafe(HEAP_START);
    // inside each window the index is recovered exactly
    assert_eq!(root.heap_index_for_address(HEAP_START), Some(0));
    assert_eq!(root.heap_index_for_address(BASE + WINDOW - 1), Some(0));
    assert_eq!(root.heap_index_for_address(BASE + WINDOW), Some(1));
    assert_eq!(root.heap_index_for_address(BASE + 2 * WINDOW - 1), Some(1));
    assert_eq!(root.heap_index_for_address(BASE + 2 * WINDOW), Some(2));
    assert_eq!(root.heap_index_for_address(BASE + 3 * WINDOW), Some(3));
    assert_eq!(root.heap_index_for_address(BASE + 4 * WINDOW - 1), Some(3));
    // outside all windows the address is refused
    assert_eq!(root.heap_index_for_address(HEAP_START - 1), None);
    assert_eq!(root.heap_index_for_address(BASE), None);
    assert_eq!(root.heap_index_for_address(BASE + 4 * WINDOW), None);
    assert_eq!(root.heap_index_for_address(0), None);
    assert_eq!(root.heap_index_for_address(usize::MAX), None);
}

#[test]
fn root_allocates_round_robin_and_recovers_owner() {
    let mut root = HeapRoot::new_unsafe(HEAP_START);
    let a = root.allocate(0x100, 4).unwrap();
    assert_eq!(a % 4, 0);
    let b = root.allocate(0x100, 4).unwrap();
    // different rounds land in different windows
    assert_ne!(root.heap_index_for_address(a), root.heap_index_for_address(b));
    root.deallocate(a, 0x100, 4);
    root.deallocate(b, 0x100, 4);
}

#[test]
fn root_fails_only_after_all_four_heaps() {
    let mut root = HeapRoot::new_unsafe(HEAP_START);
    // drain all four windows completely
    let mut got: Vec<usize> = Vec::new();
    got.push(root.allocate(WINDOW, 1).unwrap());
    got.push(root.allocate(WINDOW, 1).unwrap());
    got.push(root.allocate(WINDOW, 1).unwrap());
    got.push(root.allocate(0x8000, 1).unwrap());
    // every heap was tried and none had room left
    assert_eq!(root.allocate(1, 1), Err(AllocError));
    // releasing one window makes exactly that window usable again
    root.deallocate(got[0], WINDOW, 1);
    let again = root.allocate(WINDOW, 1).unwrap();
    assert_eq!(again, got[0]);
}

#[test]
fn root_round_trip_through_owner_recovery() {
    let mut root = HeapRoot::new_unsafe(HEAP_START);
    let a = root.allocate(0x40, 8).unwrap();
    root.deallocate(a, 0x40, 8);
    let b = root.allocate(0x20, 8).unwrap();
    assert_eq!(b % 8, 0);
    root.deallocate(b, 0x20, 8);
}

#[test]
fn get_heap_cycles_and_locks() {
    let mut root = HeapRoot::new_unsafe(HEAP_START);
    let i = root.try_get_heap().unwrap();
    assert_eq!(i, 0);
    // the chosen heap stays locked until released
    root.unlock_heap(i);
    let j = root.get_heap();
    assert_eq!(j, 1);
    root.unlock_heap(j);
    let k = root.try_get_heap_for_pointer(BASE + 2 * WINDOW + 5).unwrap();
    assert_eq!(k, 2);
    root.unlock_heap(k);
    let l = root.get_heap_for_pointer(HEAP_START + 1);
    assert_eq!(l, 0);
    root.unlock_heap(l);
}

#[test]
fn double_init_is_refused() {
    let mut once = InitOnce::new();
    let first = HeapRoot::new(&mut once, HEAP_START);
    assert!(first.is_some());
    // the second construction under the same flag gets nothing; the
    // firmware shell turns this into a fatal error
    let second = HeapRoot::new(&mut once, HEAP_START);
    assert!(second.is_none());
}
