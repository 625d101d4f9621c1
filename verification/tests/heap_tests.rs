//! The free-memory structure on its own: first-fit, coalescing, extension.

use libtinyos::heap::Heap;

#[test]
fn a_fresh_heap_is_all_free() {
    let h = Heap::new(1000, 500);
    assert_eq!(h.size(), 500);
    assert_eq!(h.free(), 500);
    assert_eq!(h.used(), 0);
}

#[test]
fn first_fit_takes_the_lowest_hole() {
    let mut h = Heap::new(1000, 500);
    assert_eq!(h.allocate_first_fit(100, 1), Some(1000));
    assert_eq!(h.allocate_first_fit(100, 1), Some(1100));
    assert_eq!(h.free(), 300);
    h.deallocate(1000, 100);
    // the freed low block is preferred over the high free tail
    assert_eq!(h.allocate_first_fit(50, 1), Some(1000));
}

#[test]
fn an_exact_fit_consumes_the_hole() {
    let mut h = Heap::new(1000, 500);
    assert_eq!(h.allocate_first_fit(500, 1), Some(1000));
    assert_eq!(h.free(), 0);
    assert_eq!(h.allocate_first_fit(1, 1), None);
}

#[test]
fn alignment_skips_to_an_aligned_address() {
    let mut h = Heap::new(1000, 5000);
    assert_eq!(h.allocate_first_fit(24, 1), Some(1000));
    // the next 2048-aligned address inside the hole is 2048
    assert_eq!(h.allocate_first_fit(8, 2048), Some(2048));
    // the padding in front of it stayed free
    assert_eq!(h.allocate_first_fit(100, 1), Some(1024));
}

#[test]
fn deallocate_coalesces_both_ways() {
    let mut h = Heap::new(1000, 300);
    let a = h.allocate_first_fit(100, 1).unwrap();
    let b = h.allocate_first_fit(100, 1).unwrap();
    let c = h.allocate_first_fit(100, 1).unwrap();
    assert_eq!((a, b, c), (1000, 1100, 1200));
    h.deallocate(a, 100);
    h.deallocate(c, 100);
    h.deallocate(b, 100);
    // all three merged back into one run
    assert_eq!(h.free(), 300);
    assert_eq!(h.allocate_first_fit(300, 1), Some(1000));
}

#[test]
fn extend_grows_the_top_of_the_heap() {
    let mut h = Heap::new(1000, 100);
    assert_eq!(h.allocate_first_fit(100, 1), Some(1000));
    assert_eq!(h.allocate_first_fit(50, 1), None);
    h.extend(200);
    assert_eq!(h.size(), 300);
    assert_eq!(h.free(), 200);
    assert_eq!(h.allocate_first_fit(50, 1), Some(1100));
}

#[test]
fn extend_merges_with_a_free_tail() {
    let mut h = Heap::new(1000, 100);
    h.extend(100);
    // the whole span is one run: a request for all of it succeeds
    assert_eq!(h.allocate_first_fit(200, 1), Some(1000));
}

#[test]
fn too_large_requests_are_refused() {
    let mut h = Heap::new(1000, 100);
    assert_eq!(h.allocate_first_fit(101, 1), None);
    // a refused allocation changes nothing
    assert_eq!(h.free(), 100);
    assert_eq!(h.allocate_first_fit(100, 1), Some(1000));
}
