//! The self-extending allocator, driven with a simulated kernel: the test
//! grants or refuses the regions the protocol asks for.

use libtinyos::tiny_alloc::{
    AllocRequest, AllocStep, EnsureInitAlloc, HEAP_START_ADDR, MAX_HEAP_SIZE, START_HEAP_SIZE,
};

/// Runs one allocation to completion against a kernel that grants every
/// region. Returns the address, or None when the allocator gave up.
fn alloc_always_granting(a: &mut EnsureInitAlloc, size: usize, align: usize) -> Option<usize> {
    let mut step = a.alloc_begin(size, align);
    loop {
        match step {
            AllocStep::Done(addr) => return Some(addr),
            AllocStep::Fail => return None,
            AllocStep::Grow { at: _, bytes, pending } => {
                step = a.alloc_extend(pending, bytes);
            }
        }
    }
}

fn fresh() -> EnsureInitAlloc {
    let mut a = EnsureInitAlloc::empty();
    assert!(!a.is_initialized());
    assert!(a.alloc_data().is_none());
    a.init(HEAP_START_ADDR);
    assert!(a.is_initialized());
    a
}

#[test]
fn first_allocation_sits_at_the_heap_base() {
    let mut a = fresh();
    let d = a.alloc_data().unwrap();
    assert_eq!(d.free, START_HEAP_SIZE);
    assert_eq!(d.used, 0);
    let addr = alloc_always_granting(&mut a, 1000, 1).unwrap();
    assert_eq!(addr, HEAP_START_ADDR);
    let d = a.alloc_data().unwrap();
    assert_eq!(d.used, 1000);
    assert_eq!(d.free, START_HEAP_SIZE - 1000);
}

#[test]
fn exhaustion_triggers_growth() {
    let mut a = fresh();
    // fill the initial region down to a sliver
    assert!(alloc_always_granting(&mut a, 51200, 1).is_some());
    assert!(alloc_always_granting(&mut a, 51100, 1).is_some());
    assert_eq!(a.alloc_data().unwrap().free, 100);
    // the next allocation must ask for a region and then succeed
    let step = a.alloc_begin(1000, 1);
    let (at, bytes, pending) = match step {
        AllocStep::Grow { at, bytes, pending } => (at, bytes, pending),
        other => panic!("expected a growth request, got {:?}", other),
    };
    assert_eq!(at, HEAP_START_ADDR + START_HEAP_SIZE);
    assert_eq!(bytes, START_HEAP_SIZE); // doubling: as much again
    assert!(bytes >= 1000); // the free count after extension grows by >= the request
    let free_before = a.alloc_data().unwrap().free;
    assert_eq!(free_before, 100);
    let step = a.alloc_extend(pending, bytes);
    assert!(matches!(step, AllocStep::Done(_)));
    // the extension added exactly `bytes`, the retry then took 1000 of them
    assert_eq!(a.alloc_data().unwrap().free, free_before + bytes - 1000);
}

#[test]
fn exact_fit_request_succeeds() {
    let mut a = fresh();
    // free space is exactly START_HEAP_SIZE; request exactly that much
    let step = a.alloc_begin(START_HEAP_SIZE, 1);
    // the request is bumped by one byte, which cannot fit: growth
    let (bytes, pending) = match step {
        AllocStep::Grow { at: _, bytes, pending } => (bytes, pending),
        other => panic!("expected a growth request, got {:?}", other),
    };
    assert_eq!(pending.size, START_HEAP_SIZE + 1);
    let step = a.alloc_extend(pending, bytes);
    let addr = match step {
        AllocStep::Done(addr) => addr,
        other => panic!("exact-fit request failed: {:?}", other),
    };
    assert_eq!(addr, HEAP_START_ADDR);
}

#[test]
fn exact_fit_after_partial_use() {
    let mut a = fresh();
    // drive free space down to exactly 4096 bytes
    assert!(alloc_always_granting(&mut a, START_HEAP_SIZE - 4096, 1).is_some());
    assert_eq!(a.alloc_data().unwrap().free, 4096);
    // request exactly the remaining free space: must succeed
    assert!(alloc_always_granting(&mut a, 4096, 1).is_some());
}

#[test]
fn growth_never_exceeds_the_maximum() {
    let mut a = fresh();
    let mut failures = 0;
    for _ in 0..2000 {
        match alloc_always_granting(&mut a, 1024 * 1024, 1) {
            Some(_) => {}
            None => {
                failures += 1;
                break;
            }
        }
        assert!(a.inner.total <= MAX_HEAP_SIZE);
    }
    // allocating beyond the ceiling eventually fails, and never panics
    assert_eq!(failures, 1);
    assert!(a.inner.total <= MAX_HEAP_SIZE);
}

#[test]
fn dealloc_then_realloc_reuses_the_address() {
    let mut a = fresh();
    let addr_a = alloc_always_granting(&mut a, 1000, 1).unwrap();
    let used = a.alloc_data().unwrap().used;
    a.dealloc(addr_a, 1000);
    assert_eq!(a.alloc_data().unwrap().used, used - 1000);
    let addr_b = alloc_always_granting(&mut a, 1000, 1).unwrap();
    assert_eq!(addr_a, addr_b);
}

#[test]
fn freed_neighbours_coalesce() {
    let mut a = fresh();
    let a1 = alloc_always_granting(&mut a, 4096, 1).unwrap();
    let a2 = alloc_always_granting(&mut a, 4096, 1).unwrap();
    let _a3 = alloc_always_granting(&mut a, 4096, 1).unwrap();
    a.dealloc(a2, 4096);
    a.dealloc(a1, 4096);
    // the two freed blocks merged: a doubled request fits at the first one
    let b = alloc_always_granting(&mut a, 8192, 1).unwrap();
    assert_eq!(b, a1);
}

#[test]
fn aligned_allocation_is_aligned() {
    let mut a = fresh();
    let _pad = alloc_always_granting(&mut a, 100, 1).unwrap();
    let addr = alloc_always_granting(&mut a, 256, 4096).unwrap();
    assert_eq!(addr % 4096, 0);
    assert_eq!(addr, HEAP_START_ADDR + 4096);
}

#[test]
fn growth_request_rounds_to_page_granularity() {
    let mut a = fresh();
    // push the total to a size that is not a multiple of the page size
    let step = a.alloc_extend(AllocRequest { size: 1, align: 1 }, 100);
    assert!(matches!(step, AllocStep::Done(_)));
    assert_eq!(a.inner.total, START_HEAP_SIZE + 100);
    // fill everything so the next request must grow
    let free = a.alloc_data().unwrap().free;
    assert!(alloc_always_granting(&mut a, free - 1, 1).is_some());
    let step = a.alloc_begin(50000, 1);
    match step {
        AllocStep::Grow { at: _, bytes, pending: _ } => {
            // doubling 102500 and rounding up to 4096 gives 208896
            assert_eq!(a.inner.total, 102500);
            assert_eq!(bytes, 208896 - 102500);
        }
        other => panic!("expected a growth request, got {:?}", other),
    }
}

#[test]
fn refused_grant_means_out_of_memory() {
    let mut a = fresh();
    let step = a.alloc_begin(START_HEAP_SIZE + 5000, 1);
    // the kernel refuses: the caller reports a null allocation and the
    // allocator state is untouched
    assert!(matches!(step, AllocStep::Grow { .. }));
    assert_eq!(a.alloc_data().unwrap().free, START_HEAP_SIZE);
}

#[test]
fn dealloc_of_null_is_a_no_op() {
    let mut a = fresh();
    let before = a.alloc_data().unwrap();
    a.dealloc(0, 123);
    assert_eq!(a.alloc_data().unwrap(), before);
}

#[test]
fn dealloc_before_init_is_a_no_op() {
    let mut a = EnsureInitAlloc::empty();
    a.dealloc(12345, 8);
    assert!(!a.is_initialized());
}

#[test]
fn second_init_is_observed_not_repeated() {
    let mut a = fresh();
    let addr = alloc_always_granting(&mut a, 64, 1).unwrap();
    a.init(HEAP_START_ADDR + 777);
    // the loser of the initialization race sees the winner's heap
    assert_eq!(a.inner.bottom, HEAP_START_ADDR);
    assert_eq!(a.alloc_data().unwrap().used, 64);
    let _ = addr;
}
