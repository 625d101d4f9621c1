//! The thread runtime, driven with simulated kernel answers: spawning is a
//! pair of heap records plus a thread-create outcome, joining is a join-call
//! outcome.

use libtinyos::heap::Heap;
use libtinyos::thread::{
    spawn_finish, spawn_prepare, JoinHandle, JoinInner, JoinOutcome, SpawnOutcome, ThreadingErr,
    CAPTURE_RECORD_SIZE,
};

fn work_heap() -> Heap {
    Heap::new(4096, 65536)
}

#[test]
fn spawn_join_round_trip() {
    let mut heap = work_heap();
    let records = spawn_prepare(&mut heap, 64, 8).unwrap();
    let mut handle: JoinHandle<u64> =
        spawn_finish(&mut heap, records, SpawnOutcome::Created(7)).unwrap();
    assert_eq!(*handle.get_id(), 7);
    // the worker runs f(x) and stores the result right before exiting
    let x: u64 = 6;
    let fx = x * x + 1;
    handle.inner.complete(fx);
    // joining after the kernel confirms the exit yields exactly f(x)
    assert_eq!(handle.join(JoinOutcome::Exited), Ok(37));
}

#[test]
fn joining_twice_fails_cleanly() {
    let mut heap = work_heap();
    let records = spawn_prepare(&mut heap, 32, 8).unwrap();
    let mut handle: JoinHandle<u32> =
        spawn_finish(&mut heap, records, SpawnOutcome::Created(3)).unwrap();
    handle.inner.complete(11);
    assert_eq!(handle.join(JoinOutcome::Exited), Ok(11));
    // the cell was emptied by the first join: a second join fails, it does
    // not hand out a second value or hang
    assert_eq!(handle.join(JoinOutcome::Exited), Err(ThreadingErr::Fail));
}

#[test]
fn timeout_leaves_the_worker_running() {
    let mut heap = work_heap();
    let records = spawn_prepare(&mut heap, 48, 8).unwrap();
    let mut handle: JoinHandle<i64> =
        spawn_finish(&mut heap, records, SpawnOutcome::Created(9)).unwrap();
    // the short wait elapses before the worker finishes: no value, no error
    assert_eq!(handle.wait(JoinOutcome::TimedOut), Ok(None));
    assert_eq!(handle.wait(JoinOutcome::TimedOut), Ok(None));
    // the worker finishes later; a subsequent wait sees the value
    handle.inner.complete(-5);
    assert_eq!(handle.wait(JoinOutcome::Exited), Ok(Some(-5)));
}

#[test]
fn kernel_join_error_is_reported() {
    let mut heap = work_heap();
    let records = spawn_prepare(&mut heap, 16, 8).unwrap();
    let mut handle: JoinHandle<u8> =
        spawn_finish(&mut heap, records, SpawnOutcome::Created(1)).unwrap();
    assert_eq!(handle.wait(JoinOutcome::Error), Err(ThreadingErr::Fail));
    assert_eq!(handle.join(JoinOutcome::Error), Err(ThreadingErr::Fail));
}

#[test]
fn exit_without_stored_value_fails_rather_than_hangs() {
    let mut heap = work_heap();
    let records = spawn_prepare(&mut heap, 16, 8).unwrap();
    let mut handle: JoinHandle<u8> =
        spawn_finish(&mut heap, records, SpawnOutcome::Created(2)).unwrap();
    assert_eq!(handle.wait(JoinOutcome::Exited), Err(ThreadingErr::Fail));
}

#[test]
fn no_leak_on_failed_spawn() {
    let mut heap = work_heap();
    let used_before = heap.used();
    let free_before = heap.free();
    let records = spawn_prepare(&mut heap, 128, 8).unwrap();
    // both records are carved out while the kernel call is in flight
    assert_eq!(heap.used(), used_before + 128 + CAPTURE_RECORD_SIZE);
    let r: Result<JoinHandle<u32>, ThreadingErr> =
        spawn_finish(&mut heap, records, SpawnOutcome::Refused);
    assert!(matches!(r, Err(ThreadingErr::Fail)));
    // the boxed closure and the capture record were both reclaimed
    assert_eq!(heap.used(), used_before);
    assert_eq!(heap.free(), free_before);
}

#[test]
fn failed_prepare_rolls_back_the_first_record() {
    // a heap so small that the closure record fits but the capture record
    // does not
    let mut heap = Heap::new(4096, 20);
    let free_before = heap.free();
    assert!(spawn_prepare(&mut heap, 10, 1).is_none());
    assert_eq!(heap.free(), free_before);
}

#[test]
fn successful_spawn_keeps_ownership_with_the_thread() {
    let mut heap = work_heap();
    let used_before = heap.used();
    let records = spawn_prepare(&mut heap, 64, 8).unwrap();
    let _handle: JoinHandle<()> =
        spawn_finish(&mut heap, records, SpawnOutcome::Created(4)).unwrap();
    // the records now belong to the spawned thread's trampoline
    assert_eq!(heap.used(), used_before + 64 + CAPTURE_RECORD_SIZE);
}

#[test]
fn receive_on_an_empty_cell_fails() {
    let mut cell: JoinInner<u16> = JoinInner { ret: None };
    assert_eq!(cell.receive(), Err(ThreadingErr::Fail));
    cell.complete(99);
    assert_eq!(cell.receive(), Ok(99));
    assert_eq!(cell.receive(), Err(ThreadingErr::Fail));
}
