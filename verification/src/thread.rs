//! The thread runtime: spawning a unit of work on a kernel-scheduled thread
//! and carrying its return value back through a write-once join cell.
//!
//! The kernel's thread-create and thread-join calls are outside work that the
//! embedding program performs; their outcomes enter here as events. What is
//! proved is the bookkeeping around them: the two heap records that carry the
//! erased closure across the syscall boundary are reclaimed in full when the
//! kernel refuses to create the thread, the join cell is written at most once
//! and read at most once, and every value the worker stores is handed back
//! exactly as it was stored.

use vstd::prelude::*;

use crate::heap::{
    carve, find_fit, range_is_allocated, insert_hole, FreeRange, Heap, holes_wf,
    lemma_carve_disjoint,
    lemma_carve_insert_id, lemma_carve_props, lemma_find_fit_props, lemma_insert_hole_disjoint,
    range_end,
};

verus! {

/// Bytes of the record that carries the erased closure's data pointer and
/// dispatch descriptor across the untyped syscall boundary.
pub const CAPTURE_RECORD_SIZE: usize = 16;

/// Alignment of that record: two machine words.
pub const CAPTURE_RECORD_ALIGN: usize = 8;

#[derive(Debug, Clone, PartialEq, Eq, Structural)]
pub enum ThreadingErr {
    Fail,
}

pub type ThreadingResult<T> = Result<T, ThreadingErr>;

/// What the kernel's thread-create call answered.
#[derive(Debug, Clone, Copy, PartialEq, Eq, Structural)]
pub enum SpawnOutcome {
    /// A thread was created and runs under this identifier.
    Created(u64),
    /// The kernel refused: resource exhaustion.
    Refused,
}

/// What the kernel's thread-join call answered.
#[derive(Debug, Clone, Copy, PartialEq, Eq, Structural)]
pub enum JoinOutcome {
    /// The kernel confirmed that the thread has exited.
    Exited,
    /// The timeout elapsed first; the worker keeps running.
    TimedOut,
    /// The join call itself failed.
    Error,
}

/// The shared completion cell: written at most once by the worker, read at
/// most once by the first successful join.
pub struct JoinInner<T> {
    pub ret: Option<T>,
}

impl<T> JoinInner<T> {
    /// Takes the stored value out; failing when nothing was stored, which a
    /// kernel-confirmed exit makes a defect rather than a wait.
    pub fn receive(&mut self) -> (r: ThreadingResult<T>)
        ensures
            match old(self).ret {
                Some(v) => r == Ok::<T, ThreadingErr>(v) && final(self).ret is None,
                None => r == Err::<T, ThreadingErr>(ThreadingErr::Fail) && final(self).ret
                    is None,
            },
    {
        self.ret.take().ok_or(ThreadingErr::Fail)
    }

    /// The worker's single store, performed right before it exits. The cell
    /// is write-once: program structure guarantees it is still empty.
    pub fn complete(&mut self, value: T)
        requires
            old(self).ret is None,
        ensures
            final(self).ret == Some(value),
    {
        self.ret = Some(value);
    }
}

/// What `wait` answers and what it leaves in the cell, given the cell's
/// content and the kernel's join outcome: a kernel error fails the call, a
/// timeout reports "not yet" and touches nothing, and a confirmed exit hands
/// the stored value out — or fails if, despite the exit, nothing was stored.
pub open spec fn wait_decision<T>(cell: Option<T>, outcome: JoinOutcome) -> (
    ThreadingResult<Option<T>>,
    Option<T>,
) {
    match outcome {
        JoinOutcome::Error => (Err(ThreadingErr::Fail), cell),
        JoinOutcome::TimedOut => (Ok(None), cell),
        JoinOutcome::Exited => match cell {
            Some(v) => (Ok(Some(v)), None),
            None => (Err(ThreadingErr::Fail), None),
        },
    }
}

/// What `join` answers: `wait` with the infinite timeout, where coming back
/// empty-handed is a failure.
pub open spec fn join_decision<T>(cell: Option<T>, outcome: JoinOutcome) -> (
    ThreadingResult<T>,
    Option<T>,
) {
    let (r, cell1) = wait_decision(cell, outcome);
    match r {
        Ok(opt) => match opt {
            Some(v) => (Ok(v), cell1),
            None => (Err(ThreadingErr::Fail), cell1),
        },
        Err(e) => (Err(e), cell1),
    }
}

/// Turns the kernel's join outcome, and the value taken out of the cell for
/// a confirmed exit, into the wait's answer. An embedder whose cell is
/// shared across threads takes the value itself — only after the kernel
/// confirmed the exit — and consults this for the verdict.
pub fn wait_verdict<T>(outcome: JoinOutcome, taken: Option<T>) -> (r: ThreadingResult<Option<T>>)
    ensures
        r == wait_decision(taken, outcome).0,
{
    match outcome {
        JoinOutcome::Error => Err(ThreadingErr::Fail),
        JoinOutcome::TimedOut => Ok(None),
        JoinOutcome::Exited => match taken {
            Some(v) => Ok(Some(v)),
            None => Err(ThreadingErr::Fail),
        },
    }
}

/// The spawning side's capability to observe completion: the kernel thread
/// identifier and this side's reference to the join cell.
pub struct JoinHandle<T> {
    pub id: u64,
    pub inner: JoinInner<T>,
}

impl<T> JoinHandle<T> {
    pub fn get_id(&self) -> (r: &u64)
        ensures
            *r == self.id,
    {
        &self.id
    }

    fn wait_for(&mut self, outcome: JoinOutcome) -> (r: ThreadingResult<Option<T>>)
        ensures
            final(self).id == old(self).id,
            (r, final(self).inner.ret) == wait_decision(old(self).inner.ret, outcome),
    {
        let taken = match outcome {
            JoinOutcome::Exited => self.inner.ret.take(),
            JoinOutcome::TimedOut => None,
            JoinOutcome::Error => None,
        };
        wait_verdict(outcome, taken)
    }

    /// Waits for the worker with a timeout; `outcome` is what the kernel's
    /// join call answered for that timeout. A timeout cancels only the
    /// waiting, never the work: the caller may wait again later.
    pub fn wait(&mut self, outcome: JoinOutcome) -> (r: ThreadingResult<Option<T>>)
        ensures
            final(self).id == old(self).id,
            (r, final(self).inner.ret) == wait_decision(old(self).inner.ret, outcome),
    {
        self.wait_for(outcome)
    }

    /// Waits without a timeout; `outcome` is what the kernel answered. The
    /// kernel confirming an exit with nothing stored is a failure, not a
    /// hang.
    pub fn join(&mut self, outcome: JoinOutcome) -> (r: ThreadingResult<T>)
        ensures
            final(self).id == old(self).id,
            (r, final(self).inner.ret) == join_decision(old(self).inner.ret, outcome),
    {
        match self.wait_for(outcome) {
            Ok(Some(v)) => Ok(v),
            Ok(None) => Err(ThreadingErr::Fail),
            Err(e) => Err(e),
        }
    }
}

/// The two heap records a spawn carves out before the thread-create call:
/// the boxed adapter closure, and the fixed-size capture record whose address
/// is the single untyped pointer the kernel passes on.
#[derive(Debug, Clone, Copy, PartialEq, Eq, Structural)]
pub struct SpawnRecords {
    pub closure_addr: usize,
    pub closure_size: usize,
    pub parts_addr: usize,
}

impl SpawnRecords {
    /// Both records live in the heap, disjointly, at nonzero addresses.
    pub open spec fn live_in(self, heap: Heap) -> bool {
        &&& 1 <= self.closure_size
        &&& 1 <= self.closure_addr
        &&& 1 <= self.parts_addr
        &&& range_is_allocated(
            heap.holes@,
            heap.bottom as int,
            heap.total as int,
            self.closure_addr as int,
            self.closure_size as int,
        )
        &&& range_is_allocated(
            heap.holes@,
            heap.bottom as int,
            heap.total as int,
            self.parts_addr as int,
            CAPTURE_RECORD_SIZE as int,
        )
        &&& (self.parts_addr + CAPTURE_RECORD_SIZE <= self.closure_addr || self.closure_addr
            + self.closure_size <= self.parts_addr)
    }
}

/// Whether the two records a spawn needs can be carved from this hole list:
/// the boxed closure by first fit, then the capture record from what is left.
pub open spec fn spawn_records_fit(
    holes: Seq<FreeRange>,
    closure_size: int,
    closure_align: int,
) -> bool {
    match find_fit(holes, closure_size, closure_align) {
        None => false,
        Some((i1, a1)) => find_fit(
            carve(holes, i1, a1, closure_size),
            CAPTURE_RECORD_SIZE as int,
            CAPTURE_RECORD_ALIGN as int,
        ) is Some,
    }
}

/// Carves the two records a spawn needs out of the heap: first the boxed
/// adapter closure, then the fixed-size capture record. Preparing succeeds
/// exactly when both records fit; when only the first fits it is rolled back
/// before failure is reported: preparing a spawn leaks nothing.
#[verifier::rlimit(100)]
#[verifier::spinoff_prover]
pub fn spawn_prepare(heap: &mut Heap, closure_size: usize, closure_align: usize) -> (r: Option<
    SpawnRecords,
>)
    requires
        old(heap).wf(),
        1 <= closure_size,
        1 <= closure_align,
    ensures
        final(heap).wf(),
        final(heap).bottom == old(heap).bottom,
        final(heap).total == old(heap).total,
        r is Some <==> spawn_records_fit(
            old(heap).holes@,
            closure_size as int,
            closure_align as int,
        ),
        r is None ==> final(heap).holes@ == old(heap).holes@ && final(heap).free_bytes == old(
            heap,
        ).free_bytes,
        r matches Some(rec) ==> ({
            let (i1, a1) = find_fit(
                old(heap).holes@,
                closure_size as int,
                closure_align as int,
            )->Some_0;
            let h1 = carve(old(heap).holes@, i1, a1, closure_size as int);
            let (i2, a2) = find_fit(
                h1,
                CAPTURE_RECORD_SIZE as int,
                CAPTURE_RECORD_ALIGN as int,
            )->Some_0;
            &&& rec.closure_addr == a1
            &&& rec.closure_size == closure_size
            &&& rec.parts_addr == a2
            &&& final(heap).holes@ == carve(h1, i2, a2, CAPTURE_RECORD_SIZE as int)
            &&& rec.live_in(*final(heap))
            &&& final(heap).free_bytes == old(heap).free_bytes - closure_size
                - CAPTURE_RECORD_SIZE
            &&& insert_hole(
                insert_hole(
                    final(heap).holes@,
                    rec.parts_addr as int,
                    CAPTURE_RECORD_SIZE as int,
                ),
                rec.closure_addr as int,
                closure_size as int,
            ) == old(heap).holes@
        }),
{
    let ghost h0 = heap.holes@;
    let ghost bottom = heap.bottom as int;
    let ghost total = heap.total as int;
    let c_addr = match heap.allocate_first_fit(closure_size, closure_align) {
        None => {
            return None;
        },
        Some(a) => a,
    };
    let ghost (i1, a1) = find_fit(h0, closure_size as int, closure_align as int)->Some_0;
    let ghost h1 = heap.holes@;
    proof {
        lemma_find_fit_props(h0, closure_size as int, closure_align as int, 0);
        lemma_carve_props(h0, bottom, total, i1, a1, closure_size as int);
    }
    match heap.allocate_first_fit(CAPTURE_RECORD_SIZE, CAPTURE_RECORD_ALIGN) {
        None => {
            proof {
                lemma_carve_insert_id(h0, bottom, total, i1, a1, closure_size as int);
            }
            heap.deallocate(c_addr, closure_size);
            None
        },
        Some(p_addr) => {
            let ghost (i2, a2) = find_fit(
                h1,
                CAPTURE_RECORD_SIZE as int,
                CAPTURE_RECORD_ALIGN as int,
            )->Some_0;
            proof {
                lemma_find_fit_props(h1, CAPTURE_RECORD_SIZE as int, CAPTURE_RECORD_ALIGN as int, 0);
                // the closure record stays disjoint from the holes left after
                // the second carve
                lemma_carve_disjoint(
                    h1,
                    i2,
                    a2,
                    CAPTURE_RECORD_SIZE as int,
                    c_addr as int,
                    closure_size as int,
                );
                // the capture record lies inside a hole the closure record
                // was disjoint from, so the two records are disjoint
                assert(c_addr + closure_size <= h1[i2].start || range_end(h1[i2])
                    <= c_addr as int);
                // returning both records in reverse order restores the holes
                lemma_carve_insert_id(h1, bottom, total, i2, a2, CAPTURE_RECORD_SIZE as int);
                lemma_carve_insert_id(h0, bottom, total, i1, a1, closure_size as int);
            }
            Some(SpawnRecords { closure_addr: c_addr, closure_size, parts_addr: p_addr })
        },
    }
}

/// Finishes a spawn once the kernel's thread-create call has answered. On
/// success the new thread owns both records and the caller gets the handle,
/// with the join cell still empty. On refusal both records are reclaimed —
/// no leak on the failed-spawn path — and the error is reported.
#[verifier::rlimit(100)]
#[verifier::spinoff_prover]
pub fn spawn_finish<T>(heap: &mut Heap, records: SpawnRecords, outcome: SpawnOutcome) -> (r:
    ThreadingResult<JoinHandle<T>>)
    requires
        old(heap).wf(),
        records.live_in(*old(heap)),
    ensures
        final(heap).wf(),
        final(heap).bottom == old(heap).bottom,
        final(heap).total == old(heap).total,
        outcome matches SpawnOutcome::Created(id) ==> ({
            &&& final(heap).holes@ == old(heap).holes@
            &&& final(heap).free_bytes == old(heap).free_bytes
            &&& r matches Ok(h) && h.id == id && h.inner.ret is None
        }),
        outcome is Refused ==> ({
            &&& r == Err::<JoinHandle<T>, ThreadingErr>(ThreadingErr::Fail)
            &&& final(heap).holes@ == insert_hole(
                insert_hole(
                    old(heap).holes@,
                    records.parts_addr as int,
                    CAPTURE_RECORD_SIZE as int,
                ),
                records.closure_addr as int,
                records.closure_size as int,
            )
            &&& final(heap).free_bytes == old(heap).free_bytes + CAPTURE_RECORD_SIZE
                + records.closure_size
        }),
{
    match outcome {
        SpawnOutcome::Created(id) => Ok(JoinHandle { id, inner: JoinInner { ret: None } }),
        SpawnOutcome::Refused => {
            let ghost h0 = heap.holes@;
            let ghost bottom = heap.bottom as int;
            let ghost total = heap.total as int;
            heap.deallocate(records.parts_addr, CAPTURE_RECORD_SIZE);
            proof {
                lemma_insert_hole_disjoint(
                    h0,
                    bottom,
                    total,
                    records.parts_addr as int,
                    CAPTURE_RECORD_SIZE as int,
                    records.closure_addr as int,
                    records.closure_size as int,
                );
            }
            heap.deallocate(records.closure_addr, records.closure_size);
            Err(ThreadingErr::Fail)
        },
    }
}

/// Spawn/join round trip: a spawned unit of work that computed a value and
/// stored it is joined to exactly that value, and the cell is emptied so the
/// value cannot be handed out twice.
pub proof fn lemma_spawn_join_round_trip<T>(v: T)
    ensures
        join_decision(Some(v), JoinOutcome::Exited) == (Ok::<T, ThreadingErr>(v), None::<T>),
{
}

/// Timeout semantics: a timed-out wait answers "not completed" and touches
/// nothing — the worker keeps running — and once the worker has stored its
/// value, a later wait hands that value out unchanged.
pub proof fn lemma_wait_timeout_then_wait<T>(cell: Option<T>, v: T)
    ensures
        wait_decision(cell, JoinOutcome::TimedOut) == (
            Ok::<Option<T>, ThreadingErr>(None::<T>),
            cell,
        ),
        wait_decision(Some(v), JoinOutcome::Exited) == (
            Ok::<Option<T>, ThreadingErr>(Some(v)),
            None::<T>,
        ),
{
}

/// A failed spawn leaks nothing: when the kernel refuses to create the
/// thread, returning the capture record and then the boxed closure restores
/// the hole list — and with it the used-byte count — exactly as it was
/// before the spawn carved them out.
pub proof fn lemma_failed_spawn_reclaims(
    holes: Seq<FreeRange>,
    bottom: int,
    total: int,
    closure_size: int,
    closure_align: int,
)
    requires
        0 <= bottom,
        bottom + total <= usize::MAX,
        holes_wf(holes, bottom, total),
        1 <= closure_size,
        1 <= closure_align,
        find_fit(holes, closure_size, closure_align) is Some,
    ensures
        ({
            let (i1, a1) = find_fit(holes, closure_size, closure_align)->Some_0;
            let h1 = carve(holes, i1, a1, closure_size);
            find_fit(h1, CAPTURE_RECORD_SIZE as int, CAPTURE_RECORD_ALIGN as int) matches Some(
                fit2,
            ) ==> insert_hole(
                insert_hole(
                    carve(h1, fit2.0, fit2.1, CAPTURE_RECORD_SIZE as int),
                    fit2.1,
                    CAPTURE_RECORD_SIZE as int,
                ),
                a1,
                closure_size,
            ) == holes
        }),
{
    let (i1, a1) = find_fit(holes, closure_size, closure_align)->Some_0;
    let h1 = carve(holes, i1, a1, closure_size);
    lemma_find_fit_props(holes, closure_size, closure_align, 0);
    lemma_carve_props(holes, bottom, total, i1, a1, closure_size);
    if find_fit(h1, CAPTURE_RECORD_SIZE as int, CAPTURE_RECORD_ALIGN as int) is Some {
        let (i2, a2) = find_fit(h1, CAPTURE_RECORD_SIZE as int, CAPTURE_RECORD_ALIGN as int)->Some_0;
        lemma_find_fit_props(h1, CAPTURE_RECORD_SIZE as int, CAPTURE_RECORD_ALIGN as int, 0);
        lemma_carve_insert_id(h1, bottom, total, i2, a2, CAPTURE_RECORD_SIZE as int);
        lemma_carve_insert_id(holes, bottom, total, i1, a1, closure_size);
    }
}

} // verus!
