//! The self-extending allocator: a lazily initialized free-memory structure
//! that acquires one kernel-granted region up front and doubles its backing
//! memory, up to a hard ceiling, whenever a request does not fit.
//!
//! The kernel is an outside party: a memory grant is a privileged call that
//! the embedding program performs. The allocation protocol is therefore a
//! small state machine. `alloc_begin` answers either with an address, with a
//! definite failure, or with `Grow`: a region the kernel must map. The caller
//! performs the grant and feeds the outcome back through `alloc_extend`; a
//! refused grant means the allocation has failed and the caller hands out a
//! null result. The exact-fit hazard compensation and the doubling policy
//! live here, proved against the hole-list model.

use vstd::prelude::*;

use crate::heap::{
    carve, find_fit, range_is_allocated, insert_hole, spec_align_up, FreeRange, Heap, holes_wf,
    lemma_align_up_props, lemma_extension_fits, lemma_sum_le_span,
};

verus! {

/// Lowest address at which the embedding program asks the kernel to map heap
/// regions.
pub const HEAP_START_ADDR: usize = 0x0000_2000_0000;

/// Size of the first kernel-granted region.
pub const START_HEAP_SIZE: usize = 1024 * 100;

/// Hard ceiling on the total backing memory; growth never passes it.
pub const MAX_HEAP_SIZE: usize = 1024 * 100000;

/// Kernel page granularity: every extension is rounded up to it.
pub const PAGE_ALIGN: usize = 4096;

pub open spec fn is_power_of_two(n: int) -> bool
    decreases n,
{
    if n <= 0 {
        false
    } else if n == 1 {
        true
    } else {
        n % 2 == 0 && is_power_of_two(n / 2)
    }
}

/// Relies on linked_list_allocator::align_up_size: the smallest multiple of
/// the power-of-two `align` that is at least `size`.
#[verifier::external_body]
fn align_up_size(size: usize, align: usize) -> (r: usize)
    requires
        is_power_of_two(align as int),
        size + align - 1 <= usize::MAX,
    ensures
        r as int == spec_align_up(size as int, align as int),
{
    linked_list_allocator::align_up_size(size, align)
}

pub proof fn lemma_page_align_is_power_of_two()
    ensures
        is_power_of_two(PAGE_ALIGN as int),
{
    reveal_with_fuel(is_power_of_two, 14);
}

/// An aligned round-up never passes an aligned bound.
proof fn lemma_aligned_le(x: int, bound: int, align: int)
    requires
        1 <= align,
        0 <= x <= bound,
        bound % align == 0,
    ensures
        spec_align_up(x, align) <= bound,
{
    lemma_align_up_props(x, align);
    let r = spec_align_up(x, align);
    if r > bound {
        vstd::arithmetic::div_mod::lemma_sub_mod_noop(r, bound, align);
        vstd::arithmetic::div_mod::lemma_small_mod(0, align as nat);
        assert((r - bound) % align == 0);
        vstd::arithmetic::div_mod::lemma_small_mod((r - bound) as nat, align as nat);
        assert(false);
    }
}

/// Counters as the allocator reports them.
#[derive(Debug, PartialEq, Eq, Clone)]
pub struct AllocData {
    pub free: usize,
    pub used: usize,
}

/// An allocation request as the search actually runs it, after the exact-fit
/// compensation has been applied.
#[derive(Debug, Clone, Copy, PartialEq, Eq, Structural)]
pub struct AllocRequest {
    pub size: usize,
    pub align: usize,
}

/// One step of the allocation protocol.
#[derive(Debug, Clone, Copy, PartialEq, Eq, Structural)]
pub enum AllocStep {
    /// The request was served at this address.
    Done(usize),
    /// The request cannot be served: the caller reports out-of-memory.
    Fail,
    /// The heap must grow: the caller asks the kernel to map `bytes` bytes at
    /// address `at`, then resumes with `alloc_extend` on success. A refused
    /// grant ends the allocation with a null result.
    Grow { at: usize, bytes: usize, pending: AllocRequest },
}

/// The requested size after the exact-fit hazard check: a request for
/// exactly the free byte count is bumped by one byte.
pub open spec fn effective_size(size: int, free: int) -> int {
    if size == free {
        size + 1
    } else {
        size
    }
}

/// The total backing size after one doubling, rounded up to page granularity.
pub open spec fn grow_target(total: int) -> int {
    spec_align_up(2 * total, PAGE_ALIGN as int)
}

/// What one search-or-grow attempt does, given the heap state it starts from:
/// the first fit is served and carved out; otherwise the heap is untouched
/// and the step asks for a doubling, unless that would pass the ceiling.
pub open spec fn attempt_outcome(
    holes0: Seq<FreeRange>,
    bottom0: int,
    total0: int,
    free0: int,
    size: int,
    align: int,
    r: AllocStep,
    post: Heap,
) -> bool {
    match find_fit(holes0, size, align) {
        Some((i, addr)) => {
            &&& r == AllocStep::Done(addr as usize)
            &&& post.holes@ == carve(holes0, i, addr, size)
            &&& post.free_bytes == free0 - size
            &&& post.total == total0
            &&& post.bottom == bottom0
        },
        None => {
            &&& post.holes@ == holes0
            &&& post.free_bytes == free0
            &&& post.total == total0
            &&& post.bottom == bottom0
            &&& if 2 * total0 > MAX_HEAP_SIZE {
                r == AllocStep::Fail
            } else {
                r == (AllocStep::Grow {
                    at: (bottom0 + total0) as usize,
                    bytes: (grow_target(total0) - total0) as usize,
                    pending: AllocRequest { size: size as usize, align: align as usize },
                })
            }
        },
    }
}

/// The process-wide dynamic-memory provider: a free-memory structure behind
/// a one-time-initialization flag. The flag stands for the cell that makes
/// concurrent first-touch race to a single winner; losers observe the
/// already-initialized state.
pub struct EnsureInitAlloc {
    /// Whether the first kernel grant has been folded in.
    pub initialized: bool,
    /// The free-memory structure; meaningful once initialized.
    pub inner: Heap,
}

impl EnsureInitAlloc {
    /// The allocator's standing invariant: once initialized, the backing span
    /// starts at the granted base, never shrinks below the initial region and
    /// never grows past the ceiling, and growth can never run out of address
    /// space.
    pub open spec fn wf(self) -> bool {
        self.initialized ==> {
            &&& self.inner.wf()
            &&& START_HEAP_SIZE <= self.inner.total <= MAX_HEAP_SIZE
            &&& self.inner.bottom + MAX_HEAP_SIZE <= usize::MAX
        }
    }

    /// The allocator as the process starts: nothing granted yet.
    pub fn empty() -> (r: EnsureInitAlloc)
        ensures
            r.wf(),
            !r.initialized,
    {
        EnsureInitAlloc {
            initialized: false,
            inner: Heap { bottom: 1, total: 0, free_bytes: 0, holes: Vec::new() },
        }
    }

    pub fn is_initialized(&self) -> (r: bool)
        ensures
            r == self.initialized,
    {
        self.initialized
    }

    /// Folds in the first kernel-granted region, of the fixed initial size,
    /// based at `heap_ptr`. A second initialization is a no-op: the loser of
    /// the race observes the winner's state. The caller aborts the process
    /// instead of calling this when the kernel refused the first grant.
    pub fn init(&mut self, heap_ptr: usize)
        requires
            old(self).wf(),
            1 <= heap_ptr,
            heap_ptr + MAX_HEAP_SIZE <= usize::MAX,
        ensures
            final(self).wf(),
            final(self).initialized,
            old(self).initialized ==> *final(self) == *old(self),
            !old(self).initialized ==> ({
                &&& final(self).inner.bottom == heap_ptr
                &&& final(self).inner.total == START_HEAP_SIZE
                &&& final(self).inner.free_bytes == START_HEAP_SIZE
                &&& final(self).inner.holes@ == seq![
                    FreeRange { start: heap_ptr, size: START_HEAP_SIZE },
                ]
            }),
    {
        if self.initialized {
            return ;
        }
        self.inner = Heap::new(heap_ptr, START_HEAP_SIZE);
        self.initialized = true;
    }

    /// The counters, as long as the allocator has been initialized.
    pub fn alloc_data(&self) -> (r: Option<AllocData>)
        requires
            self.wf(),
        ensures
            !self.initialized ==> r is None,
            self.initialized ==> r == Some(
                AllocData {
                    free: self.inner.free_bytes,
                    used: (self.inner.total - self.inner.free_bytes) as usize,
                },
            ),
    {
        if !self.initialized {
            return None;
        }
        Some(AllocData { free: self.inner.free(), used: self.inner.used() })
    }

    /// One search-or-grow attempt with the effective request.
    #[verifier::rlimit(100)]
    #[verifier::spinoff_prover]
    fn attempt(&mut self, size: usize, align: usize) -> (r: AllocStep)
        requires
            old(self).wf(),
            old(self).initialized,
            1 <= size,
            is_power_of_two(align as int),
        ensures
            final(self).wf(),
            final(self).initialized,
            attempt_outcome(
                old(self).inner.holes@,
                old(self).inner.bottom as int,
                old(self).inner.total as int,
                old(self).inner.free_bytes as int,
                size as int,
                align as int,
                r,
                final(self).inner,
            ),
    {
        proof {
            if align == 0 {
                assert(!is_power_of_two(0));
            }
        }
        match self.inner.allocate_first_fit(size, align) {
            Some(addr) => AllocStep::Done(addr),
            None => {
                let old_size = self.inner.size();
                let doubled = old_size * 2;
                if doubled > MAX_HEAP_SIZE {
                    AllocStep::Fail
                } else {
                    proof {
                        lemma_page_align_is_power_of_two();
                        lemma_align_up_props(doubled as int, PAGE_ALIGN as int);
                        lemma_aligned_le(doubled as int, MAX_HEAP_SIZE as int, PAGE_ALIGN as int);
                    }
                    let new_size = align_up_size(doubled, PAGE_ALIGN);
                    let bytes = new_size - old_size;
                    AllocStep::Grow {
                        at: self.inner.bottom + self.inner.total,
                        bytes,
                        pending: AllocRequest { size, align },
                    }
                }
            },
        }
    }

    /// Starts one allocation: applies the exact-fit hazard check against the
    /// allocation-time free byte count, then searches, then asks for growth.
    pub fn alloc_begin(&mut self, size: usize, align: usize) -> (r: AllocStep)
        requires
            old(self).wf(),
            old(self).initialized,
            1 <= size,
            is_power_of_two(align as int),
        ensures
            final(self).wf(),
            final(self).initialized,
            ({
                let free0 = old(self).inner.free_bytes as int;
                if size == free0 && size == usize::MAX {
                    r == AllocStep::Fail && *final(self) == *old(self)
                } else {
                    attempt_outcome(
                        old(self).inner.holes@,
                        old(self).inner.bottom as int,
                        old(self).inner.total as int,
                        free0,
                        effective_size(size as int, free0),
                        align as int,
                        r,
                        final(self).inner,
                    )
                }
            }),
    {
        let free = self.inner.free();
        if size == free {
            // a request for exactly the remaining free space trips a known
            // first-fit defect: ask for one byte more, which either finds a
            // larger run or drives an extension
            if size == usize::MAX {
                return AllocStep::Fail;
            }
            self.attempt(size + 1, align)
        } else {
            self.attempt(size, align)
        }
    }

    /// Resumes an allocation after the kernel granted `bytes` more bytes at
    /// the top of the heap: folds the region in and searches again.
    pub fn alloc_extend(&mut self, pending: AllocRequest, bytes: usize) -> (r: AllocStep)
        requires
            old(self).wf(),
            old(self).initialized,
            1 <= pending.size,
            is_power_of_two(pending.align as int),
            1 <= bytes,
            old(self).inner.total + bytes <= MAX_HEAP_SIZE,
        ensures
            final(self).wf(),
            final(self).initialized,
            attempt_outcome(
                insert_hole(
                    old(self).inner.holes@,
                    old(self).inner.bottom + old(self).inner.total,
                    bytes as int,
                ),
                old(self).inner.bottom as int,
                old(self).inner.total + bytes,
                old(self).inner.free_bytes + bytes,
                pending.size as int,
                pending.align as int,
                r,
                final(self).inner,
            ),
    {
        self.inner.extend(bytes);
        self.attempt(pending.size, pending.align)
    }

    /// Returns an allocated range. A null address is a no-op, never an error,
    /// and so is a call before initialization, defensively.
    pub fn dealloc(&mut self, addr: usize, size: usize)
        requires
            old(self).wf(),
            old(self).initialized && addr != 0 ==> 1 <= size && range_is_allocated(
                old(self).inner.holes@,
                old(self).inner.bottom as int,
                old(self).inner.total as int,
                addr as int,
                size as int,
            ),
        ensures
            final(self).wf(),
            !old(self).initialized || addr == 0 ==> *final(self) == *old(self),
            old(self).initialized && addr != 0 ==> ({
                &&& final(self).initialized
                &&& final(self).inner.holes@ == insert_hole(
                    old(self).inner.holes@,
                    addr as int,
                    size as int,
                )
                &&& final(self).inner.free_bytes == old(self).inner.free_bytes + size
                &&& final(self).inner.total == old(self).inner.total
                &&& final(self).inner.bottom == old(self).inner.bottom
            }),
    {
        if !self.initialized || addr == 0 {
            return ;
        }
        self.inner.deallocate(addr, size);
    }
}

/// The backing memory never exceeds the configured ceiling: growth is the
/// only way the span gets larger, and it is refused past the ceiling.
pub proof fn lemma_total_never_exceeds_max(a: EnsureInitAlloc)
    requires
        a.wf(),
        a.initialized,
    ensures
        a.inner.total <= MAX_HEAP_SIZE,
        a.inner.free_bytes <= MAX_HEAP_SIZE,
{
    lemma_sum_le_span(a.inner.holes@, a.inner.bottom as int, a.inner.total as int);
}

/// Exhaustion triggers growth that succeeds: when a byte-aligned request no
/// larger than the backing memory already granted finds no run, the one
/// doubling the `Grow` step asks for is enough — after the kernel grants it,
/// the retry is guaranteed a fit, since the extension alone adds at least as
/// many contiguous bytes as were granted before.
pub proof fn lemma_grown_heap_fits_request(
    holes: Seq<FreeRange>,
    bottom: int,
    total: int,
    size: int,
)
    requires
        0 <= bottom,
        bottom + MAX_HEAP_SIZE <= usize::MAX,
        holes_wf(holes, bottom, total),
        1 <= size <= total,
        2 * total <= MAX_HEAP_SIZE,
    ensures
        find_fit(insert_hole(holes, bottom + total, grow_target(total) - total), size, 1)
            is Some,
{
    lemma_growth_at_least_doubles(total);
    lemma_extension_fits(holes, bottom, total, grow_target(total) - total, size);
}

/// Each extension at least doubles the backing memory, so the number of
/// kernel round-trips stays logarithmic in the final heap size — and the
/// region a `Grow` step asks for never pushes the total past the ceiling.
pub proof fn lemma_growth_at_least_doubles(total: int)
    requires
        1 <= total,
        2 * total <= MAX_HEAP_SIZE,
    ensures
        grow_target(total) - total >= total,
        grow_target(total) <= MAX_HEAP_SIZE,
{
    lemma_align_up_props(2 * total, PAGE_ALIGN as int);
    lemma_aligned_le(2 * total, MAX_HEAP_SIZE as int, PAGE_ALIGN as int);
}

} // verus!
