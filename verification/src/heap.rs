//! The free-memory structure: a first-fit hole list over one contiguous span
//! of granted heap memory.
//!
//! Addresses are plain machine words; the structure records which byte ranges
//! inside `[bottom, bottom + total)` are currently unused. Holes are kept
//! sorted, pairwise disjoint and coalesced (no two holes touch), so the hole
//! list is a canonical picture of the free byte set.

use vstd::prelude::*;

verus! {

/// One contiguous run of currently-unused bytes.
#[derive(Debug, Clone, Copy, PartialEq, Eq, Structural)]
pub struct FreeRange {
    pub start: usize,
    pub size: usize,
}

/// First byte past the end of a hole.
pub open spec fn range_end(r: FreeRange) -> int {
    r.start + r.size
}

/// Number of free bytes held by a hole sequence.
pub open spec fn sum_sizes(holes: Seq<FreeRange>) -> int
    decreases holes.len(),
{
    if holes.len() == 0 {
        0
    } else {
        holes[0].size + sum_sizes(holes.drop_first())
    }
}

/// Canonical hole list: every hole nonempty and inside `[bottom, bottom + total)`,
/// sorted by address, with a strict gap between consecutive holes.
pub open spec fn holes_wf(holes: Seq<FreeRange>, bottom: int, total: int) -> bool {
    &&& forall|i: int|
        0 <= i < holes.len() ==> 1 <= (#[trigger] holes[i]).size && bottom <= holes[i].start
            && range_end(holes[i]) <= bottom + total
    &&& forall|i: int| 0 <= i < holes.len() - 1 ==> range_end(#[trigger] holes[i]) < holes[i + 1].start
}

/// Smallest multiple of `align` that is at least `x`.
pub open spec fn spec_align_up(x: int, align: int) -> int
    recommends
        align >= 1,
{
    if x % align == 0 {
        x
    } else {
        x + align - x % align
    }
}

/// First-fit search from hole `i` on: the first hole that can carry `size`
/// bytes at alignment `align`, together with the aligned address inside it.
pub open spec fn find_fit_from(holes: Seq<FreeRange>, size: int, align: int, i: int) -> Option<
    (int, int),
>
    decreases holes.len() - i,
{
    if i < 0 || i >= holes.len() {
        None
    } else {
        let addr = spec_align_up(holes[i].start as int, align);
        if addr + size <= range_end(holes[i]) {
            Some((i, addr))
        } else {
            find_fit_from(holes, size, align, i + 1)
        }
    }
}

pub open spec fn find_fit(holes: Seq<FreeRange>, size: int, align: int) -> Option<(int, int)> {
    find_fit_from(holes, size, align, 0)
}

/// What is left of one hole after `[addr, addr + size)` is taken out of it:
/// the pieces in front of and behind the allocation, empty pieces dropped.
pub open spec fn carve_pieces(h: FreeRange, addr: int, size: int) -> Seq<FreeRange> {
    let front = FreeRange { start: h.start, size: (addr - h.start) as usize };
    let back = FreeRange {
        start: (addr + size) as usize,
        size: (range_end(h) - (addr + size)) as usize,
    };
    if addr == h.start && addr + size == range_end(h) {
        Seq::<FreeRange>::empty()
    } else if addr == h.start {
        seq![back]
    } else if addr + size == range_end(h) {
        seq![front]
    } else {
        seq![front, back]
    }
}

/// The hole list after `[addr, addr + size)` is allocated out of hole `i`.
pub open spec fn carve(holes: Seq<FreeRange>, i: int, addr: int, size: int) -> Seq<FreeRange> {
    holes.take(i) + carve_pieces(holes[i], addr, size) + holes.skip(i + 1)
}

/// The hole list after the range `[start, start + size)` is returned,
/// coalescing with the holes that touch it on either side.
pub open spec fn insert_hole(holes: Seq<FreeRange>, start: int, size: int) -> Seq<FreeRange>
    decreases holes.len(),
{
    let fresh = FreeRange { start: start as usize, size: size as usize };
    if holes.len() == 0 {
        seq![fresh]
    } else if start + size < holes[0].start {
        seq![fresh] + holes
    } else if start + size == holes[0].start {
        seq![FreeRange { start: start as usize, size: (size + holes[0].size) as usize }]
            + holes.drop_first()
    } else if range_end(holes[0]) == start {
        if holes.len() >= 2 && start + size == holes[1].start {
            seq![
                FreeRange {
                    start: holes[0].start,
                    size: (holes[0].size + size + holes[1].size) as usize,
                },
            ] + holes.skip(2)
        } else {
            seq![FreeRange { start: holes[0].start, size: (holes[0].size + size) as usize }]
                + holes.drop_first()
        }
    } else {
        seq![holes[0]] + insert_hole(holes.drop_first(), start, size)
    }
}

/// The range `[start, start + size)` lies inside the heap span and is disjoint
/// from every hole: it is currently handed out.
pub open spec fn range_is_allocated(
    holes: Seq<FreeRange>,
    bottom: int,
    total: int,
    start: int,
    size: int,
) -> bool {
    &&& 1 <= size
    &&& bottom <= start
    &&& start + size <= bottom + total
    &&& forall|i: int|
        0 <= i < holes.len() ==> (start + size <= (#[trigger] holes[i]).start || range_end(
            holes[i],
        ) <= start)
}

/// The free-memory structure itself.
pub struct Heap {
    /// Lowest address of the heap span.
    pub bottom: usize,
    /// Bytes granted so far: the span is `[bottom, bottom + total)`.
    pub total: usize,
    /// Sum of all hole sizes, kept in step with `holes`.
    pub free_bytes: usize,
    /// The hole list, canonical as `holes_wf` says.
    pub holes: Vec<FreeRange>,
}

impl Heap {
    pub open spec fn wf(self) -> bool {
        &&& 1 <= self.bottom
        &&& self.bottom + self.total <= usize::MAX
        &&& holes_wf(self.holes@, self.bottom as int, self.total as int)
        &&& self.free_bytes == sum_sizes(self.holes@)
    }

    /// A heap over the single granted region `[bottom, bottom + size)`,
    /// all of it free.
    pub fn new(bottom: usize, size: usize) -> (r: Heap)
        requires
            1 <= bottom,
            1 <= size,
            bottom + size <= usize::MAX,
        ensures
            r.wf(),
            r.bottom == bottom,
            r.total == size,
            r.free_bytes == size,
            r.holes@ =~= seq![FreeRange { start: bottom, size }],
    {
        let mut holes: Vec<FreeRange> = Vec::new();
        holes.push(FreeRange { start: bottom, size });
        proof {
            assert(holes@ =~= seq![FreeRange { start: bottom, size }]);
            assert(holes@.drop_first() =~= Seq::<FreeRange>::empty());
            assert(sum_sizes(holes@) == size) by {
                reveal_with_fuel(sum_sizes, 2);
            }
        }
        Heap { bottom, total: size, free_bytes: size, holes }
    }

    /// Total bytes granted so far.
    pub fn size(&self) -> (r: usize)
        ensures
            r == self.total,
    {
        self.total
    }

    /// Bytes currently free.
    pub fn free(&self) -> (r: usize)
        ensures
            r == self.free_bytes,
    {
        self.free_bytes
    }

    /// Bytes currently handed out.
    pub fn used(&self) -> (r: usize)
        requires
            self.wf(),
        ensures
            r == self.total - self.free_bytes,
    {
        proof {
            lemma_sum_le_span(self.holes@, self.bottom as int, self.total as int);
        }
        self.total - self.free_bytes
    }
}

/// A canonical hole list never tracks more bytes than its span holds.
pub proof fn lemma_sum_le_span(holes: Seq<FreeRange>, bottom: int, total: int)
    requires
        holes_wf(holes, bottom, total),
        total >= 0,
    ensures
        0 <= sum_sizes(holes) <= total,
    decreases holes.len(),
{
    if holes.len() == 0 {
    } else {
        let rest = holes.drop_first();
        let b2 = range_end(holes[0]);
        assert forall|i: int| 0 <= i < rest.len() implies 1 <= (#[trigger] rest[i]).size && b2
            <= rest[i].start && range_end(rest[i]) <= bottom + total by {
            assert(rest[i] == holes[i + 1]);
            lemma_holes_sorted(holes, 0, i + 1);
        }
        assert(holes_wf(rest, b2, bottom + total - b2));
        lemma_sum_le_span(rest, b2, bottom + total - b2);
    }
}

pub proof fn lemma_sum_nonneg(holes: Seq<FreeRange>)
    ensures
        sum_sizes(holes) >= 0,
    decreases holes.len(),
{
    if holes.len() > 0 {
        lemma_sum_nonneg(holes.drop_first());
    }
}

pub proof fn lemma_sum_singleton(x: FreeRange)
    ensures
        sum_sizes(seq![x]) == x.size,
{
    reveal_with_fuel(sum_sizes, 2);
    assert(seq![x].drop_first() =~= Seq::<FreeRange>::empty());
}

pub proof fn lemma_sum_cons(x: FreeRange, s: Seq<FreeRange>)
    ensures
        sum_sizes(seq![x] + s) == x.size + sum_sizes(s),
{
    assert((seq![x] + s).drop_first() =~= s);
    assert((seq![x] + s)[0] == x);
}

pub proof fn lemma_sum_append(s1: Seq<FreeRange>, s2: Seq<FreeRange>)
    ensures
        sum_sizes(s1 + s2) == sum_sizes(s1) + sum_sizes(s2),
    decreases s1.len(),
{
    if s1.len() == 0 {
        assert(s1 + s2 =~= s2);
    } else {
        assert((s1 + s2).drop_first() =~= s1.drop_first() + s2);
        lemma_sum_append(s1.drop_first(), s2);
    }
}

/// Hole starts grow along the list: an earlier hole ends before a later one starts.
pub proof fn lemma_holes_sorted(holes: Seq<FreeRange>, i: int, j: int)
    requires
        forall|k: int|
            0 <= k < holes.len() - 1 ==> range_end(#[trigger] holes[k]) < holes[k + 1].start,
        forall|k: int| 0 <= k < holes.len() ==> 1 <= (#[trigger] holes[k]).size,
        0 <= i < j < holes.len(),
    ensures
        range_end(holes[i]) <= holes[j].start,
        holes[i].start < holes[j].start,
    decreases j - i,
{
    if j == i + 1 {
    } else {
        lemma_holes_sorted(holes, i, j - 1);
        assert(range_end(holes[j - 1]) < holes[j].start);
    }
}

/// Returning an allocated range keeps the hole list canonical, adds exactly
/// `size` free bytes, and the first hole of the result starts at the smaller
/// of the returned range's start and the old first hole's start.
pub proof fn lemma_insert_hole_wf(
    holes: Seq<FreeRange>,
    bottom: int,
    total: int,
    start: int,
    size: int,
)
    requires
        0 <= bottom,
        bottom + total <= usize::MAX,
        holes_wf(holes, bottom, total),
        range_is_allocated(holes, bottom, total, start, size),
    ensures
        holes_wf(insert_hole(holes, start, size), bottom, total),
        sum_sizes(insert_hole(holes, start, size)) == sum_sizes(holes) + size,
        insert_hole(holes, start, size).len() >= 1,
        insert_hole(holes, start, size)[0].start == if holes.len() == 0 {
            start
        } else if start < holes[0].start {
            start
        } else {
            holes[0].start as int
        },
    decreases holes.len(),
{
    let result = insert_hole(holes, start, size);
    let fresh = FreeRange { start: start as usize, size: size as usize };
    if holes.len() == 0 {
        assert(result =~= seq![fresh]);
        lemma_sum_cons(fresh, Seq::<FreeRange>::empty());
        assert(seq![fresh] + Seq::<FreeRange>::empty() =~= seq![fresh]);
    } else if start + size < holes[0].start {
        assert(result =~= seq![fresh] + holes);
        lemma_sum_cons(fresh, holes);
        assert forall|i: int| 0 <= i < result.len() - 1 implies range_end(#[trigger] result[i])
            < result[i + 1].start by {
            if i > 0 {
                assert(result[i] == holes[i - 1]);
                assert(result[i + 1] == holes[i]);
            }
        }
    } else if start + size == holes[0].start {
        let merged = FreeRange { start: start as usize, size: (size + holes[0].size) as usize };
        assert(result =~= seq![merged] + holes.drop_first());
        lemma_sum_cons(merged, holes.drop_first());
        assert(sum_sizes(holes) == holes[0].size + sum_sizes(holes.drop_first()));
        assert forall|i: int| 0 <= i < result.len() - 1 implies range_end(#[trigger] result[i])
            < result[i + 1].start by {
            assert(result[i + 1] == holes[i + 1]);
            if i > 0 {
                assert(result[i] == holes[i]);
            } else {
                assert(range_end(merged) == range_end(holes[0]));
            }
        }
        assert forall|i: int| 0 <= i < result.len() implies 1 <= (#[trigger] result[i]).size
            && bottom <= result[i].start && range_end(result[i]) <= bottom + total by {
            if i > 0 {
                assert(result[i] == holes[i]);
            }
        }
    } else if range_end(holes[0]) == start {
        if holes.len() >= 2 && start + size == holes[1].start {
            let merged = FreeRange {
                start: holes[0].start,
                size: (holes[0].size + size + holes[1].size) as usize,
            };
            assert(result =~= seq![merged] + holes.skip(2));
            lemma_sum_cons(merged, holes.skip(2));
            assert(holes.drop_first().drop_first() =~= holes.skip(2));
            assert(sum_sizes(holes) == holes[0].size + sum_sizes(holes.drop_first()));
            assert(sum_sizes(holes.drop_first()) == holes[1].size + sum_sizes(holes.skip(2)));
            assert(range_end(merged) == range_end(holes[1]));
            assert forall|i: int| 0 <= i < result.len() - 1 implies range_end(
                #[trigger] result[i],
            ) < result[i + 1].start by {
                assert(result[i + 1] == holes[i + 2]);
                if i > 0 {
                    assert(result[i] == holes[i + 1]);
                }
            }
            assert forall|i: int| 0 <= i < result.len() implies 1 <= (#[trigger] result[i]).size
                && bottom <= result[i].start && range_end(result[i]) <= bottom + total by {
                if i > 0 {
                    assert(result[i] == holes[i + 1]);
                }
            }
        } else {
            let merged = FreeRange { start: holes[0].start, size: (holes[0].size + size) as usize };
            assert(result =~= seq![merged] + holes.drop_first());
            lemma_sum_cons(merged, holes.drop_first());
            assert(sum_sizes(holes) == holes[0].size + sum_sizes(holes.drop_first()));
            assert(range_end(merged) == start + size);
            assert forall|i: int| 0 <= i < result.len() - 1 implies range_end(
                #[trigger] result[i],
            ) < result[i + 1].start by {
                assert(result[i + 1] == holes[i + 1]);
                if i > 0 {
                    assert(result[i] == holes[i]);
                } else {
                    // the returned range must stop short of the next hole
                    assert(start + size <= holes[1].start || range_end(holes[1]) <= start);
                    assert(range_end(holes[0]) < holes[1].start);
                    assert(start + size != holes[1].start);
                    assert(range_end(holes[1]) > start);
                    assert(start + size < holes[1].start);
                }
            }
            assert forall|i: int| 0 <= i < result.len() implies 1 <= (#[trigger] result[i]).size
                && bottom <= result[i].start && range_end(result[i]) <= bottom + total by {
                if i > 0 {
                    assert(result[i] == holes[i]);
                }
            }
        }
    } else {
        // the returned range lies wholly past the first hole
        assert(start + size > holes[0].start);
        assert(range_end(holes[0]) <= start || start + size <= holes[0].start);
        assert(range_end(holes[0]) < start);
        let rest = holes.drop_first();
        let b2 = range_end(holes[0]);
        assert forall|i: int| 0 <= i < rest.len() implies 1 <= (#[trigger] rest[i]).size && b2
            <= rest[i].start && range_end(rest[i]) <= bottom + total by {
            assert(rest[i] == holes[i + 1]);
            lemma_holes_sorted(holes, 0, i + 1);
        }
        assert forall|i: int| 0 <= i < rest.len() implies (start + size <= (
        #[trigger] rest[i]).start || range_end(rest[i]) <= start) by {
            assert(rest[i] == holes[i + 1]);
        }
        assert(holes_wf(rest, b2, bottom + total - b2));
        assert(range_is_allocated(rest, b2, bottom + total - b2, start, size));
        lemma_insert_hole_wf(rest, b2, bottom + total - b2, start, size);
        let sub = insert_hole(rest, start, size);
        assert(result =~= seq![holes[0]] + sub);
        lemma_sum_cons(holes[0], sub);
        assert(sum_sizes(holes) == holes[0].size + sum_sizes(rest));
        assert forall|i: int| 0 <= i < result.len() implies 1 <= (#[trigger] result[i]).size
            && bottom <= result[i].start && range_end(result[i]) <= bottom + total by {
            if i > 0 {
                assert(result[i] == sub[i - 1]);
            }
        }
        assert forall|i: int| 0 <= i < result.len() - 1 implies range_end(#[trigger] result[i])
            < result[i + 1].start by {
            if i > 0 {
                assert(result[i] == sub[i - 1]);
                assert(result[i + 1] == sub[i]);
            } else {
                assert(result[1] == sub[0]);
                if rest.len() == 0 {
                    assert(sub[0].start == start);
                } else {
                    assert(sub[0].start == if start < rest[0].start {
                        start
                    } else {
                        rest[0].start as int
                    });
                }
            }
        }
    }
}

/// Inserting a range that lies past the first `j` holes leaves those holes alone.
pub proof fn lemma_insert_skip(holes: Seq<FreeRange>, start: int, size: int, j: int)
    requires
        0 <= j <= holes.len(),
        1 <= size,
        forall|k: int| 0 <= k < j ==> range_end(#[trigger] holes[k]) < start,
    ensures
        insert_hole(holes, start, size) =~= holes.take(j) + insert_hole(
            holes.skip(j),
            start,
            size,
        ),
    decreases j,
{
    if j == 0 {
        assert(holes.skip(0) =~= holes);
        assert(holes.take(0) + insert_hole(holes, start, size) =~= insert_hole(
            holes,
            start,
            size,
        ));
    } else {
        assert(range_end(holes[0]) < start);
        let rest = holes.drop_first();
        assert forall|k: int| 0 <= k < j - 1 implies range_end(#[trigger] rest[k]) < start by {
            assert(rest[k] == holes[k + 1]);
        }
        lemma_insert_skip(rest, start, size, j - 1);
        assert(insert_hole(holes, start, size) == seq![holes[0]] + insert_hole(rest, start, size));
        assert(rest.skip(j - 1) =~= holes.skip(j));
        assert(seq![holes[0]] + (rest.take(j - 1) + insert_hole(holes.skip(j), start, size))
            =~= holes.take(j) + insert_hole(holes.skip(j), start, size));
    }
}

/// What the hole list becomes when a region contiguous with the top of the
/// heap is folded in: either the last hole grows (when the top of the heap is
/// free) or a new hole appears at the end.
proof fn lemma_extend_shape(holes: Seq<FreeRange>, bottom: int, total: int, by: int)
    requires
        0 <= bottom,
        0 <= total,
        bottom + total + by <= usize::MAX,
        1 <= by,
        holes_wf(holes, bottom, total),
    ensures
        holes_wf(holes, bottom, total + by),
        range_is_allocated(holes, bottom, total + by, bottom + total, by),
        holes_wf(insert_hole(holes, bottom + total, by), bottom, total + by),
        sum_sizes(insert_hole(holes, bottom + total, by)) == sum_sizes(holes) + by,
        holes.len() > 0 && range_end(holes[holes.len() - 1]) == bottom + total ==> insert_hole(
            holes,
            bottom + total,
            by,
        ) =~= holes.take(holes.len() - 1) + seq![
            FreeRange {
                start: holes[holes.len() - 1].start,
                size: (holes[holes.len() - 1].size + by) as usize,
            },
        ],
        holes.len() == 0 || range_end(holes[holes.len() - 1]) != bottom + total ==> insert_hole(
            holes,
            bottom + total,
            by,
        ) =~= holes + seq![FreeRange { start: (bottom + total) as usize, size: by as usize }],
{
    let n = holes.len() as int;
    let start = bottom + total;
    assert forall|k: int| 0 <= k < n implies range_end(#[trigger] holes[k]) <= start by {}
    assert(range_is_allocated(holes, bottom, total + by, start, by));
    lemma_insert_hole_wf(holes, bottom, total + by, start, by);
    if n > 0 && range_end(holes[n - 1]) == start {
        let last = holes[n - 1];
        let merged = FreeRange { start: last.start, size: (last.size + by) as usize };
        assert forall|k: int| 0 <= k < n - 1 implies range_end(#[trigger] holes[k]) < start by {
            lemma_holes_sorted(holes, k, n - 1);
        }
        lemma_insert_skip(holes, start, by, n - 1);
        assert(holes.skip(n - 1) =~= seq![last]);
        assert(insert_hole(seq![last], start, by) =~= seq![merged]);
    } else {
        assert forall|k: int| 0 <= k < n implies range_end(#[trigger] holes[k]) < start by {
            if k < n - 1 {
                lemma_holes_sorted(holes, k, n - 1);
                assert(range_end(holes[n - 1]) <= start);
            }
        }
        lemma_insert_skip(holes, start, by, n);
        assert(holes.skip(n) =~= Seq::<FreeRange>::empty());
        assert(insert_hole(Seq::<FreeRange>::empty(), start, by) =~= seq![
            FreeRange { start: start as usize, size: by as usize },
        ]);
        assert(holes.take(n) =~= holes);
    }
}

impl Heap {
    /// Folds a freshly granted region of `by` bytes, contiguous with the top
    /// of the heap, into the free structure. Both the span and the free byte
    /// count grow by exactly `by`.
    #[verifier::rlimit(100)]
    #[verifier::spinoff_prover]
    pub fn extend(&mut self, by: usize)
        requires
            old(self).wf(),
            1 <= by,
            old(self).bottom + old(self).total + by <= usize::MAX,
        ensures
            final(self).wf(),
            final(self).bottom == old(self).bottom,
            final(self).total == old(self).total + by,
            final(self).free_bytes == old(self).free_bytes + by,
            final(self).holes@ == insert_hole(
                old(self).holes@,
                old(self).bottom + old(self).total,
                by as int,
            ),
    {
        let ghost oldh = self.holes@;
        let start = self.bottom + self.total;
        let n = self.holes.len();
        proof {
            lemma_sum_nonneg(oldh);
            lemma_sum_le_span(oldh, self.bottom as int, self.total as int);
            lemma_extend_shape(oldh, self.bottom as int, self.total as int, by as int);
        }
        if n > 0 && self.holes[n - 1].start + self.holes[n - 1].size == start {
            // the top of the heap is free: grow the last hole in place
            let last = self.holes[n - 1];
            let merged = FreeRange { start: last.start, size: last.size + by };
            self.holes.remove(n - 1);
            self.holes.push(merged);
            proof {
                assert(self.holes@ =~= oldh.take(n - 1) + seq![merged]);
            }
        } else {
            // the top of the heap is in use (or the heap is empty): a new hole
            self.holes.push(FreeRange { start, size: by });
            proof {
                assert(self.holes@ =~= oldh + seq![FreeRange { start, size: by }]);
            }
        }
        self.total = self.total + by;
        self.free_bytes = self.free_bytes + by;
    }
}

/// The rounded-up address is aligned and within one alignment step of `x`.
pub proof fn lemma_align_up_props(x: int, align: int)
    requires
        0 <= x,
        1 <= align,
    ensures
        x <= spec_align_up(x, align),
        spec_align_up(x, align) < x + align,
        spec_align_up(x, align) % align == 0,
{
    vstd::arithmetic::div_mod::lemma_mod_bound(x, align);
    if x % align != 0 {
        vstd::arithmetic::div_mod::lemma_fundamental_div_mod(x, align);
        vstd::arithmetic::mul::lemma_mul_is_distributive_add(align, x / align, 1);
        assert(x + align - x % align == (x / align + 1) * align) by {
            vstd::arithmetic::mul::lemma_mul_is_commutative(align, x / align + 1);
        }
        vstd::arithmetic::div_mod::lemma_mod_multiples_basic(x / align + 1, align);
    }
}

/// A successful first-fit search names a hole that really carries the
/// allocation, and every hole before it was too small.
pub proof fn lemma_find_fit_props(holes: Seq<FreeRange>, size: int, align: int, i: int)
    requires
        0 <= i <= holes.len(),
        1 <= size,
        1 <= align,
        find_fit_from(holes, size, align, i) is Some,
        forall|k: int| 0 <= k < holes.len() ==> 0 <= (#[trigger] holes[k]).start,
    ensures
        ({
            let (j, addr) = find_fit_from(holes, size, align, i)->Some_0;
            &&& i <= j < holes.len()
            &&& addr == spec_align_up(holes[j].start as int, align)
            &&& holes[j].start <= addr
            &&& addr + size <= range_end(holes[j])
        }),
    decreases holes.len() - i,
{
    let addr0 = spec_align_up(holes[i].start as int, align);
    lemma_align_up_props(holes[i].start as int, align);
    if addr0 + size <= range_end(holes[i]) {
    } else {
        lemma_find_fit_props(holes, size, align, i + 1);
    }
}

/// Carving an allocation out of the hole that carries it keeps the hole list
/// canonical, removes exactly `size` free bytes, and leaves the carved range
/// disjoint from every remaining hole.
#[verifier::rlimit(100)]
pub proof fn lemma_carve_props(
    holes: Seq<FreeRange>,
    bottom: int,
    total: int,
    i: int,
    addr: int,
    size: int,
)
    requires
        0 <= bottom,
        bottom + total <= usize::MAX,
        holes_wf(holes, bottom, total),
        0 <= i < holes.len(),
        1 <= size,
        holes[i].start <= addr,
        addr + size <= range_end(holes[i]),
    ensures
        holes_wf(carve(holes, i, addr, size), bottom, total),
        sum_sizes(carve(holes, i, addr, size)) == sum_sizes(holes) - size,
        range_is_allocated(carve(holes, i, addr, size), bottom, total, addr, size),
{
    let result = carve(holes, i, addr, size);
    let pieces = carve_pieces(holes[i], addr, size);
    let pre = holes.take(i);
    let post = holes.skip(i + 1);
    let h = holes[i];

    // free-byte accounting
    assert(holes =~= pre + seq![h] + post);
    lemma_sum_append(pre, seq![h]);
    lemma_sum_append(pre + seq![h], post);
    lemma_sum_singleton(h);
    assert(sum_sizes(pieces) == h.size - size) by {
        let front = FreeRange { start: h.start, size: (addr - h.start) as usize };
        let back = FreeRange {
            start: (addr + size) as usize,
            size: (range_end(h) - (addr + size)) as usize,
        };
        lemma_sum_singleton(front);
        lemma_sum_singleton(back);
        assert(seq![front, back] =~= seq![front] + seq![back]);
        lemma_sum_append(seq![front], seq![back]);
        lemma_sum_nonneg(pieces);
    }
    lemma_sum_append(pre, pieces);
    lemma_sum_append(pre + pieces, post);
    assert(result =~= (pre + pieces) + post);

    // every element of the result, by where it came from
    let np = pieces.len() as int;
    assert forall|k: int| 0 <= k < result.len() implies 1 <= (#[trigger] result[k]).size && bottom
        <= result[k].start && range_end(result[k]) <= bottom + total && (addr + size
        <= result[k].start || range_end(result[k]) <= addr) by {
        if k < i {
            assert(result[k] == holes[k]);
            lemma_holes_sorted(holes, k, i);
        } else if k < i + np {
            assert(result[k] == pieces[k - i]);
        } else {
            assert(result[k] == holes[k - np + 1]);
            lemma_holes_sorted(holes, i, k - np + 1);
        }
    }
    assert forall|k: int| 0 <= k < result.len() - 1 implies range_end(#[trigger] result[k])
        < result[k + 1].start by {
        if k + 1 < i {
            assert(result[k] == holes[k]);
            assert(result[k + 1] == holes[k + 1]);
        } else if k + 1 == i {
            assert(result[k] == holes[k]);
            if np > 0 {
                assert(result[i] == pieces[0]);
                assert(pieces[0].start >= h.start);
            } else {
                assert(result[i] == holes[i + 1]);
            }
        } else if k < i + np {
            // inside or just leaving the carved pieces
            if k + 1 < i + np {
                assert(result[k] == pieces[k - i]);
                assert(result[k + 1] == pieces[k + 1 - i]);
            } else {
                assert(result[k] == pieces[k - i]);
                assert(result[k + 1] == holes[i + 1]);
                assert(range_end(pieces[k - i]) <= range_end(h));
            }
        } else {
            assert(result[k] == holes[k - np + 1]);
            assert(result[k + 1] == holes[k - np + 2]);
        }
    }
}

/// Removing an element and splicing two replacements in its place.
proof fn lemma_splice2(s: Seq<FreeRange>, k: int, a: FreeRange, b: FreeRange)
    requires
        0 <= k < s.len(),
    ensures
        s.remove(k).insert(k, a).insert(k + 1, b) =~= s.take(k) + seq![a, b] + s.skip(k + 1),
{
}

/// Removing an element and splicing one replacement in its place.
proof fn lemma_splice1(s: Seq<FreeRange>, k: int, a: FreeRange)
    requires
        0 <= k < s.len(),
    ensures
        s.remove(k).insert(k, a) =~= s.take(k) + seq![a] + s.skip(k + 1),
{
}

/// Removing an element splits the sequence around it.
proof fn lemma_splice0(s: Seq<FreeRange>, k: int)
    requires
        0 <= k < s.len(),
    ensures
        s.remove(k) =~= s.take(k) + s.skip(k + 1),
{
}

/// The nonempty ranges among a front and a back piece, in order.
pub open spec fn pieces_of(front: FreeRange, back: FreeRange) -> Seq<FreeRange> {
    if front.size == 0 && back.size == 0 {
        Seq::<FreeRange>::empty()
    } else if front.size == 0 {
        seq![back]
    } else if back.size == 0 {
        seq![front]
    } else {
        seq![front, back]
    }
}

/// Replaces hole `k` by whichever of `front` and `back` are nonempty.
fn splice_hole(holes: &mut Vec<FreeRange>, k: usize, front: FreeRange, back: FreeRange)
    requires
        k < old(holes)@.len(),
    ensures
        final(holes)@ == old(holes)@.take(k as int) + pieces_of(front, back) + old(holes)@.skip(
            k as int + 1,
        ),
{
    let ghost oldh = holes@;
    let ghost target = oldh.take(k as int) + pieces_of(front, back) + oldh.skip(k as int + 1);
    let n = holes.len();
    proof {
        assert(k < n);
    }
    holes.remove(k);
    if front.size > 0 {
        holes.insert(k, front);
        if back.size > 0 {
            holes.insert(k + 1, back);
            proof {
                lemma_splice2(oldh, k as int, front, back);
                assert(holes@ =~= target);
            }
        } else {
            proof {
                lemma_splice1(oldh, k as int, front);
                assert(holes@ =~= target);
            }
        }
    } else {
        if back.size > 0 {
            holes.insert(k, back);
            proof {
                lemma_splice1(oldh, k as int, back);
                assert(holes@ =~= target);
            }
        } else {
            proof {
                lemma_splice0(oldh, k as int);
                assert(holes@ =~= target);
            }
        }
    }
}

impl Heap {
    /// Takes the range `[addr, addr + size)` out of hole `k`, leaving the
    /// pieces in front of and behind it free.
    #[verifier::rlimit(100)]
    #[verifier::spinoff_prover]
    fn carve_at(&mut self, k: usize, addr: usize, size: usize)
        requires
            old(self).wf(),
            k < old(self).holes@.len(),
            1 <= size,
            old(self).holes@[k as int].start <= addr,
            addr + size <= range_end(old(self).holes@[k as int]),
        ensures
            final(self).wf(),
            final(self).bottom == old(self).bottom,
            final(self).total == old(self).total,
            final(self).holes@ == carve(old(self).holes@, k as int, addr as int, size as int),
            final(self).free_bytes == old(self).free_bytes - size,
            range_is_allocated(
                final(self).holes@,
                final(self).bottom as int,
                final(self).total as int,
                addr as int,
                size as int,
            ),
    {
        let ghost oldh = self.holes@;
        proof {
            lemma_carve_props(
                oldh,
                self.bottom as int,
                self.total as int,
                k as int,
                addr as int,
                size as int,
            );
            lemma_sum_nonneg(carve(oldh, k as int, addr as int, size as int));
        }
        let h = self.holes[k];
        proof {
            assert(range_end(oldh[k as int]) <= self.bottom + self.total);
        }
        let end = h.start + h.size;
        let front = FreeRange { start: h.start, size: addr - h.start };
        let back = FreeRange { start: addr + size, size: end - (addr + size) };
        proof {
            assert(carve_pieces(h, addr as int, size as int) == pieces_of(front, back));
        }
        splice_hole(&mut self.holes, k, front, back);
        self.free_bytes = self.free_bytes - size;
    }

    /// First-fit allocation: hands out the lowest aligned range of `size`
    /// bytes that fits in a hole, or nothing when no hole can carry it.
    /// Exactly the range `find_fit` names is taken out of the free set.
    #[verifier::rlimit(100)]
    pub fn allocate_first_fit(&mut self, size: usize, align: usize) -> (r: Option<usize>)
        requires
            old(self).wf(),
            1 <= size,
            1 <= align,
        ensures
            final(self).wf(),
            final(self).bottom == old(self).bottom,
            final(self).total == old(self).total,
            match find_fit(old(self).holes@, size as int, align as int) {
                Some((i, addr)) => {
                    &&& r == Some(addr as usize)
                    &&& final(self).holes@ == carve(old(self).holes@, i, addr, size as int)
                    &&& final(self).free_bytes == old(self).free_bytes - size
                    &&& range_is_allocated(
                        final(self).holes@,
                        final(self).bottom as int,
                        final(self).total as int,
                        addr,
                        size as int,
                    )
                    &&& 1 <= addr <= usize::MAX
                },
                None => {
                    &&& r is None
                    &&& *final(self) == *old(self)
                },
            },
    {
        let ghost oldh = self.holes@;
        let mut k: usize = 0;
        loop
            invariant
                self == old(self),
                self.wf(),
                oldh == self.holes@,
                1 <= size,
                1 <= align,
                0 <= k <= self.holes.len(),
                find_fit(oldh, size as int, align as int) == find_fit_from(
                    oldh,
                    size as int,
                    align as int,
                    k as int,
                ),
            decreases self.holes.len() - k,
        {
            if k >= self.holes.len() {
                return None;
            }
            let h = self.holes[k];
            proof {
                assert(oldh[k as int] == h);
                lemma_align_up_props(h.start as int, align as int);
            }
            let rem = h.start % align;
            let end = h.start + h.size;
            // the aligned start inside this hole, if it exists in-address-space
            let addr_opt: Option<usize> = if rem == 0 {
                Some(h.start)
            } else if align - rem <= usize::MAX - h.start {
                Some(h.start + (align - rem))
            } else {
                None
            };
            match addr_opt {
                Some(addr) if addr <= end && size <= end - addr => {
                    // found the fit: carve `[addr, addr + size)` out of hole `k`
                    proof {
                        assert(spec_align_up(h.start as int, align as int) == addr);
                        assert(find_fit(oldh, size as int, align as int) == Some(
                            (k as int, addr as int),
                        ));
                    }
                    self.carve_at(k, addr, size);
                    return Some(addr);
                },
                _ => {
                    proof {
                        assert(spec_align_up(h.start as int, align as int) + size > range_end(
                            oldh[k as int],
                        ));
                    }
                    k = k + 1;
                },
            }
        }
    }
}

impl Heap {
    /// Returns the allocated range `[start, start + size)` to the free set,
    /// coalescing it with the holes that touch it on either side.
    #[verifier::rlimit(100)]
    #[verifier::spinoff_prover]
    pub fn deallocate(&mut self, start: usize, size: usize)
        requires
            old(self).wf(),
            range_is_allocated(
                old(self).holes@,
                old(self).bottom as int,
                old(self).total as int,
                start as int,
                size as int,
            ),
        ensures
            final(self).wf(),
            final(self).bottom == old(self).bottom,
            final(self).total == old(self).total,
            final(self).holes@ == insert_hole(old(self).holes@, start as int, size as int),
            final(self).free_bytes == old(self).free_bytes + size,
    {
        let ghost oldh = self.holes@;
        proof {
            lemma_insert_hole_wf(
                oldh,
                self.bottom as int,
                self.total as int,
                start as int,
                size as int,
            );
            lemma_sum_nonneg(oldh);
            lemma_sum_le_span(
                insert_hole(oldh, start as int, size as int),
                self.bottom as int,
                self.total as int,
            );
        }
        // find the first hole that does not end before the returned range
        let mut j: usize = 0;
        loop
            invariant
                self == old(self),
                oldh == self.holes@,
                self.wf(),
                0 <= j <= self.holes.len(),
                forall|t: int| 0 <= t < j ==> range_end(#[trigger] oldh[t]) < start,
            ensures
                self == old(self),
                oldh == self.holes@,
                0 <= j <= self.holes.len(),
                forall|t: int| 0 <= t < j ==> range_end(#[trigger] oldh[t]) < start,
                j < self.holes.len() ==> range_end(oldh[j as int]) >= start,
            decreases self.holes.len() - j,
        {
            if j >= self.holes.len() {
                break ;
            }
            let h = self.holes[j];
            proof {
                assert(range_end(oldh[j as int]) <= self.bottom + self.total);
            }
            if h.start + h.size >= start {
                break ;
            }
            j = j + 1;
        }
        self.place_returned_range(j, start, size);
        self.free_bytes = self.free_bytes + size;
    }

    /// Splices the returned range into the hole list at position `j`, the
    /// first hole that does not end before it, merging where they touch.
    #[verifier::rlimit(100)]
    #[verifier::spinoff_prover]
    fn place_returned_range(&mut self, j: usize, start: usize, size: usize)
        requires
            old(self).wf(),
            range_is_allocated(
                old(self).holes@,
                old(self).bottom as int,
                old(self).total as int,
                start as int,
                size as int,
            ),
            j <= old(self).holes@.len(),
            forall|t: int| 0 <= t < j ==> range_end(#[trigger] old(self).holes@[t]) < start,
            j < old(self).holes@.len() ==> range_end(old(self).holes@[j as int]) >= start,
        ensures
            final(self).bottom == old(self).bottom,
            final(self).total == old(self).total,
            final(self).free_bytes == old(self).free_bytes,
            final(self).holes@ == insert_hole(old(self).holes@, start as int, size as int),
    {
        let ghost oldh = self.holes@;
        proof {
            lemma_insert_skip(oldh, start as int, size as int, j as int);
        }
        let ghost tail = oldh.skip(j as int);
        let ghost inserted = insert_hole(tail, start as int, size as int);
        let n = self.holes.len();
        let fresh = FreeRange { start, size };
        if j >= n {
            // nothing at or past the range: a new hole at the end
            self.holes.push(fresh);
            proof {
                assert(self.holes@ == insert_hole(oldh, start as int, size as int)) by {
                    assert(tail =~= Seq::<FreeRange>::empty());
                    assert(inserted =~= seq![fresh]);
                    assert(oldh.take(j as int) =~= oldh);
                    assert(self.holes@ =~= oldh.take(j as int) + inserted);
                }
            }
        } else {
            let h = self.holes[j];
            proof {
                assert(range_end(oldh[j as int]) <= self.bottom + self.total);
                assert(tail[0] == oldh[j as int]);
                assert(tail.drop_first() =~= oldh.skip(j as int + 1));
            }
            if start + size < h.start {
                // strictly before the next hole: stands alone
                self.holes.insert(j, fresh);
                proof {
                    assert(self.holes@ == insert_hole(oldh, start as int, size as int)) by {
                        assert(inserted =~= seq![fresh] + tail);
                        assert(self.holes@ =~= oldh.take(j as int) + (seq![fresh] + tail));
                    }
                }
            } else if start + size == h.start {
                // touches the next hole: grow it downwards
                let merged = FreeRange { start, size: size + h.size };
                splice_hole(&mut self.holes, j, merged, FreeRange { start: 0, size: 0 });
                proof {
                    assert(self.holes@ == insert_hole(oldh, start as int, size as int)) by {
                        assert(inserted =~= seq![merged] + oldh.skip(j as int + 1));
                        assert(self.holes@ =~= oldh.take(j as int) + inserted);
                    }
                }
            } else {
                // the hole before the range ends exactly at it: grow it upwards
                proof {
                    assert(start + size <= oldh[j as int].start || range_end(oldh[j as int])
                        <= start);
                    assert(range_end(oldh[j as int]) == start);
                }
                let mut three_way = false;
                if j + 1 < n {
                    proof {
                        assert(tail[1] == oldh[j as int + 1]);
                    }
                    if start + size == self.holes[j + 1].start {
                        three_way = true;
                    }
                }
                if three_way {
                    // the range exactly bridges two holes
                    let h2 = self.holes[j + 1];
                    proof {
                        assert(range_end(oldh[j as int + 1]) <= self.bottom + self.total);
                    }
                    let merged = FreeRange { start: h.start, size: h.size + size + h2.size };
                    self.holes.remove(j + 1);
                    let ghost mid = self.holes@;
                    splice_hole(&mut self.holes, j, merged, FreeRange { start: 0, size: 0 });
                    proof {
                        assert(self.holes@ == insert_hole(oldh, start as int, size as int)) by {
                            assert(tail.skip(2) =~= oldh.skip(j as int + 2));
                            assert(inserted =~= seq![merged] + oldh.skip(j as int + 2));
                            assert(mid.take(j as int) =~= oldh.take(j as int));
                            assert(mid.skip(j as int + 1) =~= oldh.skip(j as int + 2));
                            assert(self.holes@ =~= oldh.take(j as int) + inserted);
                        }
                    }
                } else {
                    let merged = FreeRange { start: h.start, size: h.size + size };
                    splice_hole(&mut self.holes, j, merged, FreeRange { start: 0, size: 0 });
                    proof {
                        assert(self.holes@ == insert_hole(oldh, start as int, size as int)) by {
                            assert(!(tail.len() >= 2 && start + size == tail[1].start));
                            assert(inserted =~= seq![merged] + oldh.skip(j as int + 1));
                            assert(self.holes@ =~= oldh.take(j as int) + inserted);
                        }
                    }
                }
            }
        }
    }
}

/// The base case: the carved hole is the first one.
#[verifier::rlimit(100)]
#[verifier::spinoff_prover]
proof fn lemma_carve_insert_id_base(
    holes: Seq<FreeRange>,
    bottom: int,
    total: int,
    addr: int,
    size: int,
)
    requires
        0 <= bottom,
        bottom + total <= usize::MAX,
        holes_wf(holes, bottom, total),
        0 < holes.len(),
        1 <= size,
        holes[0].start <= addr,
        addr + size <= range_end(holes[0]),
    ensures
        insert_hole(carve(holes, 0, addr, size), addr, size) == holes,
{
    let carved = carve(holes, 0, addr, size);
    let h = holes[0];
    let front = FreeRange { start: h.start, size: (addr - h.start) as usize };
    let back = FreeRange {
        start: (addr + size) as usize,
        size: (range_end(h) - (addr + size)) as usize,
    };
    let pieces = carve_pieces(h, addr, size);
    let rest = holes.skip(1);
    assert(carved =~= pieces + rest);
    if front.size > 0 && back.size > 0 {
        assert(insert_hole(carved, addr, size) == holes) by {
            let list = seq![front, back] + rest;
            assert(carved =~= list);
            assert(range_end(list[0]) == addr);
            assert(list[1].start == addr + size);
            assert(insert_hole(list, addr, size) == seq![
                FreeRange { start: front.start, size: (front.size + size + back.size) as usize },
            ] + list.skip(2));
            assert(FreeRange { start: front.start, size: (front.size + size + back.size) as usize }
                == h);
            assert(list.skip(2) =~= rest);
            assert(seq![h] + rest =~= holes);
        }
    } else if front.size > 0 {
        assert(insert_hole(carved, addr, size) == holes) by {
            let list = seq![front] + rest;
            assert(carved =~= list);
            assert(range_end(list[0]) == addr);
            if list.len() >= 2 {
                assert(list[1] == holes[1]);
                assert(range_end(holes[0]) < holes[1].start);
                assert(addr + size != list[1].start);
            }
            assert(insert_hole(list, addr, size) == seq![
                FreeRange { start: front.start, size: (front.size + size) as usize },
            ] + list.drop_first());
            assert(FreeRange { start: front.start, size: (front.size + size) as usize } == h);
            assert(list.drop_first() =~= rest);
            assert(seq![h] + rest =~= holes);
        }
    } else if back.size > 0 {
        assert(insert_hole(carved, addr, size) == holes) by {
            let list = seq![back] + rest;
            assert(carved =~= list);
            assert(addr + size == list[0].start);
            assert(insert_hole(list, addr, size) == seq![
                FreeRange { start: addr as usize, size: (size + back.size) as usize },
            ] + list.drop_first());
            assert(FreeRange { start: addr as usize, size: (size + back.size) as usize } == h);
            assert(list.drop_first() =~= rest);
            assert(seq![h] + rest =~= holes);
        }
    } else {
        assert(insert_hole(carved, addr, size) == holes) by {
            assert(carved =~= rest);
            let fresh = FreeRange { start: addr as usize, size: size as usize };
            assert(fresh == h);
            if rest.len() == 0 {
                assert(insert_hole(rest, addr, size) == seq![fresh]);
                assert(seq![h] =~= holes);
            } else {
                assert(rest[0] == holes[1]);
                assert(range_end(holes[0]) < holes[1].start);
                assert(addr + size < rest[0].start);
                assert(insert_hole(rest, addr, size) == seq![fresh] + rest);
                assert(seq![h] + rest =~= holes);
            }
        }
    }
}

/// Returning a range that was just carved out of hole `i` restores the hole
/// list exactly as it was.
#[verifier::rlimit(100)]
#[verifier::spinoff_prover]
pub proof fn lemma_carve_insert_id(
    holes: Seq<FreeRange>,
    bottom: int,
    total: int,
    i: int,
    addr: int,
    size: int,
)
    requires
        0 <= bottom,
        bottom + total <= usize::MAX,
        holes_wf(holes, bottom, total),
        0 <= i < holes.len(),
        1 <= size,
        holes[i].start <= addr,
        addr + size <= range_end(holes[i]),
    ensures
        insert_hole(carve(holes, i, addr, size), addr, size) == holes,
    decreases i,
{
    let carved = carve(holes, i, addr, size);
    let h = holes[i];
    let front = FreeRange { start: h.start, size: (addr - h.start) as usize };
    let back = FreeRange {
        start: (addr + size) as usize,
        size: (range_end(h) - (addr + size)) as usize,
    };
    let pieces = carve_pieces(h, addr, size);
    if i == 0 {
        lemma_carve_insert_id_base(holes, bottom, total, addr, size);
    } else {
        let dropped = holes.drop_first();
        let b2 = range_end(holes[0]);
        assert forall|t: int| 0 <= t < dropped.len() implies 1 <= (#[trigger] dropped[t]).size
            && b2 <= dropped[t].start && range_end(dropped[t]) <= bottom + total by {
            assert(dropped[t] == holes[t + 1]);
            lemma_holes_sorted(holes, 0, t + 1);
        }
        assert(holes_wf(dropped, b2, bottom + total - b2));
        assert(dropped[i - 1] == holes[i]);
        lemma_carve_insert_id(dropped, b2, bottom + total - b2, i - 1, addr, size);
        // the carved list is the first hole followed by the carved rest
        let carved_rest = carve(dropped, i - 1, addr, size);
        assert(carved =~= seq![holes[0]] + carved_rest) by {
            assert(holes.take(i) =~= seq![holes[0]] + dropped.take(i - 1));
            assert(holes.skip(i + 1) =~= dropped.skip(i));
            assert(carve_pieces(holes[i], addr, size) == carve_pieces(dropped[i - 1], addr, size));
        }
        // inserting walks past the first hole
        assert(range_end(holes[0]) < holes[1].start);
        if i > 1 {
            lemma_holes_sorted(holes, 1, i);
        }
        assert(range_end(holes[0]) < addr);
        assert(insert_hole(seq![holes[0]] + carved_rest, addr, size) == seq![holes[0]]
            + insert_hole((seq![holes[0]] + carved_rest).drop_first(), addr, size));
        assert((seq![holes[0]] + carved_rest).drop_first() =~= carved_rest);
        assert(seq![holes[0]] + dropped =~= holes);
    }
}

/// Carving an allocation out of a hole leaves any range that was disjoint
/// from every hole still disjoint from every hole.
pub proof fn lemma_carve_disjoint(
    holes: Seq<FreeRange>,
    i: int,
    addr: int,
    size: int,
    start2: int,
    size2: int,
)
    requires
        0 <= i < holes.len(),
        1 <= size,
        holes[i].start <= addr,
        addr + size <= range_end(holes[i]),
        range_end(holes[i]) <= usize::MAX,
        forall|t: int|
            0 <= t < holes.len() ==> (start2 + size2 <= (#[trigger] holes[t]).start || range_end(
                holes[t],
            ) <= start2),
    ensures
        forall|t: int|
            0 <= t < carve(holes, i, addr, size).len() ==> (start2 + size2 <= (#[trigger] carve(
                holes,
                i,
                addr,
                size,
            )[t]).start || range_end(carve(holes, i, addr, size)[t]) <= start2),
{
    let result = carve(holes, i, addr, size);
    let pieces = carve_pieces(holes[i], addr, size);
    let np = pieces.len() as int;
    assert forall|t: int| 0 <= t < result.len() implies (start2 + size2
        <= (#[trigger] result[t]).start || range_end(result[t]) <= start2) by {
        if t < i {
            assert(result[t] == holes[t]);
        } else if t < i + np {
            assert(result[t] == pieces[t - i]);
            assert(pieces[t - i].start >= holes[i].start);
            assert(range_end(pieces[t - i]) <= range_end(holes[i]));
            assert(start2 + size2 <= holes[i].start || range_end(holes[i]) <= start2);
        } else {
            assert(result[t] == holes[t - np + 1]);
        }
    }
}

/// Returning one allocated range to the free set leaves any other allocated
/// range, disjoint from it, still allocated.
#[verifier::rlimit(100)]
#[verifier::spinoff_prover]
pub proof fn lemma_insert_hole_disjoint(
    holes: Seq<FreeRange>,
    bottom: int,
    total: int,
    start: int,
    size: int,
    start2: int,
    size2: int,
)
    requires
        0 <= bottom,
        bottom + total <= usize::MAX,
        holes_wf(holes, bottom, total),
        range_is_allocated(holes, bottom, total, start, size),
        1 <= size2,
        forall|i: int|
            0 <= i < holes.len() ==> (start2 + size2 <= (#[trigger] holes[i]).start || range_end(
                holes[i],
            ) <= start2),
        start + size <= start2 || start2 + size2 <= start,
    ensures
        forall|i: int|
            0 <= i < insert_hole(holes, start, size).len() ==> (start2 + size2 <= (
            #[trigger] insert_hole(holes, start, size)[i]).start || range_end(
                insert_hole(holes, start, size)[i],
            ) <= start2),
    decreases holes.len(),
{
    let result = insert_hole(holes, start, size);
    let fresh = FreeRange { start: start as usize, size: size as usize };
    if holes.len() == 0 {
        assert(result =~= seq![fresh]);
    } else if start + size < holes[0].start {
        assert(result =~= seq![fresh] + holes);
        assert forall|i: int| 0 <= i < result.len() implies (start2 + size2
            <= (#[trigger] result[i]).start || range_end(result[i]) <= start2) by {
            if i > 0 {
                assert(result[i] == holes[i - 1]);
            }
        }
    } else if start + size == holes[0].start {
        let merged = FreeRange { start: start as usize, size: (size + holes[0].size) as usize };
        assert(result =~= seq![merged] + holes.drop_first());
        assert forall|i: int| 0 <= i < result.len() implies (start2 + size2
            <= (#[trigger] result[i]).start || range_end(result[i]) <= start2) by {
            if i > 0 {
                assert(result[i] == holes[i]);
            } else {
                assert(range_end(merged) == range_end(holes[0]));
                assert(start2 + size2 <= holes[0].start || range_end(holes[0]) <= start2);
            }
        }
    } else if range_end(holes[0]) == start {
        if holes.len() >= 2 && start + size == holes[1].start {
            let merged = FreeRange {
                start: holes[0].start,
                size: (holes[0].size + size + holes[1].size) as usize,
            };
            assert(result =~= seq![merged] + holes.skip(2));
            assert forall|i: int| 0 <= i < result.len() implies (start2 + size2
                <= (#[trigger] result[i]).start || range_end(result[i]) <= start2) by {
                if i > 0 {
                    assert(result[i] == holes[i + 1]);
                } else {
                    assert(range_end(merged) == range_end(holes[1]));
                    assert(start2 + size2 <= holes[0].start || range_end(holes[0]) <= start2);
                    assert(start2 + size2 <= holes[1].start || range_end(holes[1]) <= start2);
                }
            }
        } else {
            let merged = FreeRange { start: holes[0].start, size: (holes[0].size + size) as usize };
            assert(result =~= seq![merged] + holes.drop_first());
            assert forall|i: int| 0 <= i < result.len() implies (start2 + size2
                <= (#[trigger] result[i]).start || range_end(result[i]) <= start2) by {
                if i > 0 {
                    assert(result[i] == holes[i]);
                } else {
                    assert(range_end(merged) == start + size);
                    assert(start2 + size2 <= holes[0].start || range_end(holes[0]) <= start2);
                }
            }
        }
    } else {
        let rest = holes.drop_first();
        let b2 = range_end(holes[0]);
        assert forall|t: int| 0 <= t < rest.len() implies 1 <= (#[trigger] rest[t]).size && b2
            <= rest[t].start && range_end(rest[t]) <= bottom + total by {
            assert(rest[t] == holes[t + 1]);
            lemma_holes_sorted(holes, 0, t + 1);
        }
        assert forall|t: int| 0 <= t < rest.len() implies (start + size
            <= (#[trigger] rest[t]).start || range_end(rest[t]) <= start) by {
            assert(rest[t] == holes[t + 1]);
        }
        assert forall|t: int| 0 <= t < rest.len() implies (start2 + size2
            <= (#[trigger] rest[t]).start || range_end(rest[t]) <= start2) by {
            assert(rest[t] == holes[t + 1]);
        }
        assert(range_is_allocated(rest, b2, bottom + total - b2, start, size)) by {
            assert(range_end(holes[0]) < start);
        }
        lemma_insert_hole_disjoint(
            rest,
            b2,
            bottom + total - b2,
            start,
            size,
            start2,
            size2,
        );
        let sub = insert_hole(rest, start, size);
        assert(result =~= seq![holes[0]] + sub);
        assert forall|i: int| 0 <= i < result.len() implies (start2 + size2
            <= (#[trigger] result[i]).start || range_end(result[i]) <= start2) by {
            if i > 0 {
                assert(result[i] == sub[i - 1]);
            }
        }
    }
}

/// A byte-aligned request is served as soon as any hole can carry it.
pub proof fn lemma_fit_exists(holes: Seq<FreeRange>, size: int, j: int)
    requires
        1 <= size,
        0 <= j < holes.len(),
        size <= holes[j].size,
    ensures
        find_fit(holes, size, 1) is Some,
{
    lemma_fit_exists_from(holes, size, j, 0);
}

proof fn lemma_fit_exists_from(holes: Seq<FreeRange>, size: int, j: int, i: int)
    requires
        1 <= size,
        0 <= i <= j < holes.len(),
        size <= holes[j].size,
    ensures
        find_fit_from(holes, size, 1, i) is Some,
    decreases j - i,
{
    let addr = spec_align_up(holes[i].start as int, 1);
    assert(addr == holes[i].start);
    if addr + size <= range_end(holes[i]) {
    } else {
        assert(i < j);
        lemma_fit_exists_from(holes, size, j, i + 1);
    }
}

/// Folding a region into the top of the heap leaves a hole at least that
/// large, so a byte-aligned request no larger than the new region is
/// guaranteed a fit after the extension.
pub proof fn lemma_extension_fits(
    holes: Seq<FreeRange>,
    bottom: int,
    total: int,
    by: int,
    size: int,
)
    requires
        0 <= bottom,
        0 <= total,
        bottom + total + by <= usize::MAX,
        1 <= by,
        1 <= size <= by,
        holes_wf(holes, bottom, total),
    ensures
        find_fit(insert_hole(holes, bottom + total, by), size, 1) is Some,
{
    lemma_extend_shape(holes, bottom, total, by);
    let grown = insert_hole(holes, bottom + total, by);
    let n = holes.len() as int;
    if n > 0 && range_end(holes[n - 1]) == bottom + total {
        assert(grown.len() == n);
        assert(grown[n - 1].size == holes[n - 1].size + by);
        lemma_fit_exists(grown, size, n - 1);
    } else {
        assert(grown.len() == n + 1);
        assert(grown[n as int].size == by);
        lemma_fit_exists(grown, size, n);
    }
}

/// First-fit hands back the very same address after the block is freed:
/// carving the fit out and returning it restores the hole list, so the same
/// request finds the same fit again.
pub proof fn lemma_realloc_same_address(
    holes: Seq<FreeRange>,
    bottom: int,
    total: int,
    size: int,
    align: int,
)
    requires
        0 <= bottom,
        bottom + total <= usize::MAX,
        holes_wf(holes, bottom, total),
        1 <= size,
        1 <= align,
        find_fit(holes, size, align) is Some,
    ensures
        ({
            let (i, addr) = find_fit(holes, size, align)->Some_0;
            &&& insert_hole(carve(holes, i, addr, size), addr, size) == holes
            &&& find_fit(insert_hole(carve(holes, i, addr, size), addr, size), size, align)
                == Some((i, addr))
        }),
{
    let (i, addr) = find_fit(holes, size, align)->Some_0;
    lemma_find_fit_props(holes, size, align, 0);
    lemma_carve_insert_id(holes, bottom, total, i, addr, size);
}

} // verus!
