//! The physical frame allocator: consumes a region map and serves or reclaims
//! page frames from the usable regions, with a free/used flag kept for every
//! tracked frame.

use vstd::prelude::*;
use crate::region::{
    lemma_regions_sorted_pairwise, Region, RegionMap, MAX_TRACKED_REGIONS, PAGE_SIZE,
};

verus! {

/// One usable region under the allocator's management: its page-aligned start
/// address and one used flag per page frame.
pub struct TrackedRegion {
    start: u64,
    used: Vec<bool>,
}

impl TrackedRegion {
    /// Physical address of the region's first frame.
    pub closed spec fn start_spec(self) -> u64 {
        self.start
    }

    /// The used flag of each frame, in frame order.
    pub closed spec fn flags(self) -> Seq<bool> {
        self.used@
    }

    /// Number of page frames in the region.
    pub open spec fn pages(self) -> int {
        self.flags().len() as int
    }

    /// Physical address one past the region's last byte.
    pub open spec fn end(self) -> int {
        self.start_spec() + self.pages() * PAGE_SIZE
    }

    /// Page aligned, non-empty, within the physical address space.
    pub open spec fn wf(self) -> bool {
        &&& self.pages() > 0
        &&& self.start_spec() % PAGE_SIZE == 0
        &&& self.end() <= 0x1_0000_0000_0000_0000
    }

    /// Physical address of the frame at an offset within the region.
    pub open spec fn frame(self, o: int) -> int {
        self.start_spec() + o * PAGE_SIZE
    }

    /// Some frame in the window of `n` frames at offset `o` is in use.
    pub open spec fn window_has_used(self, o: int, n: int) -> bool {
        exists|k: int| o <= k < o + n && self.flags()[k]
    }

    /// No window of `n` consecutive frames is entirely free.
    pub open spec fn no_run(self, n: int) -> bool {
        forall|o: int|
            0 <= o && o + n <= self.flags().len() ==> #[trigger] self.window_has_used(o, n)
    }

    /// Sets the used flags of the window of `n` frames at offset `o`.
    fn mark(&mut self, o: usize, n: usize)
        requires
            o + n <= old(self).flags().len(),
        ensures
            final(self).start_spec() == old(self).start_spec(),
            final(self).flags().len() == old(self).flags().len(),
            forall|k: int|
                0 <= k < old(self).flags().len() ==> final(self).flags()[k] == (old(self).flags()[k] || (o <= k < o + n)),
    {
        let _total = self.used.len();
        let end = o + n;
        let mut k = o;
        while k < end
            invariant
                o <= k <= end,
                end == o + n,
                end <= self.flags().len(),
                self.start_spec() == old(self).start_spec(),
                self.flags().len() == old(self).flags().len(),
                forall|j: int|
                    0 <= j < self.flags().len() ==> self.flags()[j] == (old(self).flags()[j] || (o
                        <= j < k)),
            decreases end - k,
        {
            self.used[k] = true;
            k += 1;
        }
    }

    /// Clears the used flag of the frame at offset `o`.
    fn clear(&mut self, o: usize)
        requires
            o < old(self).flags().len(),
        ensures
            final(self).start_spec() == old(self).start_spec(),
            final(self).flags().len() == old(self).flags().len(),
            forall|k: int|
                0 <= k < old(self).flags().len() ==> final(self).flags()[k] == (old(self).flags()[k] && k != o),
    {
        self.used[o] = false;
    }
}

/// A contiguous run of page frames handed out by the allocator.
#[derive(Clone, Copy, PartialEq, Eq, Structural, Debug)]
pub struct FrameRange {
    /// Physical address of the first frame.
    pub start: u64,
    /// Number of frames in the run.
    pub count: u64,
}

impl FrameRange {
    /// Physical address of the run's frame number `i`.
    pub open spec fn frame(self, i: int) -> int {
        self.start + i * PAGE_SIZE
    }

    /// Whether the address is one of the run's frame addresses.
    pub open spec fn covers(self, a: int) -> bool {
        exists|i: int| 0 <= i < self.count && a == #[trigger] self.frame(i)
    }
}

/// The caller-visible failure of an allocation request.
#[derive(Clone, Copy, PartialEq, Eq, Structural, Debug)]
pub enum AllocError {
    /// No usable region holds a free run of the requested length.
    InsufficientMemory,
}

/// Physical address of frame `o` of entry `i` of the region sequence `s`.
pub open spec fn entry_frame(s: Seq<Region>, i: int, o: int) -> int {
    s[i].start + o * PAGE_SIZE
}

/// A physical address `a` is a frame of some usable entry of the region
/// sequence `s`.
pub open spec fn map_usable_frame(s: Seq<Region>, a: int) -> bool {
    exists|i: int, o: int|
        0 <= i < s.len() && s[i].is_usable() && 0 <= o < s[i].pages && a == #[trigger] entry_frame(
            s,
            i,
            o,
        )
}

/// The physical frame allocator. Initialized from a region map; serves
/// contiguous runs of frames out of the usable regions, first fit, and takes
/// single frames back.
pub struct FrameAllocator {
    regions: Vec<TrackedRegion>,
}

impl FrameAllocator {
    /// The tracked regions.
    pub closed spec fn regions_spec(self) -> Seq<TrackedRegion> {
        self.regions@
    }

    /// Number of tracked regions.
    pub open spec fn num_regions(self) -> int {
        self.regions_spec().len() as int
    }

    /// `r` indexes a tracked region.
    pub open spec fn region_valid(self, r: int) -> bool {
        0 <= r < self.num_regions()
    }

    /// `(r, o)` names a frame: region index and page offset within it.
    pub open spec fn slot_valid(self, r: int, o: int) -> bool {
        self.region_valid(r) && 0 <= o < self.regions_spec()[r].pages()
    }

    /// Physical address of the frame named by `(r, o)`.
    pub open spec fn slot_addr(self, r: int, o: int) -> int {
        self.regions_spec()[r].frame(o)
    }

    /// Tracked region `r` mirrors some usable entry of `m`: same start
    /// address and same page count.
    pub open spec fn region_from_entry(self, m: Seq<Region>, r: int) -> bool {
        exists|i: int|
            0 <= i < m.len() && (#[trigger] m[i]).is_usable()
                && self.regions_spec()[r].start_spec() == m[i].start
                && self.regions_spec()[r].pages() == m[i].pages
    }

    /// Well-formed: within capacity, every region well formed, regions sorted
    /// by address and pairwise disjoint.
    pub open spec fn wf(self) -> bool {
        &&& self.num_regions() <= MAX_TRACKED_REGIONS
        &&& forall|r: int| self.region_valid(r) ==> (#[trigger] self.regions_spec()[r]).wf()
        &&& forall|r1: int, r2: int|
            0 <= r1 < r2 < self.num_regions() ==> (#[trigger] self.regions_spec()[r1]).end() <= (
            #[trigger] self.regions_spec()[r2]).start_spec()
    }

    /// The allocator tracks a frame with this physical address.
    pub open spec fn is_tracked(self, a: int) -> bool {
        exists|r: int, o: int| self.slot_valid(r, o) && a == #[trigger] self.slot_addr(r, o)
    }

    /// The frame with this physical address is tracked and currently free.
    pub open spec fn is_free(self, a: int) -> bool {
        exists|r: int, o: int|
            self.slot_valid(r, o) && !self.regions_spec()[r].flags()[o] && a == #[trigger] self.slot_addr(
                r,
                o,
            )
    }

    /// The set of free frame addresses.
    pub open spec fn free_set(self) -> Set<int> {
        Set::new(|a: int| self.is_free(a))
    }

    /// Both allocators track the same regions (addresses and sizes); only the
    /// used flags may differ.
    pub open spec fn same_layout(self, other: Self) -> bool {
        &&& self.num_regions() == other.num_regions()
        &&& forall|r: int|
            0 <= r < self.num_regions() ==> (#[trigger] self.regions_spec()[r]).start_spec()
                == other.regions_spec()[r].start_spec() && self.regions_spec()[r].pages()
                == other.regions_spec()[r].pages()
    }

    /// The window of `n` frames at `(r, o)` is entirely free.
    pub open spec fn run_free(self, r: int, o: int, n: int) -> bool {
        forall|k: int| o <= k < o + n ==> !(#[trigger] self.regions_spec()[r].flags()[k])
    }

    /// Some region holds a window of `n` consecutive free frames.
    pub open spec fn has_free_run(self, n: int) -> bool {
        exists|r: int, o: int|
            self.region_valid(r) && 0 <= o && o + n <= self.regions_spec()[r].pages()
                && #[trigger] self.run_free(r, o, n)
    }

    /// A fresh allocator that tracks nothing; `init` gives it its regions.
    pub fn new() -> (r: FrameAllocator)
        ensures
            r.wf(),
            r.num_regions() == 0,
            forall|a: int| !(#[trigger] r.is_tracked(a)),
            forall|a: int| !(#[trigger] r.is_free(a)),
    {
        FrameAllocator { regions: Vec::new() }
    }

    /// Resets the allocator from a freshly supplied region map: every frame of
    /// every usable entry becomes tracked and free; nothing else is tracked.
    /// Re-initialization replaces the previous state entirely.
    pub fn init(&mut self, map: &RegionMap)
        requires
            map.wf(),
            forall|i: int| 0 <= i < map@.len() ==> (#[trigger] map@[i]).pages <= usize::MAX,
        ensures
            final(self).wf(),
            forall|a: int| #[trigger] final(self).is_tracked(a) <==> map_usable_frame(map@, a),
            forall|a: int| #[trigger] final(self).is_free(a) <==> map_usable_frame(map@, a),
            forall|i: int|
                0 <= i < map@.len() && (#[trigger] map@[i]).is_usable() ==> final(self).has_free_run(map@[i].pages as int),
            forall|r: int|
                0 <= r < final(self).num_regions() ==> #[trigger] final(self).region_from_entry(
                    map@,
                    r,
                ),
    {
        proof {
            lemma_regions_sorted_pairwise(map@);
        }
        self.regions = Vec::new();
        let ghost m = map@;
        let ghost mut srcs: Seq<int> = Seq::empty();
        let n = map.len();
        let mut i: usize = 0;
        while i < n
            invariant
                n == m.len(),
                m == map@,
                map.wf(),
                forall|x: int| 0 <= x < m.len() ==> (#[trigger] m[x]).pages <= usize::MAX,
                forall|x: int, y: int| 0 <= x < y < m.len() ==> m[x].end() <= m[y].start,
                0 <= i <= n,
                srcs.len() == self.regions_spec().len(),
                self.regions_spec().len() <= i,
                forall|k: int|
                    0 <= k < srcs.len() ==> 0 <= #[trigger] srcs[k] < i && m[srcs[k]].is_usable()
                        && self.regions_spec()[k].start_spec() == m[srcs[k]].start
                        && self.regions_spec()[k].pages() == m[srcs[k]].pages,
                forall|k1: int, k2: int| 0 <= k1 < k2 < srcs.len() ==> srcs[k1] < srcs[k2],
                forall|k: int, o: int|
                    0 <= k < self.regions_spec().len() && 0 <= o < self.regions_spec()[k].pages()
                        ==> !(#[trigger] self.regions_spec()[k].flags()[o]),
                forall|j: int|
                    0 <= j < i && (#[trigger] m[j]).is_usable() ==> exists|k: int|
                        0 <= k < srcs.len() && srcs[k] == j,
            decreases n - i,
        {
            let e = map.get(i);
            if e.kind == crate::region::RegionKind::Usable {
                proof {
                    assert(m[i as int].wf());
                }
                let pages_us = e.pages as usize;
                let flags = all_free_flags(pages_us);
                let tr = TrackedRegion { start: e.start, used: flags };
                self.regions.push(tr);
                proof {
                    let srcs0 = srcs;
                    srcs = srcs.push(i as int);
                    assert forall|j: int|
                        0 <= j < i + 1 && (#[trigger] m[j]).is_usable() implies exists|k: int|
                        0 <= k < srcs.len() && srcs[k] == j by {
                        if j == i {
                            assert(srcs[srcs.len() - 1] == j);
                        } else {
                            let k0 = choose|k: int| 0 <= k < srcs0.len() && srcs0[k] == j;
                            assert(srcs[k0] == j);
                        }
                    }
                }
            }
            i += 1;
        }
        proof {
            self.lemma_init_shape(m, srcs);
        }
    }

    /// From the construction bookkeeping of `init`, derives the advertised
    /// shape of the freshly initialized allocator.
    proof fn lemma_init_shape(self, m: Seq<Region>, srcs: Seq<int>)
        requires
            crate::region::regions_wf(m),
            forall|x: int, y: int| 0 <= x < y < m.len() ==> m[x].end() <= m[y].start,
            m.len() <= MAX_TRACKED_REGIONS,
            srcs.len() == self.regions_spec().len(),
            self.regions_spec().len() <= m.len(),
            forall|k: int|
                0 <= k < srcs.len() ==> 0 <= #[trigger] srcs[k] < m.len()
                    && m[srcs[k]].is_usable() && self.regions_spec()[k].start_spec()
                    == m[srcs[k]].start && self.regions_spec()[k].pages() == m[srcs[k]].pages,
            forall|k1: int, k2: int| 0 <= k1 < k2 < srcs.len() ==> srcs[k1] < srcs[k2],
            forall|k: int, o: int|
                0 <= k < self.regions_spec().len() && 0 <= o < self.regions_spec()[k].pages() ==> !(
                #[trigger] self.regions_spec()[k].flags()[o]),
            forall|j: int|
                0 <= j < m.len() && (#[trigger] m[j]).is_usable() ==> exists|k: int|
                    0 <= k < srcs.len() && srcs[k] == j,
        ensures
            self.wf(),
            forall|a: int| #[trigger] self.is_tracked(a) <==> map_usable_frame(m, a),
            forall|a: int| #[trigger] self.is_free(a) <==> map_usable_frame(m, a),
            forall|i: int|
                0 <= i < m.len() && (#[trigger] m[i]).is_usable() ==> self.has_free_run(
                    m[i].pages as int,
                ),
            forall|r: int|
                0 <= r < self.num_regions() ==> #[trigger] self.region_from_entry(m, r),
    {
        assert forall|r: int| self.region_valid(r) implies (
        #[trigger] self.regions_spec()[r]).wf() by {
            assert(m[srcs[r]].wf());
        }
        assert forall|r1: int, r2: int| 0 <= r1 < r2 < self.num_regions() implies (
        #[trigger] self.regions_spec()[r1]).end() <= (
        #[trigger] self.regions_spec()[r2]).start_spec() by {
            assert(srcs[r1] < srcs[r2]);
            assert(m[srcs[r1]].end() <= m[srcs[r2]].start);
        }
        assert forall|a: int| #[trigger] self.is_tracked(a) <==> map_usable_frame(m, a) by {
            if self.is_tracked(a) {
                let (r, o) = choose|r: int, o: int|
                    self.slot_valid(r, o) && a == #[trigger] self.slot_addr(r, o);
                let i = srcs[r];
                assert(0 <= i < m.len() && m[i].is_usable() && 0 <= o < m[i].pages && a
                    == entry_frame(m, i, o));
            }
            if map_usable_frame(m, a) {
                let (i, o) = choose|i: int, o: int|
                    0 <= i < m.len() && m[i].is_usable() && 0 <= o < m[i].pages && a
                        == #[trigger] entry_frame(m, i, o);
                let k = choose|k: int| 0 <= k < srcs.len() && srcs[k] == i;
                assert(self.slot_valid(k, o) && a == self.slot_addr(k, o));
            }
        }
        assert forall|a: int| #[trigger] self.is_free(a) <==> map_usable_frame(m, a) by {
            if self.is_free(a) {
                let (r, o) = choose|r: int, o: int|
                    self.slot_valid(r, o) && !self.regions_spec()[r].flags()[o] && a
                        == #[trigger] self.slot_addr(r, o);
                let i = srcs[r];
                assert(0 <= i < m.len() && m[i].is_usable() && 0 <= o < m[i].pages && a
                    == entry_frame(m, i, o));
            }
            if map_usable_frame(m, a) {
                let (i, o) = choose|i: int, o: int|
                    0 <= i < m.len() && m[i].is_usable() && 0 <= o < m[i].pages && a
                        == #[trigger] entry_frame(m, i, o);
                let k = choose|k: int| 0 <= k < srcs.len() && srcs[k] == i;
                assert(!self.regions_spec()[k].flags()[o]);
                assert(self.slot_valid(k, o) && a == self.slot_addr(k, o));
            }
        }
        assert forall|i: int| 0 <= i < m.len() && (#[trigger] m[i]).is_usable() implies self.has_free_run(
            m[i].pages as int,
        ) by {
            let k = choose|k: int| 0 <= k < srcs.len() && srcs[k] == i;
            assert(self.run_free(k, 0, m[i].pages as int));
            assert(self.region_valid(k) && 0 <= 0 && 0 + m[i].pages <= self.regions_spec()[k].pages());
        }
        assert forall|r: int| 0 <= r < self.num_regions() implies #[trigger] self.region_from_entry(
            m,
            r,
        ) by {
            assert(0 <= srcs[r] < m.len() && m[srcs[r]].is_usable()
                && self.regions_spec()[r].start_spec() == m[srcs[r]].start
                && self.regions_spec()[r].pages() == m[srcs[r]].pages);
        }
    }
}

/// A used-flag vector of the given length with every frame free.
fn all_free_flags(pages: usize) -> (v: Vec<bool>)
    ensures
        v@.len() == pages,
        forall|k: int| 0 <= k < pages ==> !v@[k],
{
    let mut v: Vec<bool> = Vec::new();
    let mut k: usize = 0;
    while k < pages
        invariant
            v@.len() == k,
            k <= pages,
            forall|j: int| 0 <= j < k ==> !v@[j],
        decreases pages - k,
    {
        v.push(false);
        k += 1;
    }
    v
}

} // verus!

verus! {

impl FrameAllocator {
    /// Allocators with the same layout agree on which slots exist and on
    /// every slot's physical address.
    pub proof fn lemma_same_layout_slots(self, other: Self)
        requires
            self.same_layout(other),
        ensures
            forall|r: int, o: int| #[trigger] self.slot_valid(r, o) == other.slot_valid(r, o),
            forall|r: int, o: int|
                self.region_valid(r) ==> #[trigger] self.slot_addr(r, o) == other.slot_addr(r, o),
    {
        assert forall|r: int, o: int| #[trigger] self.slot_valid(r, o) == other.slot_valid(
            r,
            o,
        ) by {
            if 0 <= r < self.num_regions() {
                assert(self.regions_spec()[r].pages() == other.regions_spec()[r].pages());
            }
        }
        assert forall|r: int, o: int|
            self.region_valid(r) implies #[trigger] self.slot_addr(r, o) == other.slot_addr(
            r,
            o,
        ) by {
            assert(self.regions_spec()[r].start_spec() == other.regions_spec()[r].start_spec());
        }
    }

    /// Well-formedness depends only on the layout, not on the used flags.
    pub proof fn lemma_same_layout_wf(self, other: Self)
        requires
            self.wf(),
            self.same_layout(other),
        ensures
            other.wf(),
    {
        assert forall|r: int| other.region_valid(r) implies (
        #[trigger] other.regions_spec()[r]).wf() by {
            assert(self.regions_spec()[r].wf());
            assert(self.regions_spec()[r].start_spec() == other.regions_spec()[r].start_spec());
            assert(self.regions_spec()[r].pages() == other.regions_spec()[r].pages());
        }
        assert forall|r1: int, r2: int| 0 <= r1 < r2 < other.num_regions() implies (
        #[trigger] other.regions_spec()[r1]).end() <= (
        #[trigger] other.regions_spec()[r2]).start_spec() by {
            assert(self.regions_spec()[r1].end() <= self.regions_spec()[r2].start_spec());
            assert(self.regions_spec()[r1].pages() == other.regions_spec()[r1].pages());
            assert(self.regions_spec()[r1].start_spec() == other.regions_spec()[r1].start_spec());
            assert(self.regions_spec()[r2].start_spec() == other.regions_spec()[r2].start_spec());
        }
    }

    /// Distinct slots of a well-formed allocator have distinct physical
    /// addresses: the slot is recoverable from the address.
    pub proof fn lemma_slot_addr_injective(self, r1: int, o1: int, r2: int, o2: int)
        requires
            self.wf(),
            self.slot_valid(r1, o1),
            self.slot_valid(r2, o2),
            self.slot_addr(r1, o1) == self.slot_addr(r2, o2),
        ensures
            r1 == r2,
            o1 == o2,
    {
        if r1 < r2 {
            assert(self.regions_spec()[r1].end() <= self.regions_spec()[r2].start_spec());
            assert(false);
        } else if r2 < r1 {
            assert(self.regions_spec()[r2].end() <= self.regions_spec()[r1].start_spec());
            assert(false);
        }
    }

    /// Searches every region, in address order, for the first window of `n`
    /// consecutive free frames.
    fn find_run(&self, n: u64) -> (res: Option<(usize, usize)>)
        requires
            n > 0,
        ensures
            match res {
                Some((r, o)) => self.slot_valid(r as int, o as int) && o + n
                    <= self.regions_spec()[r as int].pages() && self.run_free(
                    r as int,
                    o as int,
                    n as int,
                ) && (forall|r2: int|
                    0 <= r2 < r ==> (#[trigger] self.regions_spec()[r2]).no_run(n as int)) && (
                forall|o2: int|
                    0 <= o2 < o ==> #[trigger] self.regions_spec()[r as int].window_has_used(
                        o2,
                        n as int,
                    )),
                None => !self.has_free_run(n as int),
            },
    {
        let mut r: usize = 0;
        let num = self.regions.len();
        while r < num
            invariant
                n > 0,
                num == self.num_regions(),
                0 <= r <= num,
                forall|r2: int|
                    0 <= r2 < r ==> (#[trigger] self.regions_spec()[r2]).no_run(n as int),
            decreases num - r,
        {
            match find_run_in(&self.regions[r], n) {
                Some(o) => {
                    return Some((r, o));
                },
                None => {},
            }
            r += 1;
        }
        proof {
            assert forall|ri: int, o: int|
                !(self.region_valid(ri) && 0 <= o && o + n <= self.regions_spec()[ri].pages()
                    && #[trigger] self.run_free(ri, o, n as int)) by {
                if self.region_valid(ri) && 0 <= o && o + n <= self.regions_spec()[ri].pages() {
                    assert(self.regions_spec()[ri].no_run(n as int));
                    if self.run_free(ri, o, n as int) {
                        assert(self.regions_spec()[ri].window_has_used(o, n as int));
                        let k = choose|k: int|
                            o <= k < o + n && self.regions_spec()[ri].flags()[k];
                        assert(!self.regions_spec()[ri].flags()[k]);
                    }
                }
            }
        }
        None
    }

    /// Serves a contiguous run of `n` page frames, or reports that no usable
    /// region holds such a run. A request for zero frames trivially succeeds
    /// with an empty run at address zero and leaves the allocator unchanged.
    /// On success the returned run is the first fit: the lowest free window
    /// of `n` frames in region order, its frames were all free, lie inside
    /// one tracked region, and are exactly the frames that stop being free.
    pub fn allocate(&mut self, n: u64) -> (res: Result<FrameRange, AllocError>)
        requires
            old(self).wf(),
        ensures
            final(self).wf(),
            old(self).same_layout(*final(self)),
            match res {
                Ok(run) => {
                    &&& run.count == n
                    &&& (n == 0 ==> run.start == 0 && *final(self) == *old(self))
                    &&& (n > 0 ==> {
                        &&& (exists|ri: int, o: int|
                            old(self).slot_valid(ri, o) && #[trigger] old(self).slot_addr(ri, o)
                                == run.start && o + n <= old(self).regions_spec()[ri].pages()
                                && old(self).run_free(ri, o, n as int) && (forall|r2: int|
                                0 <= r2 < ri ==> (#[trigger] old(self).regions_spec()[r2]).no_run(
                                    n as int,
                                )) && (forall|o2: int|
                                0 <= o2 < o ==> #[trigger] old(
                                    self,
                                ).regions_spec()[ri].window_has_used(o2, n as int)))
                        &&& run.start % PAGE_SIZE == 0
                        &&& forall|i: int|
                            0 <= i < n ==> old(self).is_free(#[trigger] run.frame(i))
                        &&& forall|a: int|
                            #[trigger] final(self).is_free(a) <==> (old(self).is_free(a)
                                && !run.covers(a))
                    })
                },
                Err(e) => {
                    &&& e == AllocError::InsufficientMemory
                    &&& n > 0
                    &&& !old(self).has_free_run(n as int)
                    &&& *final(self) == *old(self)
                },
            },
    {
        if n == 0 {
            return Ok(FrameRange { start: 0, count: 0 });
        }
        match self.find_run(n) {
            None => Err(AllocError::InsufficientMemory),
            Some((r, o)) => {
                proof {
                    assert(self.regions_spec()[r as int].wf());
                }
                let run_start = self.regions[r].start + (o as u64) * PAGE_SIZE;
                let _tr_len = self.regions[r].used.len();
                let n_us = n as usize;
                let ghost pre = *self;
                let tr = &mut self.regions[r];
                tr.mark(o, n_us);
                proof {
                    let run = FrameRange { start: run_start, count: n };
                    assert(pre.same_layout(*self));
                    pre.lemma_same_layout_slots(*self);
                    pre.lemma_same_layout_wf(*self);
                    assert forall|a: int|
                        #[trigger] self.is_free(a) <==> (pre.is_free(a) && !run.covers(a)) by {
                        if self.is_free(a) {
                            let (r2, o2) = choose|r2: int, o2: int|
                                self.slot_valid(r2, o2) && !self.regions_spec()[r2].flags()[o2]
                                    && a == #[trigger] self.slot_addr(r2, o2);
                            assert(!pre.regions_spec()[r2].flags()[o2]);
                            assert(pre.slot_valid(r2, o2) && a == pre.slot_addr(r2, o2));
                            assert(pre.is_free(a));
                            if run.covers(a) {
                                let i = choose|i: int|
                                    0 <= i < run.count && a == #[trigger] run.frame(i);
                                assert(a == pre.slot_addr(r as int, o + i));
                                assert(pre.slot_valid(r as int, o + i));
                                pre.lemma_slot_addr_injective(r2, o2, r as int, o + i);
                                assert(self.regions_spec()[r as int].flags()[o + i]);
                                assert(false);
                            }
                        }
                        if pre.is_free(a) && !run.covers(a) {
                            let (r2, o2) = choose|r2: int, o2: int|
                                pre.slot_valid(r2, o2) && !pre.regions_spec()[r2].flags()[o2]
                                    && a == #[trigger] pre.slot_addr(r2, o2);
                            if r2 == r as int && o <= o2 < o + n {
                                assert(a == run.frame(o2 - o));
                                assert(run.covers(a));
                                assert(false);
                            }
                            assert(!self.regions_spec()[r2].flags()[o2]);
                            assert(self.slot_valid(r2, o2) && a == self.slot_addr(r2, o2));
                        }
                    }
                    assert forall|i: int| 0 <= i < n implies pre.is_free(
                        #[trigger] run.frame(i),
                    ) by {
                        assert(run.frame(i) == pre.slot_addr(r as int, o + i));
                        assert(pre.slot_valid(r as int, o + i));
                        assert(!pre.regions_spec()[r as int].flags()[o + i]);
                    }
                    assert(run.start == pre.slot_addr(r as int, o as int));
                }
                Ok(FrameRange { start: run_start, count: n })
            },
        }
    }

    /// Returns one previously allocated frame to the free pool. The frame
    /// must be a tracked frame that is currently in use; afterwards exactly
    /// that frame is free in addition to what was free before.
    pub fn deallocate(&mut self, frame: u64)
        requires
            old(self).wf(),
            old(self).is_tracked(frame as int),
            !old(self).is_free(frame as int),
        ensures
            final(self).wf(),
            old(self).same_layout(*final(self)),
            forall|a: int|
                #[trigger] final(self).is_free(a) <==> (old(self).is_free(a) || a == frame),
    {
        let ghost (wr, wo) = choose|r: int, o: int|
            old(self).slot_valid(r, o) && frame as int == #[trigger] old(self).slot_addr(r, o);
        let num = self.regions.len();
        let mut r: usize = 0;
        while r < num
            invariant
                *self == *old(self),
                old(self).wf(),
                num == old(self).num_regions(),
                0 <= r <= num,
                old(self).slot_valid(wr, wo),
                frame as int == old(self).slot_addr(wr, wo),
                forall|r2: int, o: int|
                    0 <= r2 < r && 0 <= o < old(self).regions_spec()[r2].pages() ==> #[trigger] old(
                        self,
                    ).slot_addr(r2, o) != frame as int,
            decreases num - r,
        {
            let tr_start = self.regions[r].start;
            let tr_len = self.regions[r].used.len();
            proof {
                assert(old(self).regions_spec()[r as int].wf());
                vstd::arithmetic::div_mod::lemma_fundamental_div_mod(
                    (frame - tr_start) as int,
                    PAGE_SIZE as int,
                );
                vstd::arithmetic::div_mod::lemma_mod_bound(
                    (frame - tr_start) as int,
                    PAGE_SIZE as int,
                );
            }
            if frame >= tr_start && (frame - tr_start) / PAGE_SIZE < tr_len as u64 {
                let off_w = (frame - tr_start) / PAGE_SIZE;
                let off = off_w as usize;
                proof {
                    // The found region must be the witness region: regions are
                    // pairwise disjoint, and the frame lies in both.
                    if wr != r as int {
                        if wr < r as int {
                            assert(old(self).regions_spec()[wr].end() <= old(
                                self,
                            ).regions_spec()[r as int].start_spec());
                        } else {
                            assert(old(self).regions_spec()[r as int].end() <= old(
                                self,
                            ).regions_spec()[wr].start_spec());
                        }
                        assert(false);
                    }
                    vstd::arithmetic::div_mod::lemma_fundamental_div_mod_converse_div(
                        (frame - tr_start) as int,
                        PAGE_SIZE as int,
                        wo,
                        0,
                    );
                    assert(off == wo);
                }
                let ghost pre = *self;
                let tr = &mut self.regions[r];
                tr.clear(off);
                proof {
                    assert(pre.same_layout(*self));
                    pre.lemma_same_layout_slots(*self);
                    pre.lemma_same_layout_wf(*self);
                    assert forall|a: int|
                        #[trigger] self.is_free(a) <==> (pre.is_free(a) || a == frame) by {
                        if self.is_free(a) {
                            let (r2, o2) = choose|r2: int, o2: int|
                                self.slot_valid(r2, o2) && !self.regions_spec()[r2].flags()[o2]
                                    && a == #[trigger] self.slot_addr(r2, o2);
                            if r2 == r as int && o2 == wo {
                                assert(a == frame);
                            } else {
                                assert(!pre.regions_spec()[r2].flags()[o2]);
                                assert(pre.slot_valid(r2, o2) && a == pre.slot_addr(r2, o2));
                            }
                        }
                        if pre.is_free(a) {
                            let (r2, o2) = choose|r2: int, o2: int|
                                pre.slot_valid(r2, o2) && !pre.regions_spec()[r2].flags()[o2]
                                    && a == #[trigger] pre.slot_addr(r2, o2);
                            assert(!self.regions_spec()[r2].flags()[o2]);
                            assert(self.slot_valid(r2, o2) && a == self.slot_addr(r2, o2));
                        }
                        if a == frame {
                            assert(!self.regions_spec()[r as int].flags()[wo]);
                            assert(self.slot_valid(r as int, wo) && a == self.slot_addr(
                                r as int,
                                wo,
                            ));
                        }
                    }
                }
                return ;
            }
            proof {
                assert forall|o: int|
                    0 <= o < old(self).regions_spec()[r as int].pages() implies #[trigger] old(
                        self,
                    ).slot_addr(r as int, o) != frame as int by {
                    if old(self).slot_addr(r as int, o) == frame as int {
                        assert(frame >= tr_start);
                        assert((frame - tr_start) as int == o * PAGE_SIZE);
                        vstd::arithmetic::div_mod::lemma_fundamental_div_mod_converse_div(
                            (frame - tr_start) as int,
                            PAGE_SIZE as int,
                            o,
                            0,
                        );
                    }
                }
            }
            r += 1;
        }
        proof {
            assert(old(self).slot_addr(wr, wo) != frame as int);
            assert(false);
        }
    }
}

/// Whether every frame of the window of `n` frames at offset `o` is free.
fn window_free(tr: &TrackedRegion, o: usize, n: usize) -> (b: bool)
    requires
        o + n <= tr.flags().len(),
    ensures
        b <==> forall|k: int| o <= k < o + n ==> !tr.flags()[k],
{
    let _total = tr.used.len();
    let end = o + n;
    let mut k = o;
    while k < end
        invariant
            o <= k <= end,
            end == o + n,
            end <= tr.flags().len(),
            forall|j: int| o <= j < k ==> !tr.flags()[j],
        decreases end - k,
    {
        if tr.used[k] {
            return false;
        }
        k += 1;
    }
    true
}

/// First-fit scan of one region: the lowest offset of a window of `n`
/// consecutive free frames, if the region holds one.
fn find_run_in(tr: &TrackedRegion, n: u64) -> (res: Option<usize>)
    requires
        n > 0,
    ensures
        match res {
            Some(o) => o + n <= tr.flags().len() && (forall|k: int|
                o <= k < o + n ==> !tr.flags()[k]) && (forall|o2: int|
                0 <= o2 < o ==> #[trigger] tr.window_has_used(o2, n as int)),
            None => tr.no_run(n as int),
        },
{
    let len = tr.used.len();
    if n > len as u64 {
        return None;
    }
    let n_us = n as usize;
    let mut o: usize = 0;
    while o <= len - n_us
        invariant
            n_us == n,
            0 < n_us <= len,
            len == tr.flags().len(),
            0 <= o <= len,
            forall|o2: int| 0 <= o2 < o ==> #[trigger] tr.window_has_used(o2, n as int),
        decreases len - o,
    {
        if window_free(tr, o, n_us) {
            return Some(o);
        }
        proof {
            let k = choose|k: int| o <= k < o + n && tr.flags()[k];
            assert(tr.window_has_used(o as int, n as int));
        }
        o += 1;
    }
    None
}

} // verus!

verus! {

impl FrameRange {
    /// The frames of one run are mutually distinct: a run never hands the
    /// same physical frame out twice.
    pub proof fn lemma_frames_distinct(self)
        ensures
            forall|i: int, j: int|
                0 <= i < self.count && 0 <= j < self.count && i != j ==> #[trigger] self.frame(i)
                    != #[trigger] self.frame(j),
    {
    }
}

/// Same-layout is transitive.
pub proof fn lemma_same_layout_trans(a: FrameAllocator, b: FrameAllocator, c: FrameAllocator)
    requires
        a.same_layout(b),
        b.same_layout(c),
    ensures
        a.same_layout(c),
{
    assert forall|r: int|
        0 <= r < a.num_regions() implies (#[trigger] a.regions_spec()[r]).start_spec()
        == c.regions_spec()[r].start_spec() && a.regions_spec()[r].pages()
        == c.regions_spec()[r].pages() by {
        assert(a.regions_spec()[r].start_spec() == b.regions_spec()[r].start_spec());
        assert(b.regions_spec()[r].start_spec() == c.regions_spec()[r].start_spec());
        assert(a.regions_spec()[r].pages() == b.regions_spec()[r].pages());
        assert(b.regions_spec()[r].pages() == c.regions_spec()[r].pages());
    }
}

/// An allocator with a free run of `m` frames has a free run of any shorter
/// length: by `allocate`'s contract, once a request of `m` frames is served a
/// fresh request of `n <= m` frames cannot fail for lack of a fit.
pub proof fn lemma_free_run_monotone(a: FrameAllocator, m: int, n: int)
    requires
        a.has_free_run(m),
        0 <= n <= m,
    ensures
        a.has_free_run(n),
{
    let (r, o) = choose|r: int, o: int|
        a.region_valid(r) && 0 <= o && o + m <= a.regions_spec()[r].pages() && #[trigger] a.run_free(
            r,
            o,
            m,
        );
    assert forall|k: int| o <= k < o + n implies !(#[trigger] a.regions_spec()[r].flags()[k]) by {
        assert(o <= k < o + m);
    }
    assert(a.run_free(r, o, n));
    assert(o + n <= a.regions_spec()[r].pages());
}

/// A freshly initialized allocator serves any request that fits into a single
/// usable region: if entry `i` of the map is usable and holds at least `n`
/// pages, a free run of `n` frames exists, so `allocate(n)` succeeds and, by
/// its contract, returns `n` mutually distinct frames inside one tracked
/// (hence usable) region.
pub proof fn lemma_fresh_allocator_serves(a: FrameAllocator, m: Seq<Region>, i: int, n: int)
    requires
        forall|j: int|
            0 <= j < m.len() && (#[trigger] m[j]).is_usable() ==> a.has_free_run(m[j].pages as int),
        0 <= i < m.len(),
        m[i].is_usable(),
        0 <= n <= m[i].pages,
    ensures
        a.has_free_run(n),
{
    lemma_free_run_monotone(a, m[i].pages as int, n);
}

/// Allocate-then-deallocate round trip: after `allocate` returns a run and
/// every frame of the run is handed back through `deallocate`, the free set
/// is exactly what it was before the allocation, so any later request
/// succeeds or fails exactly as it would have before.
pub proof fn lemma_allocate_roundtrip(
    before: FrameAllocator,
    after: FrameAllocator,
    run: FrameRange,
    restored: FrameAllocator,
)
    requires
        forall|i: int| 0 <= i < run.count ==> before.is_free(#[trigger] run.frame(i)),
        forall|a: int| #[trigger] after.is_free(a) <==> (before.is_free(a) && !run.covers(a)),
        forall|a: int| #[trigger] restored.is_free(a) <==> (after.is_free(a) || run.covers(a)),
    ensures
        forall|a: int| #[trigger] restored.is_free(a) <==> before.is_free(a),
        restored.free_set() == before.free_set(),
{
    assert forall|a: int| #[trigger] restored.is_free(a) <==> before.is_free(a) by {
        if run.covers(a) {
            let i = choose|i: int| 0 <= i < run.count && a == #[trigger] run.frame(i);
            assert(before.is_free(run.frame(i)));
        }
    }
    assert(restored.free_set() =~= before.free_set());
}

/// A request for more contiguous pages than any tracked region holds can
/// never be served: there is no fitting window, so `allocate` reports
/// insufficient memory rather than a partial or out-of-range run.
pub proof fn lemma_oversized_request_fails(a: FrameAllocator, n: int)
    requires
        forall|r: int|
            0 <= r < a.num_regions() ==> (#[trigger] a.regions_spec()[r]).pages() < n,
    ensures
        !a.has_free_run(n),
{
    if a.has_free_run(n) {
        let (r, o) = choose|r: int, o: int|
            a.region_valid(r) && 0 <= o && o + n <= a.regions_spec()[r].pages()
                && #[trigger] a.run_free(r, o, n);
        assert(a.regions_spec()[r].pages() < n);
        assert(false);
    }
}

/// The map-level form: when every tracked region mirrors a usable map entry
/// and the request exceeds every usable entry's page count, the request has
/// no fit and `allocate` must fail with the insufficient-memory outcome.
pub proof fn lemma_request_exceeding_map_fails(a: FrameAllocator, m: Seq<Region>, n: int)
    requires
        forall|r: int| 0 <= r < a.num_regions() ==> #[trigger] a.region_from_entry(m, r),
        forall|i: int| 0 <= i < m.len() && (#[trigger] m[i]).is_usable() ==> m[i].pages < n,
    ensures
        !a.has_free_run(n),
{
    assert forall|r: int|
        0 <= r < a.num_regions() implies (#[trigger] a.regions_spec()[r]).pages() < n by {
        assert(a.region_from_entry(m, r));
        let i = choose|i: int|
            0 <= i < m.len() && (#[trigger] m[i]).is_usable() && a.regions_spec()[r].start_spec()
                == m[i].start && a.regions_spec()[r].pages() == m[i].pages;
        assert(m[i].pages < n);
    }
    lemma_oversized_request_fails(a, n);
}

/// Serialized allocations return disjoint runs: when a second request is
/// served from the state the first one left behind, no physical frame
/// belongs to both runs. Interleaved requests are serialized by the caller's
/// mutual-exclusion lock, so this is exactly the observable guarantee.
pub proof fn lemma_serialized_allocations_disjoint(
    s0: FrameAllocator,
    s1: FrameAllocator,
    run1: FrameRange,
    run2: FrameRange,
)
    requires
        forall|a: int| #[trigger] s1.is_free(a) <==> (s0.is_free(a) && !run1.covers(a)),
        forall|j: int| 0 <= j < run2.count ==> s1.is_free(#[trigger] run2.frame(j)),
    ensures
        forall|i: int, j: int|
            0 <= i < run1.count && 0 <= j < run2.count ==> #[trigger] run1.frame(i)
                != #[trigger] run2.frame(j),
{
    assert forall|i: int, j: int|
        0 <= i < run1.count && 0 <= j < run2.count implies #[trigger] run1.frame(i)
        != #[trigger] run2.frame(j) by {
        if run1.frame(i) == run2.frame(j) {
            assert(s1.is_free(run2.frame(j)));
            assert(run1.covers(run2.frame(j)));
            assert(false);
        }
    }
}

} // verus!
