//! The region map: a firmware-supplied, ordered snapshot of physical memory
//! ranges and their usability, captured when the firmware runtime is torn down.

use vstd::prelude::*;

verus! {

/// Size in bytes of one physical page frame.
pub const PAGE_SIZE: u64 = 4096;

/// Fixed capacity of the frame allocator's tracking structure: the largest
/// number of region-map entries that can be accepted at initialization.
pub const MAX_TRACKED_REGIONS: usize = 256;

/// Number of page frames in the full 64-bit physical address space.
pub const MAX_FRAME_NUMBER: u64 = 0x10_0000_0000_0000;

/// For a page-aligned address, division by the page size is exact, so bounds
/// on byte addresses and bounds on page numbers determine each other.
pub proof fn lemma_page_arithmetic(start: u64, pages: u64)
    requires
        start % PAGE_SIZE == 0,
    ensures
        start == PAGE_SIZE * (start / PAGE_SIZE),
{
    vstd::arithmetic::div_mod::lemma_fundamental_div_mod(start as int, PAGE_SIZE as int);
}

/// Usability classification of one physical memory range, as reported by the
/// firmware at the instant its boot services were exited.
#[derive(Clone, Copy, PartialEq, Eq, Structural, Debug)]
pub enum RegionKind {
    /// Free conventional memory; the frame allocator may serve frames from it.
    Usable,
    /// Memory holding the loader's own code and data.
    LoaderOwned,
    /// Memory the firmware or hardware reserves; never allocated from.
    Reserved,
}

/// One physical memory range of the region map.
#[derive(Clone, Copy, PartialEq, Eq, Structural, Debug)]
pub struct Region {
    /// Physical address of the first byte; page aligned.
    pub start: u64,
    /// Number of whole page frames in the range; never zero.
    pub pages: u64,
    /// Usability classification.
    pub kind: RegionKind,
}

impl Region {
    /// Physical address one past the last byte of the range.
    pub open spec fn end(self) -> int {
        self.start + self.pages * PAGE_SIZE
    }

    /// A well-formed range is page aligned, non-empty, and lies within the
    /// physical address space.
    pub open spec fn wf(self) -> bool {
        &&& self.pages > 0
        &&& self.start % PAGE_SIZE == 0
        &&& self.end() <= 0x1_0000_0000_0000_0000
    }

    /// Whether the range may be allocated from.
    pub open spec fn is_usable(self) -> bool {
        self.kind is Usable
    }
}

/// A sequence of regions is well formed when every entry is well formed and
/// the entries are sorted by address without overlap.
pub open spec fn regions_wf(s: Seq<Region>) -> bool {
    &&& forall|i: int| 0 <= i < s.len() ==> #[trigger] s[i].wf()
    &&& forall|i: int| 0 <= i < s.len() - 1 ==> #[trigger] s[i].end() <= s[i + 1].start
}

/// Sortedness of adjacent entries extends to every pair of entries.
pub proof fn lemma_regions_sorted_pairwise(s: Seq<Region>)
    requires
        regions_wf(s),
    ensures
        forall|i: int, j: int| 0 <= i < j < s.len() ==> #[trigger] s[i].end() <= #[trigger] s[j].start,
    decreases s.len(),
{
    if s.len() > 1 {
        lemma_regions_sorted_pairwise(s.drop_last());
        assert forall|i: int, j: int| 0 <= i < j < s.len() implies #[trigger] s[i].end()
            <= #[trigger] s[j].start by {
            if j < s.len() - 1 {
                assert(s.drop_last()[i] == s[i]);
                assert(s.drop_last()[j] == s[j]);
            } else {
                if i < j - 1 {
                    assert(s.drop_last()[i] == s[i]);
                    assert(s.drop_last()[j - 1] == s[j - 1]);
                    assert(s[i].end() <= s[j - 1].start);
                    assert(s[j - 1].start <= s[j - 1].end());
                }
                assert(s[j - 1].end() <= s[j].start);
            }
        }
    }
}

/// Why a proposed region map was rejected.
#[derive(Clone, Copy, PartialEq, Eq, Structural, Debug)]
pub enum RegionMapError {
    /// More entries than the allocator's fixed tracking capacity.
    CapacityExceeded,
    /// An entry is empty, misaligned, out of address-space bounds, or the
    /// entries are not sorted and disjoint.
    Malformed,
}

/// The full memory-layout snapshot handed from the firmware-exit step to the
/// loader and later to the kernel. Immutable once constructed.
pub struct RegionMap {
    entries: Vec<Region>,
}

impl View for RegionMap {
    type V = Seq<Region>;

    closed spec fn view(&self) -> Seq<Region> {
        self.entries@
    }
}

impl RegionMap {
    /// A region map is well formed when its entries are and their number is
    /// within the allocator's fixed tracking capacity.
    pub open spec fn wf(self) -> bool {
        &&& regions_wf(self@)
        &&& self@.len() <= MAX_TRACKED_REGIONS
    }

    /// Validates a firmware-reported sequence of regions. Succeeds exactly on
    /// well-formed input within capacity; the capacity error takes precedence.
    pub fn new(entries: Vec<Region>) -> (r: Result<RegionMap, RegionMapError>)
        ensures
            match r {
                Ok(m) => m@ == entries@ && m.wf(),
                Err(RegionMapError::CapacityExceeded) => entries@.len() > MAX_TRACKED_REGIONS,
                Err(RegionMapError::Malformed) => entries@.len() <= MAX_TRACKED_REGIONS
                    && !regions_wf(entries@),
            },
    {
        if entries.len() > MAX_TRACKED_REGIONS {
            return Err(RegionMapError::CapacityExceeded);
        }
        let n = entries.len();
        let mut i: usize = 0;
        while i < n
            invariant
                n == entries@.len(),
                n <= MAX_TRACKED_REGIONS,
                0 <= i <= n,
                forall|k: int| 0 <= k < i ==> #[trigger] entries@[k].wf(),
                forall|k: int| 0 <= k < i - 1 ==> #[trigger] entries@[k].end() <= entries@[k
                    + 1].start,
            decreases n - i,
        {
            let e = entries[i];
            if e.pages == 0 || e.start % PAGE_SIZE != 0 {
                proof {
                    assert(!entries@[i as int].wf());
                }
                return Err(RegionMapError::Malformed);
            }
            proof {
                lemma_page_arithmetic(e.start, e.pages);
            }
            // The whole range must fit in the 64-bit physical address space:
            // in page units, start / PAGE_SIZE + pages must not exceed 2^52.
            if e.pages > MAX_FRAME_NUMBER - e.start / PAGE_SIZE {
                proof {
                    assert(!entries@[i as int].wf());
                }
                return Err(RegionMapError::Malformed);
            }
            proof {
                assert(entries@[i as int].wf());
            }
            if i > 0 {
                let prev = entries[i - 1];
                proof {
                    assert(entries@[i - 1].wf());
                    lemma_page_arithmetic(prev.start, prev.pages);
                }
                if prev.start / PAGE_SIZE + prev.pages > e.start / PAGE_SIZE {
                    proof {
                        assert(!(entries@[i - 1].end() <= entries@[i as int].start));
                    }
                    return Err(RegionMapError::Malformed);
                }
            }
            i += 1;
        }
        Ok(RegionMap { entries })
    }

    /// Number of entries.
    pub fn len(&self) -> (r: usize)
        ensures
            r == self@.len(),
    {
        self.entries.len()
    }

    /// The entry at a position.
    pub fn get(&self, i: usize) -> (r: Region)
        requires
            i < self@.len(),
        ensures
            r == self@[i as int],
    {
        self.entries[i]
    }
}

} // verus!
