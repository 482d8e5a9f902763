use boot_core::phys::{AllocError, FrameAllocator};
use boot_core::region::{Region, RegionKind, RegionMap, RegionMapError, PAGE_SIZE};

fn usable(start: u64, pages: u64) -> Region {
    Region { start, pages, kind: RegionKind::Usable }
}

fn reserved(start: u64, pages: u64) -> Region {
    Region { start, pages, kind: RegionKind::Reserved }
}

fn allocator_from(entries: Vec<Region>) -> FrameAllocator {
    let map = RegionMap::new(entries).expect("the region map must be accepted");
    let mut alloc = FrameAllocator::new();
    alloc.init(&map);
    alloc
}

#[test]
fn region_map_accepts_sorted_disjoint_entries() {
    let map = RegionMap::new(vec![
        usable(0x1000, 2),
        reserved(0x3000, 1),
        usable(0x10000, 4),
    ])
    .expect("well-formed entries");
    assert_eq!(map.len(), 3);
    assert_eq!(map.get(2).pages, 4);
}

#[test]
fn region_map_rejects_empty_region() {
    let r = RegionMap::new(vec![usable(0x1000, 0)]);
    assert_eq!(r.err(), Some(RegionMapError::Malformed));
}

#[test]
fn region_map_rejects_misaligned_region() {
    let r = RegionMap::new(vec![usable(0x1001, 1)]);
    assert_eq!(r.err(), Some(RegionMapError::Malformed));
}

#[test]
fn region_map_rejects_overlapping_regions() {
    let r = RegionMap::new(vec![usable(0x1000, 4), usable(0x2000, 1)]);
    assert_eq!(r.err(), Some(RegionMapError::Malformed));
}

#[test]
fn region_map_rejects_unsorted_regions() {
    let r = RegionMap::new(vec![usable(0x8000, 1), usable(0x1000, 1)]);
    assert_eq!(r.err(), Some(RegionMapError::Malformed));
}

#[test]
fn region_map_rejects_too_many_entries() {
    let mut entries = Vec::new();
    for i in 0..257u64 {
        entries.push(usable(i * PAGE_SIZE, 1));
    }
    let r = RegionMap::new(entries);
    assert_eq!(r.err(), Some(RegionMapError::CapacityExceeded));
}

#[test]
fn allocation_fits_in_usable_region() {
    let mut alloc = allocator_from(vec![
        reserved(0, 16),
        usable(0x100000, 8),
    ]);
    let run = alloc.allocate(8).expect("eight frames fit");
    assert_eq!(run.count, 8);
    assert_eq!(run.start % PAGE_SIZE, 0);
    // every frame lies inside the single usable region
    assert!(run.start >= 0x100000);
    assert!(run.start + run.count * PAGE_SIZE <= 0x100000 + 8 * PAGE_SIZE);
}

#[test]
fn allocate_zero_frames_succeeds_trivially() {
    let mut alloc = allocator_from(vec![usable(0x1000, 1)]);
    let run = alloc.allocate(0).expect("a zero-frame request must succeed");
    assert_eq!(run.count, 0);
    // and the allocator still serves its single page afterwards
    let run = alloc.allocate(1).expect("the page is still free");
    assert_eq!(run.count, 1);
}

#[test]
fn allocate_zero_frames_on_empty_allocator() {
    let mut alloc = FrameAllocator::new();
    let run = alloc.allocate(0).expect("a zero-frame request must succeed");
    assert_eq!(run.count, 0);
}

#[test]
fn oversized_request_reports_insufficient_memory() {
    // Two usable regions of two pages each: four pages in total, but no
    // single region holds three contiguous pages.
    let mut alloc = allocator_from(vec![
        usable(0x1000, 2),
        usable(0x10000, 2),
    ]);
    let r = alloc.allocate(3);
    assert_eq!(r.err(), Some(AllocError::InsufficientMemory));
    // the failed request consumed nothing
    let a = alloc.allocate(2).expect("two pages still fit");
    let b = alloc.allocate(2).expect("the other two pages still fit");
    assert_eq!(a.count, 2);
    assert_eq!(b.count, 2);
}

#[test]
fn allocate_then_deallocate_restores_capability() {
    let mut alloc = allocator_from(vec![usable(0x4000, 4)]);
    let run = alloc.allocate(3).expect("three of four pages fit");
    assert_eq!(run.count, 3);
    for i in 0..run.count {
        alloc.deallocate(run.start + i * PAGE_SIZE);
    }
    // the allocator serves the whole region again, as before the allocation
    let all = alloc.allocate(4).expect("all four pages are free again");
    assert_eq!(all.start, 0x4000);
    assert_eq!(all.count, 4);
}

#[test]
fn serialized_allocations_are_disjoint() {
    let mut alloc = allocator_from(vec![usable(0x8000, 6)]);
    let first = alloc.allocate(2).expect("first request fits");
    let second = alloc.allocate(2).expect("second request fits");
    for i in 0..first.count {
        for j in 0..second.count {
            assert_ne!(
                first.start + i * PAGE_SIZE,
                second.start + j * PAGE_SIZE,
                "the two runs must not share a frame"
            );
        }
    }
}

#[test]
fn allocate_single_page_and_dealloc() {
    let mut alloc = allocator_from(vec![usable(0x2000, 2)]);
    let p = alloc.allocate(1);
    let p = p.expect("Failed to allocate a page.");
    alloc.deallocate(p.start);
    // the page can be served again
    let q = alloc.allocate(1).expect("the page is free again");
    assert_eq!(q.start, p.start);
}

#[test]
fn reinit_replaces_state() {
    let mut alloc = allocator_from(vec![usable(0x1000, 1)]);
    let _ = alloc.allocate(1).expect("the page fits");
    assert_eq!(alloc.allocate(1).err(), Some(AllocError::InsufficientMemory));
    // re-initialization replaces the bookkeeping entirely
    let map = RegionMap::new(vec![usable(0x1000, 1)]).expect("valid map");
    alloc.init(&map);
    let r = alloc.allocate(1).expect("fresh state serves the page again");
    assert_eq!(r.start, 0x1000);
}

#[test]
fn double_deallocate_documents_default_behavior() {
    // Double-freeing is caller misuse the allocator is not required to
    // detect; today the second return of the same frame is a no-op.
    let mut alloc = allocator_from(vec![usable(0x6000, 2)]);
    let p = alloc.allocate(1).expect("the page fits");
    alloc.deallocate(p.start);
    alloc.deallocate(p.start);
    let q = alloc.allocate(2).expect("both pages are free");
    assert_eq!(q.start, 0x6000);
    assert_eq!(q.count, 2);
}
