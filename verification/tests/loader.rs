use boot_core::elf::{load, LoadError};
use boot_core::phys::FrameAllocator;
use boot_core::region::{Region, RegionKind, RegionMap, PAGE_SIZE};

struct SegSpec {
    ptype: u32,
    vaddr: u64,
    filebytes: Vec<u8>,
    memsz: u64,
}

/// Builds a minimal ELF64 little-endian x86-64 executable image: header,
/// program header table, then the segment bytes packed in order.
fn build_elf(entry: u64, segs: &[SegSpec]) -> Vec<u8> {
    let phnum = segs.len() as u16;
    let phoff: u64 = 64;
    let mut data_off = 64 + 56 * segs.len() as u64;
    let mut offsets = Vec::new();
    for s in segs {
        offsets.push(data_off);
        data_off += s.filebytes.len() as u64;
    }

    let mut v = Vec::new();
    v.extend_from_slice(&[0x7f, 0x45, 0x4c, 0x46, 2, 1, 1, 0]);
    v.extend_from_slice(&[0u8; 8]);
    v.extend_from_slice(&2u16.to_le_bytes()); // executable
    v.extend_from_slice(&0x3eu16.to_le_bytes()); // x86-64
    v.extend_from_slice(&1u32.to_le_bytes()); // version
    v.extend_from_slice(&entry.to_le_bytes());
    v.extend_from_slice(&phoff.to_le_bytes());
    v.extend_from_slice(&0u64.to_le_bytes()); // no section headers
    v.extend_from_slice(&0u32.to_le_bytes()); // flags
    v.extend_from_slice(&64u16.to_le_bytes()); // header size
    v.extend_from_slice(&56u16.to_le_bytes()); // phentsize
    v.extend_from_slice(&phnum.to_le_bytes());
    v.extend_from_slice(&0u16.to_le_bytes()); // shentsize
    v.extend_from_slice(&0u16.to_le_bytes()); // shnum
    v.extend_from_slice(&0u16.to_le_bytes()); // shstrndx
    assert_eq!(v.len(), 64);

    for (k, s) in segs.iter().enumerate() {
        v.extend_from_slice(&s.ptype.to_le_bytes());
        v.extend_from_slice(&5u32.to_le_bytes()); // flags: r-x
        v.extend_from_slice(&offsets[k].to_le_bytes());
        v.extend_from_slice(&s.vaddr.to_le_bytes());
        v.extend_from_slice(&s.vaddr.to_le_bytes()); // paddr
        v.extend_from_slice(&(s.filebytes.len() as u64).to_le_bytes());
        v.extend_from_slice(&s.memsz.to_le_bytes());
        v.extend_from_slice(&PAGE_SIZE.to_le_bytes()); // align
    }
    for s in segs {
        v.extend_from_slice(&s.filebytes);
    }
    v
}

fn fresh_allocator(pages: u64) -> FrameAllocator {
    let map = RegionMap::new(vec![Region {
        start: 0x100000,
        pages,
        kind: RegionKind::Usable,
    }])
    .expect("valid map");
    let mut alloc = FrameAllocator::new();
    alloc.init(&map);
    alloc
}

#[test]
fn two_segment_image_loads_with_zero_fill() {
    let filebytes: Vec<u8> = vec![1, 2, 3, 4, 5, 6, 7, 8];
    let image = build_elf(
        0x20_0000,
        &[
            SegSpec { ptype: 1, vaddr: 0x20_0000, filebytes: filebytes.clone(), memsz: 16 },
            SegSpec { ptype: 1, vaddr: 0x30_0000, filebytes: Vec::new(), memsz: 32 },
        ],
    );
    let mut alloc = fresh_allocator(16);
    let img = load(&image, &mut alloc).expect("a well-formed image must load");
    assert_eq!(img.entry, 0x20_0000);
    assert_eq!(img.segments.len(), 2);

    let first = &img.segments[0];
    assert_eq!(first.vaddr, 0x20_0000);
    assert_eq!(first.content.len(), 16);
    assert_eq!(&first.content[..8], &filebytes[..]);
    // the tail past the file size is zero-filled
    assert_eq!(&first.content[8..], &[0u8; 8]);
    assert_eq!(first.frames.count, 1);

    let second = &img.segments[1];
    assert_eq!(second.vaddr, 0x30_0000);
    assert_eq!(second.content, vec![0u8; 32]);
    assert_eq!(second.frames.count, 1);

    // the two segments hold distinct frames
    assert_ne!(first.frames.start, second.frames.start);
}

#[test]
fn null_entry_fails_the_load() {
    let image = build_elf(
        0,
        &[SegSpec { ptype: 1, vaddr: 0x20_0000, filebytes: vec![1], memsz: 1 }],
    );
    let mut alloc = fresh_allocator(4);
    assert_eq!(load(&image, &mut alloc).err(), Some(LoadError::NullEntry));
}

#[test]
fn bad_magic_fails_the_load() {
    let mut image = build_elf(
        0x1000,
        &[SegSpec { ptype: 1, vaddr: 0x20_0000, filebytes: vec![1], memsz: 1 }],
    );
    image[0] = 0x7e;
    let mut alloc = fresh_allocator(4);
    assert_eq!(load(&image, &mut alloc).err(), Some(LoadError::BadHeader));
}

#[test]
fn truncated_image_fails_the_load() {
    let image = vec![0x7f, 0x45, 0x4c, 0x46];
    let mut alloc = fresh_allocator(4);
    assert_eq!(load(&image, &mut alloc).err(), Some(LoadError::BadHeader));
}

#[test]
fn memory_size_below_file_size_fails_the_load() {
    let image = build_elf(
        0x1000,
        &[SegSpec { ptype: 1, vaddr: 0x20_0000, filebytes: vec![1, 2, 3, 4], memsz: 2 }],
    );
    let mut alloc = fresh_allocator(4);
    assert_eq!(load(&image, &mut alloc).err(), Some(LoadError::BadSegment));
}

#[test]
fn overlapping_segments_fail_the_load() {
    let image = build_elf(
        0x1000,
        &[
            SegSpec { ptype: 1, vaddr: 0x20_0000, filebytes: vec![1], memsz: 0x100 },
            SegSpec { ptype: 1, vaddr: 0x20_0080, filebytes: vec![2], memsz: 0x100 },
        ],
    );
    let mut alloc = fresh_allocator(8);
    assert_eq!(load(&image, &mut alloc).err(), Some(LoadError::OverlappingSegments));
}

#[test]
fn dynamic_segment_is_unsupported() {
    let image = build_elf(
        0x1000,
        &[SegSpec { ptype: 2, vaddr: 0x20_0000, filebytes: Vec::new(), memsz: 0 }],
    );
    let mut alloc = fresh_allocator(4);
    assert_eq!(load(&image, &mut alloc).err(), Some(LoadError::UnsupportedSegment));
}

#[test]
fn out_of_bounds_program_headers_fail_the_load() {
    let mut image = build_elf(
        0x1000,
        &[SegSpec { ptype: 1, vaddr: 0x20_0000, filebytes: vec![1], memsz: 1 }],
    );
    // claim far more program headers than the file holds
    image[56] = 0xff;
    image[57] = 0x00;
    let mut alloc = fresh_allocator(4);
    assert_eq!(load(&image, &mut alloc).err(), Some(LoadError::BadProgramHeaders));
}

#[test]
fn non_load_segments_are_skipped() {
    let image = build_elf(
        0x40_0000,
        &[
            SegSpec { ptype: 4, vaddr: 0, filebytes: vec![9, 9], memsz: 2 }, // a note
            SegSpec { ptype: 1, vaddr: 0x40_0000, filebytes: vec![7], memsz: 1 },
        ],
    );
    let mut alloc = fresh_allocator(4);
    let img = load(&image, &mut alloc).expect("the note segment is ignored");
    assert_eq!(img.segments.len(), 1);
    assert_eq!(img.segments[0].content, vec![7]);
}

#[test]
fn allocation_exhaustion_is_reported() {
    // one usable page only, but the segment needs three
    let image = build_elf(
        0x1000,
        &[SegSpec {
            ptype: 1,
            vaddr: 0x20_0000,
            filebytes: vec![1],
            memsz: 3 * PAGE_SIZE,
        }],
    );
    let mut alloc = fresh_allocator(1);
    assert_eq!(load(&image, &mut alloc).err(), Some(LoadError::InsufficientMemory));
}

#[test]
fn thirty_two_bit_class_fails_the_load() {
    let mut image = build_elf(
        0x1000,
        &[SegSpec { ptype: 1, vaddr: 0x20_0000, filebytes: vec![1], memsz: 1 }],
    );
    image[4] = 1; // 32-bit class
    let mut alloc = fresh_allocator(4);
    assert_eq!(load(&image, &mut alloc).err(), Some(LoadError::BadHeader));
}

#[test]
fn wrong_machine_fails_the_load() {
    let mut image = build_elf(
        0x1000,
        &[SegSpec { ptype: 1, vaddr: 0x20_0000, filebytes: vec![1], memsz: 1 }],
    );
    image[18] = 0x28; // not x86-64
    let mut alloc = fresh_allocator(4);
    assert_eq!(load(&image, &mut alloc).err(), Some(LoadError::BadHeader));
}

#[test]
fn relocatable_type_fails_the_load() {
    let mut image = build_elf(
        0x1000,
        &[SegSpec { ptype: 1, vaddr: 0x20_0000, filebytes: vec![1], memsz: 1 }],
    );
    image[16] = 1; // relocatable, not executable
    let mut alloc = fresh_allocator(4);
    assert_eq!(load(&image, &mut alloc).err(), Some(LoadError::BadHeader));
}
