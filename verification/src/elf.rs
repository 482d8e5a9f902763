//! The kernel binary loader: parses a 64-bit ELF image, allocates physical
//! frames for each loadable segment, and produces the bytes that belong in
//! those frames together with the image's validated entry address.

use vstd::prelude::*;
use crate::phys::{FrameAllocator, FrameRange};
use crate::region::PAGE_SIZE;

verus! {

/// Little-endian 16-bit value at `off`.
pub open spec fn u16_le(b: Seq<u8>, off: int) -> int {
    b[off] + 0x100 * b[off + 1]
}

/// Little-endian 32-bit value at `off`.
pub open spec fn u32_le(b: Seq<u8>, off: int) -> int {
    u16_le(b, off) + 0x10000 * u16_le(b, off + 2)
}

/// Little-endian 64-bit value at `off`.
pub open spec fn u64_le(b: Seq<u8>, off: int) -> int {
    u32_le(b, off) + 0x1_0000_0000 * u32_le(b, off + 4)
}

/// The fixed size of an ELF64 file header.
pub const ELF_HEADER_LEN: usize = 64;

/// The fixed size of one ELF64 program header entry.
pub const PHDR_LEN: usize = 56;

/// A valid header: the magic, 64-bit little-endian class, executable type,
/// x86-64 machine, and the standard program-header entry size.
pub open spec fn header_ok(b: Seq<u8>) -> bool {
    &&& b.len() >= ELF_HEADER_LEN
    &&& b[0] == 0x7f
    &&& b[1] == 0x45
    &&& b[2] == 0x4c
    &&& b[3] == 0x46
    &&& b[4] == 2
    &&& b[5] == 1
    &&& u16_le(b, 16) == 2
    &&& u16_le(b, 18) == 0x3e
    &&& u16_le(b, 54) == PHDR_LEN
}

/// The image's declared entry address.
pub open spec fn entry_of(b: Seq<u8>) -> int {
    u64_le(b, 24)
}

/// File offset of the program header table.
pub open spec fn phoff_of(b: Seq<u8>) -> int {
    u64_le(b, 32)
}

/// Number of program headers.
pub open spec fn phnum_of(b: Seq<u8>) -> int {
    u16_le(b, 56)
}

/// The program header table lies within the file.
pub open spec fn phdrs_ok(b: Seq<u8>) -> bool {
    phoff_of(b) + phnum_of(b) * PHDR_LEN <= b.len()
}

/// File offset of program header `i`.
pub open spec fn ph_off(b: Seq<u8>, i: int) -> int {
    phoff_of(b) + PHDR_LEN * i
}

/// The type field of program header `i`.
pub open spec fn seg_type(b: Seq<u8>, i: int) -> int {
    u32_le(b, ph_off(b, i))
}

/// Whether program header `i` is a loadable segment.
pub open spec fn is_load(b: Seq<u8>, i: int) -> bool {
    seg_type(b, i) == 1
}

/// File offset of segment `i`'s bytes.
pub open spec fn seg_offset(b: Seq<u8>, i: int) -> int {
    u64_le(b, ph_off(b, i) + 8)
}

/// Virtual address segment `i` is to be loaded at.
pub open spec fn seg_vaddr(b: Seq<u8>, i: int) -> int {
    u64_le(b, ph_off(b, i) + 16)
}

/// Number of segment bytes present in the file.
pub open spec fn seg_filesz(b: Seq<u8>, i: int) -> int {
    u64_le(b, ph_off(b, i) + 32)
}

/// Size of the segment in memory; the tail past the file size is zero-filled.
pub open spec fn seg_memsz(b: Seq<u8>, i: int) -> int {
    u64_le(b, ph_off(b, i) + 40)
}

/// Number of page frames needed to hold `sz` bytes.
pub open spec fn pages_for(sz: int) -> int {
    sz / (PAGE_SIZE as int) + if sz % (PAGE_SIZE as int) == 0 {
        0int
    } else {
        1int
    }
}

/// Frames needed by segment `i`.
pub open spec fn seg_pages(b: Seq<u8>, i: int) -> int {
    pages_for(seg_memsz(b, i))
}

/// A loadable segment that the loader can accept: its in-memory size covers
/// its file size, its file bytes lie within the image, its memory range fits
/// the address space, and its in-memory size fits the machine word.
pub open spec fn seg_ok(b: Seq<u8>, i: int) -> bool {
    &&& seg_filesz(b, i) <= seg_memsz(b, i)
    &&& seg_offset(b, i) + seg_filesz(b, i) <= b.len()
    &&& seg_vaddr(b, i) + seg_memsz(b, i) <= 0x1_0000_0000_0000_0000
    &&& seg_memsz(b, i) <= usize::MAX
}

/// The memory ranges of loadable segments `i` and `j` do not overlap (an
/// empty segment overlaps nothing).
pub open spec fn loads_disjoint(b: Seq<u8>, i: int, j: int) -> bool {
    ||| seg_memsz(b, i) == 0
    ||| seg_memsz(b, j) == 0
    ||| seg_vaddr(b, i) + seg_memsz(b, i) <= seg_vaddr(b, j)
    ||| seg_vaddr(b, j) + seg_memsz(b, j) <= seg_vaddr(b, i)
}

/// A well-formed loadable image: valid header, non-null entry, program
/// headers in bounds, no segment needing unimplemented relocation, every
/// loadable segment acceptable and the loadable segments pairwise disjoint.
pub open spec fn image_ok(b: Seq<u8>) -> bool {
    &&& header_ok(b)
    &&& entry_of(b) != 0
    &&& phdrs_ok(b)
    &&& forall|i: int| 0 <= i < phnum_of(b) ==> #[trigger] seg_type(b, i) != 2
    &&& forall|i: int| 0 <= i < phnum_of(b) && is_load(b, i) ==> #[trigger] seg_ok(b, i)
    &&& forall|i: int, j: int|
        0 <= i < j < phnum_of(b) && is_load(b, i) && is_load(b, j)
            ==> #[trigger] loads_disjoint(b, i, j)
}

/// Why a load attempt failed. All variants but the insufficient-memory one
/// are format errors; every failure is fatal to the boot.
#[derive(Clone, Copy, PartialEq, Eq, Structural, Debug)]
pub enum LoadError {
    /// The file header is not a 64-bit little-endian x86-64 executable.
    BadHeader,
    /// The declared entry address is null; control must never go there.
    NullEntry,
    /// The program header table lies outside the file.
    BadProgramHeaders,
    /// A segment type that would need unimplemented relocation handling.
    UnsupportedSegment,
    /// A loadable segment with inconsistent sizes or out-of-bounds bytes.
    BadSegment,
    /// Two loadable segments claim overlapping memory.
    OverlappingSegments,
    /// The frame allocator holds no fitting run for a segment.
    InsufficientMemory,
}

/// One loadable segment, ready to be copied into physical memory: the frames
/// that were allocated for it and the exact bytes that belong there (file
/// bytes, then zero fill up to the in-memory size).
pub struct LoadedSegment {
    /// Virtual address the segment expects to live at.
    pub vaddr: u64,
    /// The physical frames allocated for the segment.
    pub frames: FrameRange,
    /// The segment's in-memory bytes: file-backed bytes then zeroes.
    pub content: Vec<u8>,
}

/// The outcome of a successful load: the validated entry address and every
/// loadable segment with its frames and bytes.
pub struct LoadedImage {
    /// The image's declared, non-null entry address.
    pub entry: u64,
    /// The loadable segments in program-header order.
    pub segments: Vec<LoadedSegment>,
}

/// Loaded segment `s` realizes program header `i` of image `b`: same
/// address, contents equal to the file bytes then zeroes, and enough frames,
/// each of which was free in the allocator state `alloc0`.
pub open spec fn segment_matches(b: Seq<u8>, i: int, s: LoadedSegment, alloc0: FrameAllocator) -> bool {
    &&& s.vaddr == seg_vaddr(b, i)
    &&& s.content@.len() == seg_memsz(b, i)
    &&& forall|t: int| 0 <= t < seg_filesz(b, i) ==> s.content@[t] == b[seg_offset(b, i) + t]
    &&& forall|t: int| seg_filesz(b, i) <= t < seg_memsz(b, i) ==> s.content@[t] == 0
    &&& s.frames.count == seg_pages(b, i)
    &&& forall|f: int| 0 <= f < s.frames.count ==> alloc0.is_free(#[trigger] s.frames.frame(f))
}

/// Physical address `a` belongs to the frame run of one of the segments.
pub open spec fn seg_frames_cover(segs: Seq<LoadedSegment>, a: int) -> bool {
    exists|k: int, f: int|
        0 <= k < segs.len() && 0 <= f < segs[k].frames.count && a == #[trigger] segs[k].frames.frame(
            f,
        )
}

/// `idxs` lists exactly the loadable program headers of `b`, in order.
pub open spec fn load_indices(b: Seq<u8>, idxs: Seq<int>) -> bool {
    &&& forall|k: int|
        0 <= k < idxs.len() ==> 0 <= #[trigger] idxs[k] < phnum_of(b) && is_load(b, idxs[k])
    &&& forall|k1: int, k2: int| 0 <= k1 < k2 < idxs.len() ==> idxs[k1] < idxs[k2]
    &&& forall|i: int| 0 <= i < phnum_of(b) && #[trigger] is_load(b, i) ==> idxs.contains(i)
}

/// The built segments realize the loadable program headers listed by `idxs`,
/// one each in order, with mutually disjoint frame runs.
pub open spec fn segments_built(
    b: Seq<u8>,
    idxs: Seq<int>,
    segs: Seq<LoadedSegment>,
    alloc0: FrameAllocator,
) -> bool {
    &&& segs.len() == idxs.len()
    &&& forall|k: int| 0 <= k < segs.len() ==> segment_matches(b, #[trigger] idxs[k], segs[k], alloc0)
    &&& forall|k1: int, k2: int, f1: int, f2: int|
        0 <= k1 < k2 < segs.len() && 0 <= f1 < segs[k1].frames.count && 0 <= f2
            < segs[k2].frames.count ==> #[trigger] segs[k1].frames.frame(f1)
            != #[trigger] segs[k2].frames.frame(f2)
}

/// Little-endian read of two bytes.
fn read_u16(b: &Vec<u8>, off: usize) -> (r: u16)
    requires
        off + 2 <= b@.len(),
    ensures
        r == u16_le(b@, off as int),
{
    let _total = b.len();
    (b[off] as u16) + 0x100 * (b[off + 1] as u16)
}

/// Little-endian read of four bytes.
fn read_u32(b: &Vec<u8>, off: usize) -> (r: u32)
    requires
        off + 4 <= b@.len(),
    ensures
        r == u32_le(b@, off as int),
{
    let _total = b.len();
    (read_u16(b, off) as u32) + 0x10000 * (read_u16(b, off + 2) as u32)
}

/// Little-endian read of eight bytes.
fn read_u64(b: &Vec<u8>, off: usize) -> (r: u64)
    requires
        off + 8 <= b@.len(),
    ensures
        r == u64_le(b@, off as int),
{
    let _total = b.len();
    (read_u32(b, off) as u64) + 0x1_0000_0000 * (read_u32(b, off + 4) as u64)
}

/// The in-memory bytes of one segment: `filesz` bytes copied from the image
/// at `off`, then zeroes up to `memsz`.
fn build_content(binary: &Vec<u8>, off: usize, filesz: usize, memsz: usize) -> (v: Vec<u8>)
    requires
        off + filesz <= binary@.len(),
        filesz <= memsz,
    ensures
        v@.len() == memsz,
        forall|t: int| 0 <= t < filesz ==> v@[t] == binary@[off + t],
        forall|t: int| filesz <= t < memsz ==> v@[t] == 0,
{
    let _total = binary.len();
    let mut v: Vec<u8> = Vec::new();
    let mut t: usize = 0;
    while t < filesz
        invariant
            t <= filesz,
            off + filesz <= binary@.len(),
            binary@.len() <= usize::MAX,
            v@.len() == t,
            forall|u: int| 0 <= u < t ==> v@[u] == binary@[off + u],
        decreases filesz - t,
    {
        v.push(binary[off + t]);
        t += 1;
    }
    while t < memsz
        invariant
            filesz <= t <= memsz,
            v@.len() == t,
            forall|u: int| 0 <= u < filesz ==> v@[u] == binary@[off + u],
            forall|u: int| filesz <= u < t ==> v@[u] == 0,
        decreases memsz - t,
    {
        v.push(0);
        t += 1;
    }
    v
}


/// Parses the image, validates it, allocates frames for every loadable
/// segment from the supplied allocator, and produces each segment's bytes
/// (file bytes then zero fill) together with the validated entry address.
///
/// Every format defect is reported as the matching error and implies the
/// image is not well formed; a well-formed image fails only when the
/// allocator holds no fitting run for some segment. The allocator keeps its
/// layout, and its free frames only decrease.
pub fn load(binary: &Vec<u8>, alloc: &mut FrameAllocator) -> (res: Result<LoadedImage, LoadError>)
    requires
        old(alloc).wf(),
    ensures
        final(alloc).wf(),
        old(alloc).same_layout(*final(alloc)),
        forall|a: int| #[trigger] final(alloc).is_free(a) ==> old(alloc).is_free(a),
        !image_ok(binary@) ==> res is Err,
        match res {
            Ok(img) => {
                &&& image_ok(binary@)
                &&& img.entry == entry_of(binary@)
                &&& img.entry != 0
                &&& exists|idxs: Seq<int>|
                    #[trigger] load_indices(binary@, idxs) && segments_built(
                        binary@,
                        idxs,
                        img.segments@,
                        *old(alloc),
                    )
                &&& forall|a: int|
                    #[trigger] final(alloc).is_free(a) <==> (old(alloc).is_free(a)
                        && !seg_frames_cover(img.segments@, a))
            },
            Err(e) => {
                &&& (e == LoadError::InsufficientMemory ==> header_ok(binary@) && entry_of(
                    binary@,
                ) != 0 && phdrs_ok(binary@) && exists|i: int|
                    0 <= i < phnum_of(binary@) && #[trigger] is_load(binary@, i) && seg_ok(
                        binary@,
                        i,
                    ) && !final(alloc).has_free_run(seg_pages(binary@, i)))
                &&& (e != LoadError::InsufficientMemory ==> !image_ok(binary@))
                &&& (e == LoadError::BadHeader ==> !header_ok(binary@))
                &&& (e == LoadError::NullEntry ==> header_ok(binary@) && entry_of(binary@) == 0)
                &&& (e == LoadError::BadProgramHeaders ==> header_ok(binary@) && !phdrs_ok(
                    binary@,
                ))
            },
        },
{
    let len = binary.len();
    if len < ELF_HEADER_LEN {
        return Err(LoadError::BadHeader);
    }
    if !(binary[0] == 0x7f && binary[1] == 0x45 && binary[2] == 0x4c && binary[3] == 0x46
        && binary[4] == 2 && binary[5] == 1) {
        return Err(LoadError::BadHeader);
    }
    if read_u16(binary, 16) != 2 || read_u16(binary, 18) != 0x3e || read_u16(binary, 54) != 56 {
        return Err(LoadError::BadHeader);
    }
    let entry = read_u64(binary, 24);
    if entry == 0 {
        return Err(LoadError::NullEntry);
    }
    let phoff = read_u64(binary, 32);
    let phnum = read_u16(binary, 56);
    if phoff > len as u64 || (phnum as u64) * (PHDR_LEN as u64) > len as u64 - phoff {
        return Err(LoadError::BadProgramHeaders);
    }
    let phoff_us = phoff as usize;
    let phnum_us = phnum as usize;
    let mut segs: Vec<LoadedSegment> = Vec::new();
    let ghost mut idxs: Seq<int> = Seq::empty();
    let ghost alloc0 = *alloc;
    let mut i: usize = 0;
    while i < phnum_us
        invariant
            header_ok(binary@),
            entry == entry_of(binary@),
            entry != 0,
            phdrs_ok(binary@),
            phoff_us == phoff_of(binary@),
            phnum_us == phnum_of(binary@),
            len == binary@.len(),
            binary@.len() <= usize::MAX,
            phoff_us + phnum_us * PHDR_LEN <= binary@.len(),
            0 <= i <= phnum_us,
            forall|j: int| 0 <= j < i ==> #[trigger] seg_type(binary@, j) != 2,
            forall|j: int|
                0 <= j < i && is_load(binary@, j) ==> #[trigger] seg_ok(binary@, j),
            forall|j1: int, j2: int|
                0 <= j1 < j2 < i && is_load(binary@, j1) && is_load(binary@, j2)
                    ==> #[trigger] loads_disjoint(binary@, j1, j2),
            forall|k: int|
                0 <= k < idxs.len() ==> 0 <= #[trigger] idxs[k] < i && is_load(binary@, idxs[k]),
            forall|k1: int, k2: int| 0 <= k1 < k2 < idxs.len() ==> idxs[k1] < idxs[k2],
            forall|j: int| 0 <= j < i && #[trigger] is_load(binary@, j) ==> idxs.contains(j),
            segs@.len() == idxs.len(),
            forall|k: int|
                0 <= k < segs@.len() ==> segment_matches(
                    binary@,
                    #[trigger] idxs[k],
                    segs@[k],
                    alloc0,
                ),
            alloc0 == *old(alloc),
            alloc.wf(),
            alloc0.same_layout(*alloc),
            forall|a: int| #[trigger] alloc.is_free(a) ==> alloc0.is_free(a),
            forall|a: int|
                #[trigger] alloc.is_free(a) <==> (alloc0.is_free(a) && !seg_frames_cover(
                    segs@,
                    a,
                )),
            forall|k: int, f: int|
                0 <= k < segs@.len() && 0 <= f < segs@[k].frames.count ==> !alloc.is_free(
                    #[trigger] segs@[k].frames.frame(f),
                ),
            forall|k1: int, k2: int, f1: int, f2: int|
                0 <= k1 < k2 < segs@.len() && 0 <= f1 < segs@[k1].frames.count && 0 <= f2
                    < segs@[k2].frames.count ==> #[trigger] segs@[k1].frames.frame(f1)
                    != #[trigger] segs@[k2].frames.frame(f2),
        decreases phnum_us - i,
    {
        let base = phoff_us + PHDR_LEN * i;
        let ptype = read_u32(binary, base);
        proof {
            assert(ptype == seg_type(binary@, i as int));
        }
        if ptype == 2 {
            proof {
                assert(seg_type(binary@, i as int) == 2);
                assert(!image_ok(binary@));
            }
            return Err(LoadError::UnsupportedSegment);
        }
        if ptype == 1 {
            let off = read_u64(binary, base + 8);
            let vaddr = read_u64(binary, base + 16);
            let filesz = read_u64(binary, base + 32);
            let memsz = read_u64(binary, base + 40);
            proof {
                assert(off == seg_offset(binary@, i as int));
                assert(vaddr == seg_vaddr(binary@, i as int));
                assert(filesz == seg_filesz(binary@, i as int));
                assert(memsz == seg_memsz(binary@, i as int));
            }
            if memsz < filesz {
                proof {
                    assert(is_load(binary@, i as int) && !seg_ok(binary@, i as int));
                    assert(!image_ok(binary@));
                }
                return Err(LoadError::BadSegment);
            }
            if off > len as u64 || filesz > len as u64 - off {
                proof {
                    assert(is_load(binary@, i as int) && !seg_ok(binary@, i as int));
                    assert(!image_ok(binary@));
                }
                return Err(LoadError::BadSegment);
            }
            if memsz > 0 && vaddr > u64::MAX - (memsz - 1) {
                proof {
                    assert(is_load(binary@, i as int) && !seg_ok(binary@, i as int));
                    assert(!image_ok(binary@));
                }
                return Err(LoadError::BadSegment);
            }
            if memsz > usize::MAX as u64 {
                proof {
                    assert(is_load(binary@, i as int) && !seg_ok(binary@, i as int));
                    assert(!image_ok(binary@));
                }
                return Err(LoadError::BadSegment);
            }
            proof {
                assert(seg_ok(binary@, i as int));
            }
            let nsegs = segs.len();
            let mut k: usize = 0;
            while k < nsegs
                invariant
                    nsegs == segs@.len(),
                    segs@.len() == idxs.len(),
                    0 <= k <= nsegs,
                    alloc0 == *old(alloc),
                    alloc.wf(),
                    alloc0.same_layout(*alloc),
                    forall|a: int| #[trigger] alloc.is_free(a) ==> alloc0.is_free(a),
                    forall|a: int|
                        #[trigger] alloc.is_free(a) <==> (alloc0.is_free(a) && !seg_frames_cover(
                            segs@,
                            a,
                        )),
                    0 <= i < phnum_of(binary@),
                    is_load(binary@, i as int),
                    vaddr == seg_vaddr(binary@, i as int),
                    memsz == seg_memsz(binary@, i as int),
                    forall|k2: int|
                        0 <= k2 < idxs.len() ==> 0 <= #[trigger] idxs[k2] < i && is_load(
                            binary@,
                            idxs[k2],
                        ),
                    forall|k2: int|
                        0 <= k2 < segs@.len() ==> segment_matches(
                            binary@,
                            #[trigger] idxs[k2],
                            segs@[k2],
                            alloc0,
                        ),
                    forall|k2: int|
                        0 <= k2 < k ==> #[trigger] loads_disjoint(binary@, idxs[k2], i as int),
                decreases nsegs - k,
            {
                let pv = segs[k].vaddr;
                let pm = segs[k].content.len();
                proof {
                    assert(segment_matches(binary@, idxs[k as int], segs@[k as int], alloc0));
                    assert(pv == seg_vaddr(binary@, idxs[k as int]));
                    assert(pm == seg_memsz(binary@, idxs[k as int]));
                }
                if memsz != 0 && pm != 0 {
                    let before = vaddr >= pv && vaddr - pv >= pm as u64;
                    let after_other = pv >= vaddr && pv - vaddr >= memsz;
                    if !(before || after_other) {
                        proof {
                            assert(!loads_disjoint(binary@, idxs[k as int], i as int));
                            assert(!image_ok(binary@));
                        }
                        return Err(LoadError::OverlappingSegments);
                    }
                }
                proof {
                    assert(loads_disjoint(binary@, idxs[k as int], i as int));
                }
                k += 1;
            }
            let npages = memsz / PAGE_SIZE + if memsz % PAGE_SIZE == 0 {
                0
            } else {
                1
            };
            proof {
                vstd::arithmetic::div_mod::lemma_fundamental_div_mod(
                    memsz as int,
                    PAGE_SIZE as int,
                );
                assert(npages == seg_pages(binary@, i as int));
            }
            let ghost acur = *alloc;
            let run = match alloc.allocate(npages) {
                Ok(run) => run,
                Err(_e) => {
                    proof {
                        assert(npages > 0);
                        assert(!alloc.has_free_run(seg_pages(binary@, i as int)));
                        crate::phys::lemma_same_layout_trans(alloc0, acur, *alloc);
                    }
                    return Err(LoadError::InsufficientMemory);
                },
            };
            let content = build_content(binary, off as usize, filesz as usize, memsz as usize);
            let ghost segs0 = segs@;
            let seg = LoadedSegment { vaddr, frames: run, content };
            segs.push(seg);
            proof {
                let ghost idxs0 = idxs;
                idxs = idxs.push(i as int);
                crate::phys::lemma_same_layout_trans(alloc0, acur, *alloc);
                assert forall|j: int|
                    0 <= j < i + 1 && #[trigger] is_load(binary@, j) implies idxs.contains(j) by {
                    if j == i {
                        assert(idxs[idxs.len() - 1] == j);
                    } else {
                        let k0 = choose|k0: int| 0 <= k0 < idxs0.len() && idxs0[k0] == j;
                        assert(idxs[k0] == j);
                    }
                }
                // free frames only shrink across the allocation
                assert forall|a: int| #[trigger] alloc.is_free(a) implies alloc0.is_free(a) by {
                    assert(acur.is_free(a));
                }
                // the new segment realizes program header i
                assert(run.count == seg_pages(binary@, i as int));
                assert forall|f: int| 0 <= f < run.count implies alloc0.is_free(
                    #[trigger] run.frame(f),
                ) by {
                    assert(acur.is_free(run.frame(f)));
                }
                assert(segment_matches(binary@, i as int, segs@[segs@.len() - 1], alloc0));
                // the new run is gone from the free set now
                assert forall|f: int| 0 <= f < run.count implies !alloc.is_free(
                    #[trigger] run.frame(f),
                ) by {
                    if alloc.is_free(run.frame(f)) {
                        assert(run.covers(run.frame(f)));
                        assert(false);
                    }
                }
                // and is disjoint from every earlier segment's run
                assert forall|k1: int, f1: int, f2: int|
                    0 <= k1 < segs@.len() - 1 && 0 <= f1 < segs@[k1].frames.count && 0 <= f2
                        < run.count implies #[trigger] segs@[k1].frames.frame(f1)
                    != #[trigger] run.frame(f2) by {
                    if segs@[k1].frames.frame(f1) == run.frame(f2) {
                        assert(!acur.is_free(segs@[k1].frames.frame(f1)));
                        assert(acur.is_free(run.frame(f2)));
                        assert(false);
                    }
                }
                // a frame is free exactly when it was free at the start and
                // no segment loaded so far claimed it
                assert forall|a: int|
                    #[trigger] alloc.is_free(a) <==> (alloc0.is_free(a) && !seg_frames_cover(
                        segs@,
                        a,
                    )) by {
                    if alloc.is_free(a) {
                        assert(acur.is_free(a) && !run.covers(a));
                        assert(alloc0.is_free(a) && !seg_frames_cover(segs0, a));
                        if seg_frames_cover(segs@, a) {
                            let (k, f) = choose|k: int, f: int|
                                0 <= k < segs@.len() && 0 <= f < segs@[k].frames.count && a
                                    == #[trigger] segs@[k].frames.frame(f);
                            if k < segs@.len() - 1 {
                                assert(segs0[k].frames.frame(f) == a);
                                assert(seg_frames_cover(segs0, a));
                                assert(false);
                            } else {
                                assert(a == run.frame(f));
                                assert(run.covers(a));
                                assert(false);
                            }
                        }
                    }
                    if alloc0.is_free(a) && !seg_frames_cover(segs@, a) {
                        if seg_frames_cover(segs0, a) {
                            let (k, f) = choose|k: int, f: int|
                                0 <= k < segs0.len() && 0 <= f < segs0[k].frames.count && a
                                    == #[trigger] segs0[k].frames.frame(f);
                            assert(segs@[k].frames.frame(f) == a);
                            assert(seg_frames_cover(segs@, a));
                            assert(false);
                        }
                        assert(acur.is_free(a));
                        if run.covers(a) {
                            let f = choose|f: int| 0 <= f < run.count && a == #[trigger] run.frame(f);
                            assert(segs@[segs@.len() - 1].frames.frame(f) == a);
                            assert(seg_frames_cover(segs@, a));
                            assert(false);
                        }
                        assert(alloc.is_free(a));
                    }
                }
            }
        }
        i += 1;
    }
    proof {
        assert(load_indices(binary@, idxs));
        assert(image_ok(binary@));
        assert(segments_built(binary@, idxs, segs@, alloc0));
    }
    Ok(LoadedImage { entry, segments: segs })
}

} // verus!
