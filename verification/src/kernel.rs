//! The handoff sequencer's decision steps: locating the kernel image among
//! the boot volume's files and loading it with a validated entry address.
//! The irreversible firmware exit and the final jump are the unverified
//! runtime's part; it hands this module plain values and takes plain values
//! back.

use vstd::prelude::*;
use crate::elf;
use crate::elf::{LoadError, LoadedImage};
use crate::phys::FrameAllocator;

verus! {

/// One file of the boot volume, as the filesystem collaborator reports it:
/// its name and its bytes.
pub struct VolumeFile {
    /// The file's name, as bytes.
    pub name: Vec<u8>,
    /// The file's contents.
    pub data: Vec<u8>,
}

/// The name under which the kernel image is stored on the boot volume.
pub open spec fn kernel_image_name() -> Seq<u8> {
    seq![107u8, 101u8, 114u8, 110u8, 101u8, 108u8]
}

/// Whether a file name is exactly the kernel image's name.
fn is_kernel_name(name: &Vec<u8>) -> (r: bool)
    ensures
        r <==> name@ == kernel_image_name(),
{
    if name.len() != 6 {
        proof {
            assert(name@ != kernel_image_name());
        }
        return false;
    }
    let ok = name[0] == 107 && name[1] == 101 && name[2] == 114 && name[3] == 110 && name[4]
        == 101 && name[5] == 108;
    proof {
        if ok {
            assert(name@ =~= kernel_image_name());
        }
        if name@ == kernel_image_name() {
            assert(name@[0] == 107 && name@[1] == 101 && name@[2] == 114 && name@[3] == 110
                && name@[4] == 101 && name@[5] == 108);
        }
    }
    ok
}

/// Finds the kernel image: the first file of the volume whose name is
/// "kernel". A missing image is fatal for the boot; the caller halts on it.
pub fn locate<'a>(files: &'a Vec<VolumeFile>) -> (r: Option<&'a Vec<u8>>)
    ensures
        match r {
            Some(data) => exists|i: int|
                0 <= i < files@.len() && (#[trigger] files@[i]).name@ == kernel_image_name()
                    && data@ == files@[i].data@ && (forall|j: int|
                    0 <= j < i ==> (#[trigger] files@[j]).name@ != kernel_image_name()),
            None => forall|i: int|
                0 <= i < files@.len() ==> (#[trigger] files@[i]).name@ != kernel_image_name(),
        },
{
    let n = files.len();
    let mut i: usize = 0;
    while i < n
        invariant
            n == files@.len(),
            0 <= i <= n,
            forall|j: int| 0 <= j < i ==> (#[trigger] files@[j]).name@ != kernel_image_name(),
        decreases n - i,
    {
        let f = &files[i];
        if is_kernel_name(&f.name) {
            return Some(&f.data);
        }
        i += 1;
    }
    None
}

/// Loads the kernel image with the firmware-era allocator and validates the
/// entry address: the loader never produces a null entry, so control is
/// never transferred to address zero. Every failure is surfaced to the
/// caller, which aborts the boot.
pub fn load(binary: &Vec<u8>, alloc: &mut FrameAllocator) -> (r: Result<LoadedImage, LoadError>)
    requires
        old(alloc).wf(),
    ensures
        final(alloc).wf(),
        old(alloc).same_layout(*final(alloc)),
        forall|a: int| #[trigger] final(alloc).is_free(a) ==> old(alloc).is_free(a),
        !elf::image_ok(binary@) ==> r is Err,
        match r {
            Ok(img) => {
                &&& elf::image_ok(binary@)
                &&& img.entry == elf::entry_of(binary@)
                &&& img.entry != 0
                &&& exists|idxs: Seq<int>|
                    #[trigger] elf::load_indices(binary@, idxs) && elf::segments_built(
                        binary@,
                        idxs,
                        img.segments@,
                        *old(alloc),
                    )
                &&& forall|a: int|
                    #[trigger] final(alloc).is_free(a) <==> (old(alloc).is_free(a)
                        && !elf::seg_frames_cover(img.segments@, a))
            },
            Err(e) => e == LoadError::NullEntry ==> elf::header_ok(binary@) && elf::entry_of(
                binary@,
            ) == 0,
        },
{
    elf::load(binary, alloc)
}

} // verus!
