//! The boot-information payload handed from the bootloader to the kernel
//! entry function: the region map's location and the firmware
//! description-table pointer, passed by value, built exactly once before the
//! jump.

use vstd::prelude::*;

verus! {

/// Reference to the final region map: the address where the descriptor
/// sequence lives and the number of entries. The referenced memory must stay
/// valid and unmodified until the kernel has consumed it.
#[derive(Clone, Copy, PartialEq, Eq, Structural, Debug)]
pub struct Mmap {
    /// Address of the first descriptor.
    pub start: u64,
    /// Number of descriptors.
    pub len: usize,
}

impl Mmap {
    /// Packages a descriptor-sequence location.
    pub fn new(start: u64, len: usize) -> (r: Mmap)
        ensures
            r.start == start,
            r.len == len,
    {
        Mmap { start, len }
    }
}

/// The single value passed to the kernel entry function.
#[derive(Clone, Copy, PartialEq, Eq, Structural, Debug)]
pub struct BootInfo {
    /// Where the final region map lives.
    pub mmap: Mmap,
    /// Physical address of the firmware's root system description pointer,
    /// passed through unchanged for later ACPI-aware code.
    pub rsdp: u64,
}

impl BootInfo {
    /// Builds the handoff payload; constructed once, immediately before the
    /// jump, and consumed by the kernel as its sole argument.
    pub fn new(mmap: Mmap, rsdp: u64) -> (r: BootInfo)
        ensures
            r.mmap == mmap,
            r.rsdp == rsdp,
    {
        BootInfo { mmap, rsdp }
    }
}

} // verus!
