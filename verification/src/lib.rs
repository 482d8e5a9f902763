//! Boot-to-kernel handoff and early physical-memory management for a small
//! x86-64 hobby operating system: the firmware-supplied region map, the
//! physical frame allocator, the kernel ELF loader, the boot-information
//! payload, and the descriptor-table bring-up state machine.

pub mod boot;
pub mod elf;
pub mod gdt;
pub mod kernel;
pub mod phys;
pub mod region;
