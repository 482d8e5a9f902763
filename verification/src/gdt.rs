//! Descriptor-table bring-up: builds the global descriptor table and its
//! selectors, and drives the load / segment-reload state machine that the
//! processor requires before privilege transitions can work. The raw
//! descriptor values for code and data segments come from the x86_64 crate;
//! the hardware loads themselves are left to the unverified runtime, which
//! reports each completed step back to this state machine.

use vstd::prelude::*;

verus! {

/// Raw descriptor for a 64-bit kernel code segment.
pub const KERNEL_CODE_DESCRIPTOR: u64 = 0x00af9b000000ffff;

/// Raw descriptor for a kernel data segment.
pub const KERNEL_DATA_DESCRIPTOR: u64 = 0x00cf93000000ffff;

/// Raw descriptor for a ring-3 64-bit code segment.
pub const USER_CODE_DESCRIPTOR: u64 = 0x00affb000000ffff;

/// Raw descriptor for a ring-3 data segment.
pub const USER_DATA_DESCRIPTOR: u64 = 0x00cff3000000ffff;

/// Inclusive limit of a task-state-segment descriptor: the processor's TSS
/// layout is 0x68 bytes, and the limit field holds one less.
pub const TSS_LIMIT: u64 = 0x67;

/// Relies on x86_64's `Descriptor::kernel_code_segment`: a constant
/// user-segment descriptor whose bits are `DescriptorFlags::KERNEL_CODE64`.
#[verifier::external_body]
fn kernel_code_segment_bits() -> (r: u64)
    ensures
        r == KERNEL_CODE_DESCRIPTOR,
{
    match x86_64::structures::gdt::Descriptor::kernel_code_segment() {
        x86_64::structures::gdt::Descriptor::UserSegment(bits) => bits,
        x86_64::structures::gdt::Descriptor::SystemSegment(low, _high) => low,
    }
}

/// Relies on x86_64's `Descriptor::kernel_data_segment`: a constant
/// user-segment descriptor whose bits are `DescriptorFlags::KERNEL_DATA`.
#[verifier::external_body]
fn kernel_data_segment_bits() -> (r: u64)
    ensures
        r == KERNEL_DATA_DESCRIPTOR,
{
    match x86_64::structures::gdt::Descriptor::kernel_data_segment() {
        x86_64::structures::gdt::Descriptor::UserSegment(bits) => bits,
        x86_64::structures::gdt::Descriptor::SystemSegment(low, _high) => low,
    }
}

/// Relies on x86_64's `Descriptor::user_code_segment`: a constant
/// user-segment descriptor whose bits are `DescriptorFlags::USER_CODE64`.
#[verifier::external_body]
fn user_code_segment_bits() -> (r: u64)
    ensures
        r == USER_CODE_DESCRIPTOR,
{
    match x86_64::structures::gdt::Descriptor::user_code_segment() {
        x86_64::structures::gdt::Descriptor::UserSegment(bits) => bits,
        x86_64::structures::gdt::Descriptor::SystemSegment(low, _high) => low,
    }
}

/// Relies on x86_64's `Descriptor::user_data_segment`: a constant
/// user-segment descriptor whose bits are `DescriptorFlags::USER_DATA`.
#[verifier::external_body]
fn user_data_segment_bits() -> (r: u64)
    ensures
        r == USER_DATA_DESCRIPTOR,
{
    match x86_64::structures::gdt::Descriptor::user_data_segment() {
        x86_64::structures::gdt::Descriptor::UserSegment(bits) => bits,
        x86_64::structures::gdt::Descriptor::SystemSegment(low, _high) => low,
    }
}

/// Low half of the task-state-segment descriptor for a TSS at `base`:
/// present, type "available 64-bit TSS", limit covering the TSS, and the low
/// 32 base-address bits in their split fields.
pub open spec fn tss_descriptor_low(base: u64) -> u64 {
    (1u64 << 47) | ((base & 0xff_ffff) << 16) | (((base >> 24) & 0xff) << 56) | TSS_LIMIT | (
    0x9u64 << 40)
}

/// High half of the task-state-segment descriptor: the upper 32 base bits.
pub open spec fn tss_descriptor_high(base: u64) -> u64 {
    base >> 32
}

/// Descriptor privilege level encoded in bits 45 and 46 of a descriptor.
pub open spec fn descriptor_dpl(bits: u64) -> u64 {
    (bits >> 45) & 3
}

/// A segment selector value: descriptor-table index and requested privilege
/// level, in the processor's packed format.
#[derive(Clone, Copy, PartialEq, Eq, Structural, Debug)]
pub struct Selector {
    /// The packed selector: index times eight, plus the privilege level.
    pub raw: u16,
}

/// The five selectors recorded by a successful bring-up; a read-only
/// singleton from then on.
#[derive(Clone, Copy, PartialEq, Eq, Structural, Debug)]
pub struct Selectors {
    /// Ring-0 code selector.
    pub kernel_code: Selector,
    /// Ring-0 data selector.
    pub kernel_data: Selector,
    /// Ring-3 code selector.
    pub user_code: Selector,
    /// Ring-3 data selector.
    pub user_data: Selector,
    /// Task-state-segment selector for the task register.
    pub tss: Selector,
}

/// Where the bring-up stands.
#[derive(Clone, Copy, PartialEq, Eq, Structural, Debug)]
pub enum BringUpPhase {
    /// Nothing built yet; reads of table or selectors are misuse.
    Uninitialized,
    /// Table and selectors exist; the table is not live yet.
    DescriptorsBuilt,
    /// The table is the processor's live descriptor table.
    Loaded,
    /// Segment registers hold the kernel selectors; bring-up is complete.
    SegmentsReloaded,
}

/// Misuse of the bring-up state machine: each is a logic defect, fatal by
/// design for the caller.
#[derive(Clone, Copy, PartialEq, Eq, Structural, Debug)]
pub enum GdtError {
    /// A second build attempt after the table was already built.
    AlreadyInitialized,
    /// A step attempted out of the build, load, reload order.
    OutOfOrder,
}

/// The actions a completed build hands to the runtime: load the table and
/// the task register.
#[derive(Clone, Copy, PartialEq, Eq, Structural, Debug)]
pub struct LoadAction {
    /// Selector to load into the task register after the table is live.
    pub tss: Selector,
}

/// The segment-register writes that finish the bring-up.
#[derive(Clone, Copy, PartialEq, Eq, Structural, Debug)]
pub struct SegmentReload {
    /// Goes to the code segment register.
    pub code: Selector,
    /// Goes to every data segment register.
    pub data: Selector,
}

/// Appends a code or data descriptor to the table and returns its selector,
/// with the requested privilege taken from the descriptor itself.
fn push_user_entry(table: &mut Vec<u64>, bits: u64) -> (s: Selector)
    requires
        old(table)@.len() < 8,
    ensures
        final(table)@ == old(table)@.push(bits),
        s.raw == old(table)@.len() * 8 + descriptor_dpl(bits),
{
    proof {
        assert((bits >> 45) & 3 <= 3) by (bit_vector);
    }
    let index = table.len();
    table.push(bits);
    let dpl = ((bits >> 45) & 3) as u16;
    Selector { raw: (index as u16) * 8 + dpl }
}

/// The global descriptor table and its bring-up state: built exactly once,
/// then read-only for the remainder of execution.
pub struct DescriptorTables {
    phase: BringUpPhase,
    table: Vec<u64>,
    selectors: Option<Selectors>,
}

impl DescriptorTables {
    /// The bring-up phase.
    pub closed spec fn phase_spec(self) -> BringUpPhase {
        self.phase
    }

    /// The raw descriptor entries, null entry first.
    pub closed spec fn table_spec(self) -> Seq<u64> {
        self.table@
    }

    /// The recorded selector singleton, once built.
    pub closed spec fn selectors_spec(self) -> Selectors {
        self.selectors->Some_0
    }

    /// The table a successful build produces for a TSS at `tss_base`.
    pub open spec fn built_table(tss_base: u64) -> Seq<u64> {
        seq![
            0u64,
            KERNEL_CODE_DESCRIPTOR,
            KERNEL_DATA_DESCRIPTOR,
            USER_DATA_DESCRIPTOR,
            USER_CODE_DESCRIPTOR,
            tss_descriptor_low(tss_base),
            tss_descriptor_high(tss_base),
        ]
    }

    /// The selector values a successful build records: indices one to five,
    /// ring 3 on the user selectors.
    pub open spec fn built_selectors() -> Selectors {
        Selectors {
            kernel_code: Selector { raw: 0x08 },
            kernel_data: Selector { raw: 0x10 },
            user_data: Selector { raw: 0x1b },
            user_code: Selector { raw: 0x23 },
            tss: Selector { raw: 0x28 },
        }
    }

    /// A fresh, unbuilt bring-up.
    pub fn new() -> (r: DescriptorTables)
        ensures
            r.phase_spec() == BringUpPhase::Uninitialized,
            r.wf(),
    {
        DescriptorTables { phase: BringUpPhase::Uninitialized, table: Vec::new(), selectors: None }
    }

    /// Builds the five descriptors from a fresh table and records the
    /// selector singleton. Succeeds exactly once: a second call is the
    /// double-initialization misuse and fails without touching the state.
    pub fn init_gdt(&mut self, tss_base: u64) -> (r: Result<(), GdtError>)
        ensures
            match r {
                Ok(()) => {
                    &&& old(self).phase_spec() == BringUpPhase::Uninitialized
                    &&& final(self).wf()
                    &&& final(self).phase_spec() == BringUpPhase::DescriptorsBuilt
                    &&& final(self).table_spec() == Self::built_table(tss_base)
                    &&& final(self).selectors_spec() == Self::built_selectors()
                },
                Err(e) => {
                    &&& e == GdtError::AlreadyInitialized
                    &&& old(self).phase_spec() != BringUpPhase::Uninitialized
                    &&& *final(self) == *old(self)
                },
            },
    {
        if !matches!(self.phase, BringUpPhase::Uninitialized) {
            return Err(GdtError::AlreadyInitialized);
        }
        let mut table: Vec<u64> = Vec::new();
        table.push(0);
        let kernel_code = push_user_entry(&mut table, kernel_code_segment_bits());
        let kernel_data = push_user_entry(&mut table, kernel_data_segment_bits());
        let user_data = push_user_entry(&mut table, user_data_segment_bits());
        let user_code = push_user_entry(&mut table, user_code_segment_bits());
        let tss_low = (1u64 << 47) | ((tss_base & 0xff_ffff) << 16) | (((tss_base >> 24) & 0xff)
            << 56) | TSS_LIMIT | (0x9u64 << 40);
        let tss_high = tss_base >> 32;
        let tss = Selector { raw: 5 * 8 };
        table.push(tss_low);
        table.push(tss_high);
        proof {
            assert(((KERNEL_CODE_DESCRIPTOR >> 45) & 3) == 0) by (bit_vector);
            assert(((KERNEL_DATA_DESCRIPTOR >> 45) & 3) == 0) by (bit_vector);
            assert(((USER_DATA_DESCRIPTOR >> 45) & 3) == 3) by (bit_vector);
            assert(((USER_CODE_DESCRIPTOR >> 45) & 3) == 3) by (bit_vector);
            assert(table@ =~= Self::built_table(tss_base));
        }
        self.table = table;
        self.selectors = Some(
            Selectors { kernel_code, kernel_data, user_code, user_data, tss },
        );
        self.phase = BringUpPhase::DescriptorsBuilt;
        Ok(())
    }

    /// Acknowledges that the built table is to become the live one: valid
    /// only right after the build, and hands back the task-register load the
    /// runtime must perform once the table is live.
    pub fn load(&mut self) -> (r: Result<LoadAction, GdtError>)
        requires
            old(self).wf(),
        ensures
            final(self).wf(),
            match r {
                Ok(action) => {
                    &&& old(self).phase_spec() == BringUpPhase::DescriptorsBuilt
                    &&& final(self).phase_spec() == BringUpPhase::Loaded
                    &&& final(self).table_spec() == old(self).table_spec()
                    &&& final(self).selectors_spec() == old(self).selectors_spec()
                    &&& action.tss == old(self).selectors_spec().tss
                },
                Err(e) => {
                    &&& e == GdtError::OutOfOrder
                    &&& old(self).phase_spec() != BringUpPhase::DescriptorsBuilt
                    &&& *final(self) == *old(self)
                },
            },
    {
        if !matches!(self.phase, BringUpPhase::DescriptorsBuilt) {
            return Err(GdtError::OutOfOrder);
        }
        let selectors = self.selectors.unwrap();
        self.phase = BringUpPhase::Loaded;
        Ok(LoadAction { tss: selectors.tss })
    }

    /// Hands back the segment-register writes that establish the kernel's
    /// privilege context: the kernel code selector for the code register and
    /// the kernel data selector for every other segment register. Valid only
    /// once the table is live.
    pub fn load_segments(&mut self) -> (r: Result<SegmentReload, GdtError>)
        requires
            old(self).wf(),
        ensures
            final(self).wf(),
            match r {
                Ok(reload) => {
                    &&& old(self).phase_spec() == BringUpPhase::Loaded
                    &&& final(self).phase_spec() == BringUpPhase::SegmentsReloaded
                    &&& final(self).table_spec() == old(self).table_spec()
                    &&& final(self).selectors_spec() == old(self).selectors_spec()
                    &&& reload.code == old(self).selectors_spec().kernel_code
                    &&& reload.data == old(self).selectors_spec().kernel_data
                },
                Err(e) => {
                    &&& e == GdtError::OutOfOrder
                    &&& old(self).phase_spec() != BringUpPhase::Loaded
                    &&& *final(self) == *old(self)
                },
            },
    {
        if !matches!(self.phase, BringUpPhase::Loaded) {
            return Err(GdtError::OutOfOrder);
        }
        let selectors = self.selectors.unwrap();
        self.phase = BringUpPhase::SegmentsReloaded;
        Ok(SegmentReload { code: selectors.kernel_code, data: selectors.kernel_data })
    }

    /// The whole bring-up in order: build, load, segment reload. Succeeds
    /// exactly when nothing was built before; a second run fails with the
    /// double-initialization error and changes nothing.
    pub fn init(&mut self, tss_base: u64) -> (r: Result<(LoadAction, SegmentReload), GdtError>)
        ensures
            match r {
                Ok((action, reload)) => {
                    &&& old(self).phase_spec() == BringUpPhase::Uninitialized
                    &&& final(self).wf()
                    &&& final(self).phase_spec() == BringUpPhase::SegmentsReloaded
                    &&& final(self).table_spec() == Self::built_table(tss_base)
                    &&& final(self).selectors_spec() == Self::built_selectors()
                    &&& action.tss == Self::built_selectors().tss
                    &&& reload.code == Self::built_selectors().kernel_code
                    &&& reload.data == Self::built_selectors().kernel_data
                },
                Err(e) => {
                    &&& e == GdtError::AlreadyInitialized
                    &&& old(self).phase_spec() != BringUpPhase::Uninitialized
                    &&& *final(self) == *old(self)
                },
            },
    {
        self.init_gdt(tss_base)?;
        let action = match self.load() {
            Ok(a) => a,
            Err(_) => {
                return Err(GdtError::AlreadyInitialized);
            },
        };
        let reload = match self.load_segments() {
            Ok(p) => p,
            Err(_) => {
                return Err(GdtError::AlreadyInitialized);
            },
        };
        Ok((action, reload))
    }

    /// The raw descriptor table. Reading it before the build is misuse.
    pub fn gdt(&self) -> (r: &Vec<u64>)
        requires
            self.phase_spec() != BringUpPhase::Uninitialized,
        ensures
            r@ == self.table_spec(),
    {
        &self.table
    }

    /// The selector singleton. Reading it before the build is misuse.
    pub fn selectors(&self) -> (r: Selectors)
        requires
            self.phase_spec() != BringUpPhase::Uninitialized,
            self.wf(),
        ensures
            r == self.selectors_spec(),
    {
        self.selectors.unwrap()
    }

    /// Once anything is built, the selector singleton exists.
    pub closed spec fn wf(self) -> bool {
        self.phase != BringUpPhase::Uninitialized ==> self.selectors is Some
    }

    /// Ring-0 code selector; misuse before the build.
    pub fn kernel_code_selector(&self) -> (r: Selector)
        requires
            self.phase_spec() != BringUpPhase::Uninitialized,
            self.wf(),
        ensures
            r == self.selectors_spec().kernel_code,
    {
        self.selectors().kernel_code
    }

    /// Ring-0 data selector; misuse before the build.
    pub fn kernel_data_selector(&self) -> (r: Selector)
        requires
            self.phase_spec() != BringUpPhase::Uninitialized,
            self.wf(),
        ensures
            r == self.selectors_spec().kernel_data,
    {
        self.selectors().kernel_data
    }

    /// Ring-3 code selector; misuse before the build.
    pub fn user_code_selector(&self) -> (r: Selector)
        requires
            self.phase_spec() != BringUpPhase::Uninitialized,
            self.wf(),
        ensures
            r == self.selectors_spec().user_code,
    {
        self.selectors().user_code
    }

    /// Ring-3 data selector; misuse before the build.
    pub fn user_data_selector(&self) -> (r: Selector)
        requires
            self.phase_spec() != BringUpPhase::Uninitialized,
            self.wf(),
        ensures
            r == self.selectors_spec().user_data,
    {
        self.selectors().user_data
    }
}

} // verus!
