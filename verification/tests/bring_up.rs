use boot_core::boot::{BootInfo, Mmap};
use boot_core::gdt::{
    BringUpPhase, DescriptorTables, GdtError, KERNEL_CODE_DESCRIPTOR, KERNEL_DATA_DESCRIPTOR,
    USER_CODE_DESCRIPTOR, USER_DATA_DESCRIPTOR,
};
use boot_core::kernel::{locate, VolumeFile};

#[test]
fn bring_up_records_the_expected_selectors() {
    let mut tables = DescriptorTables::new();
    let (action, reload) = tables.init(0x1_0000).expect("first bring-up succeeds");
    let selectors = tables.selectors();
    assert_eq!(selectors.kernel_code.raw, 0x08);
    assert_eq!(selectors.kernel_data.raw, 0x10);
    assert_eq!(selectors.user_data.raw, 0x1b);
    assert_eq!(selectors.user_code.raw, 0x23);
    assert_eq!(selectors.tss.raw, 0x28);
    // the segment-register writes use exactly the recorded singleton
    assert_eq!(reload.code, selectors.kernel_code);
    assert_eq!(reload.data, selectors.kernel_data);
    assert_eq!(action.tss, selectors.tss);
}

#[test]
fn bring_up_builds_the_expected_table() {
    let base: u64 = 0x1_0000;
    let mut tables = DescriptorTables::new();
    tables.init(base).expect("first bring-up succeeds");
    let table = tables.gdt();
    assert_eq!(table.len(), 7);
    assert_eq!(table[0], 0);
    assert_eq!(table[1], KERNEL_CODE_DESCRIPTOR);
    assert_eq!(table[1], 0x00af9b000000ffff);
    assert_eq!(table[2], KERNEL_DATA_DESCRIPTOR);
    assert_eq!(table[2], 0x00cf93000000ffff);
    assert_eq!(table[3], USER_DATA_DESCRIPTOR);
    assert_eq!(table[3], 0x00cff3000000ffff);
    assert_eq!(table[4], USER_CODE_DESCRIPTOR);
    assert_eq!(table[4], 0x00affb000000ffff);
    // present, type 9, limit 0x67, base 0x10000 split into its fields
    assert_eq!(table[5], 0x0000_8901_0000_0067);
    assert_eq!(table[6], 0);
}

#[test]
fn second_bring_up_fails() {
    let mut tables = DescriptorTables::new();
    tables.init(0x2000).expect("first bring-up succeeds");
    let second = tables.init(0x2000);
    assert_eq!(second.err(), Some(GdtError::AlreadyInitialized));
    // and the recorded selectors are untouched
    assert_eq!(tables.selectors().kernel_code.raw, 0x08);
}

#[test]
fn out_of_order_steps_fail() {
    let mut tables = DescriptorTables::new();
    assert_eq!(tables.load().err(), Some(GdtError::OutOfOrder));
    tables.init_gdt(0x3000).expect("build succeeds");
    assert_eq!(tables.load_segments().err(), Some(GdtError::OutOfOrder));
    tables.load().expect("load follows build");
    tables.load_segments().expect("reload follows load");
}

#[test]
fn phases_advance_in_order() {
    let mut tables = DescriptorTables::new();
    tables.init_gdt(0x4000).expect("build succeeds");
    assert_eq!(tables.init_gdt(0x4000).err(), Some(GdtError::AlreadyInitialized));
    tables.load().expect("load succeeds");
    tables.load_segments().expect("reload succeeds");
    let _ = BringUpPhase::SegmentsReloaded;
}

#[test]
fn locate_finds_the_first_kernel_file() {
    let files = vec![
        VolumeFile { name: b"boot.cfg".to_vec(), data: vec![0] },
        VolumeFile { name: b"kernel".to_vec(), data: vec![1, 2, 3] },
        VolumeFile { name: b"kernel".to_vec(), data: vec![9] },
    ];
    let data = locate(&files).expect("the kernel image is present");
    assert_eq!(data, &vec![1, 2, 3]);
}

#[test]
fn locate_reports_a_missing_image() {
    let files = vec![VolumeFile { name: b"kerne".to_vec(), data: vec![0] }];
    assert!(locate(&files).is_none());
}

#[test]
fn boot_info_carries_the_map_and_rsdp() {
    let mmap = Mmap::new(0xff7f_0000, 12);
    let info = BootInfo::new(mmap, 0xfee0_0000);
    assert_eq!(info.mmap.start, 0xff7f_0000);
    assert_eq!(info.mmap.len, 12);
    assert_eq!(info.rsdp, 0xfee0_0000);
}

#[test]
fn user_selectors_carry_ring_three() {
    let mut tables = DescriptorTables::new();
    tables.init(0x7000).expect("first bring-up succeeds");
    assert_eq!(tables.user_code_selector().raw, 0x23);
    assert_eq!(tables.user_data_selector().raw, 0x1b);
    assert_eq!(tables.kernel_code_selector().raw & 0b11, 0);
    assert_eq!(tables.user_code_selector().raw & 0b11, 3);
}
