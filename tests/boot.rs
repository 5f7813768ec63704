use hv_boot::boot_table::{BootEntry, BootPageTable, DEVICE_BLOCK_FLAGS, KERNEL_BLOCK_FLAGS};
use hv_boot::bringup::{
    idmap_memory_nodes, init_mmu, init_mmu_el2, platform_init, platform_init_secondary, rust_entry,
    rust_entry_secondary, secondary_vm, EntryStep, InitStep, MmuStep, SpinAction,
};

#[test]
fn idmap_kernel_maps_its_gigabyte() {
    let mut t = BootPageTable::new(0x4020_1000);
    t.idmap_kernel(0x4008_0000);
    assert_eq!(t.l0_entry(0), BootEntry::Table { paddr: 0x4020_1000 });
    assert_eq!(t.l1_entry(1), BootEntry::Block { paddr: 0x4000_0000, flags: KERNEL_BLOCK_FLAGS });
    assert_eq!(t.l1_entry(0), BootEntry::Unused);
}

#[test]
fn idmap_device_first_writer_wins() {
    let mut t = BootPageTable::new(0x1000);
    t.idmap_kernel(0x4008_0000);
    t.idmap_device(0x4800_0000);
    assert_eq!(t.l1_entry(1), BootEntry::Block { paddr: 0x4000_0000, flags: KERNEL_BLOCK_FLAGS });
    t.idmap_device(0x0900_0000);
    assert_eq!(t.l1_entry(0), BootEntry::Block { paddr: 0, flags: DEVICE_BLOCK_FLAGS });
}

#[test]
fn idmap_device_twice_is_once() {
    let mut once = BootPageTable::new(0x1000);
    once.idmap_device(0xfeb5_0000);
    let mut twice = BootPageTable::new(0x1000);
    twice.idmap_device(0xfeb5_0000);
    twice.idmap_device(0xc000_0000);
    for i in 0..512 {
        assert_eq!(once.l1_entry(i), twice.l1_entry(i));
        assert_eq!(once.l0_entry(i), twice.l0_entry(i));
    }
    assert_eq!(once.l1_entry(3), BootEntry::Block { paddr: 0xc000_0000, flags: DEVICE_BLOCK_FLAGS });
}

#[test]
fn memory_nodes_are_identity_mapped() {
    let mut t = BootPageTable::new(0x1000);
    idmap_memory_nodes(&mut t, &vec![0x4000_0000, 0x1_0000_0000]);
    assert_eq!(t.l1_entry(1), BootEntry::Block { paddr: 0x4000_0000, flags: DEVICE_BLOCK_FLAGS });
    assert_eq!(t.l1_entry(4), BootEntry::Block { paddr: 0x1_0000_0000, flags: DEVICE_BLOCK_FLAGS });
    assert_eq!(t.l1_entry(2), BootEntry::Unused);
}

#[test]
fn entry_sequences() {
    let steps = rust_entry(0, 0x4800_0000);
    assert_eq!(steps[3], EntryStep::IdmapDevice { paddr: 0x4800_0000 });
    assert_eq!(steps[4], EntryStep::InitFdt { dtb: 0x4800_0000 });
    assert_eq!(*steps.last().unwrap(), EntryStep::EnterMain { cpu_id: 0, dtb: 0x4800_0000 });
    let sec = rust_entry_secondary(2);
    assert_eq!(sec[2], EntryStep::InitSecondaryCpu { cpu_id: 2 });
}

#[test]
fn mmu_enable_comes_after_setup() {
    for steps in [init_mmu(), init_mmu_el2(0xfeb5_0000)] {
        let enable = steps.iter().position(|s| *s == MmuStep::EnableMmu).unwrap();
        let flush = steps.iter().position(|s| *s == MmuStep::FlushTlb).unwrap();
        let tcr = steps.iter().position(|s| *s == MmuStep::WriteTcr).unwrap();
        assert!(tcr < flush && flush < enable);
        assert_eq!(enable + 2, steps.len());
        assert_eq!(steps[enable + 1], MmuStep::Isb);
    }
    assert!(init_mmu().contains(&MmuStep::SetRootHigh));
    assert!(!init_mmu_el2(0).contains(&MmuStep::SetRootHigh));
}

#[test]
fn platform_init_steps() {
    assert_eq!(platform_init(true), vec![InitStep::GicPrimary, InitStep::TimerPerCpu, InitStep::ConsoleIrq]);
    assert_eq!(platform_init(false), vec![InitStep::TimerPerCpu]);
    assert_eq!(platform_init_secondary(true), vec![InitStep::GicSecondary, InitStep::TimerPerCpu]);
    assert_eq!(platform_init_secondary(false), vec![InitStep::TimerPerCpu]);
}

#[test]
fn secondary_waits_until_ready() {
    assert_eq!(secondary_vm(false), SpinAction::Spin);
    assert_eq!(secondary_vm(true), SpinAction::Proceed);
}
