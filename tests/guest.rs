use hv_boot::gpm::{
    setup_gpm, GuestConfig, GuestMemoryMap, MachineMeta, MappingError, GUEST_DEVICE_FLAGS,
    GUEST_RAM_FLAGS,
};
use hv_boot::vm::{bring_up_primary, create_vcpu, BringUpError, RegistryError, Vm, VmRegistry, VM_MAX_NUM};

fn meta() -> MachineMeta {
    MachineMeta {
        console: vec![(0x0900_0000, 0x1000)],
        pcie: None,
        flash: vec![],
        physical_memory_offset: 0x4000_0000,
        physical_memory_size: 0x2000_0000,
    }
}

fn cfg() -> GuestConfig {
    GuestConfig { virtio: (0xa00_0000, 0x4000), gic: (0x800_0000, 0x2_0000), kernel_base_paddr: 0x7020_0000 }
}

#[test]
fn guest_map_resolves_every_window() {
    let m = setup_gpm(&meta(), &cfg(), 0x7020_0000, 16).unwrap();
    for (base, size, flags) in [
        (0xa00_0000usize, 0x4000usize, GUEST_DEVICE_FLAGS),
        (0x0900_0000, 0x1000, GUEST_DEVICE_FLAGS),
        (0x800_0000, 0x2_0000, GUEST_DEVICE_FLAGS),
        (0x4000_0000, 0x2000_0000, GUEST_RAM_FLAGS),
        (0x7020_0000, 0x2000_0000, GUEST_RAM_FLAGS),
    ] {
        assert_eq!(m.translate(base), Some((base, flags)));
        assert_eq!(m.translate(base + size - 1), Some((base + size - 1, flags)));
    }
    assert_eq!(m.translate(0x6000_0000), None);
    assert_eq!(m.regions.len(), 5);
}

#[test]
fn guest_alias_points_at_kernel_entry() {
    let m = setup_gpm(&meta(), &cfg(), 0x4020_0000, 16).unwrap();
    assert_eq!(m.translate(0x7020_0000), Some((0x4020_0000, GUEST_RAM_FLAGS)));
    assert_eq!(m.translate(0x7020_0000 + 0x123), Some((0x4020_0123, GUEST_RAM_FLAGS)));
}

#[test]
fn guest_map_with_pcie_and_flash() {
    let mut md = meta();
    md.pcie = Some((0x1000_0000, 0x2eff_0000));
    md.flash = vec![(0x0, 0x400_0000), (0x400_0000, 0x400_0000)];
    let m = setup_gpm(&md, &cfg(), 0x7020_0000, 16).unwrap();
    assert_eq!(m.regions.len(), 8);
    assert_eq!(m.translate(0x1000_0000), Some((0x1000_0000, GUEST_DEVICE_FLAGS)));
    assert_eq!(m.translate(0x7ff_ffff), Some((0x7ff_ffff, GUEST_DEVICE_FLAGS)));
}

#[test]
fn guest_map_fails_whole_when_any_mapping_fails() {
    for cap in 0..5 {
        assert_eq!(setup_gpm(&meta(), &cfg(), 0x7020_0000, cap).map(|m| m.regions.len()), Err(MappingError::CapacityExhausted));
    }
    assert!(setup_gpm(&meta(), &cfg(), 0x7020_0000, 5).is_ok());
    let mut overlapping = meta();
    overlapping.console = vec![(0xa00_0000, 0x1000)];
    assert_eq!(setup_gpm(&overlapping, &cfg(), 0x7020_0000, 16).map(|m| m.regions.len()), Err(MappingError::Overlap));
    let mut unaligned = meta();
    unaligned.console = vec![(0x0900_0000, 0x100)];
    assert_eq!(setup_gpm(&unaligned, &cfg(), 0x7020_0000, 16).map(|m| m.regions.len()), Err(MappingError::InvalidRange));
}

#[test]
fn map_region_refuses_bad_ranges() {
    let mut m = GuestMemoryMap::new(2);
    assert_eq!(m.map_region(0x1000, 0x1000, 0, GUEST_DEVICE_FLAGS), Err(MappingError::InvalidRange));
    assert_eq!(m.map_region(usize::MAX - 0xfff, 0x1000, 0x2000, GUEST_DEVICE_FLAGS), Err(MappingError::InvalidRange));
    assert_eq!(m.map_region(0x1000, 0x1000, 0x1000, GUEST_DEVICE_FLAGS), Ok(()));
    assert_eq!(m.map_region(0x0, 0x0, 0x2000, GUEST_DEVICE_FLAGS), Err(MappingError::Overlap));
    assert_eq!(m.map_region(0x2000, 0x2000, 0x1000, GUEST_DEVICE_FLAGS), Ok(()));
    assert_eq!(m.map_region(0x3000, 0x3000, 0x1000, GUEST_DEVICE_FLAGS), Err(MappingError::CapacityExhausted));
    assert_eq!(m.regions.len(), 2);
}

#[test]
fn primary_bring_up_registers_vm0() {
    let mut reg = VmRegistry::new(VM_MAX_NUM);
    assert_eq!(bring_up_primary(&mut reg, &meta(), &cfg(), 0, 0x7020_0000, 0x7000_0000, 16), Ok(()));
    let vm = reg.slots[0].as_ref().unwrap();
    assert_eq!(vm.id, 0);
    assert_eq!(vm.vcpus.len(), 1);
    assert_eq!(vm.vcpus[0].entry_pc, 0x7020_0000);
    assert_eq!(vm.vcpus[0].fdt_addr, 0x7000_0000);
    assert_eq!(vm.gpt.regions.len(), 5);
    assert!(reg.slots[1].is_none());
    assert_eq!(
        bring_up_primary(&mut reg, &meta(), &cfg(), 0, 0x7020_0000, 0x7000_0000, 16),
        Err(BringUpError::Registry(RegistryError::Occupied))
    );
}

#[test]
fn bring_up_errors() {
    let mut empty = VmRegistry::new(0);
    assert_eq!(
        bring_up_primary(&mut empty, &meta(), &cfg(), 0, 0x7020_0000, 0x7000_0000, 16),
        Err(BringUpError::Registry(RegistryError::OutOfRange))
    );
    let mut reg = VmRegistry::new(VM_MAX_NUM);
    assert_eq!(
        bring_up_primary(&mut reg, &meta(), &cfg(), 0, 0x7020_0000, 0x7000_0000, 3),
        Err(BringUpError::Mapping(MappingError::CapacityExhausted))
    );
    assert!(reg.slots[0].is_none());
}

#[test]
fn registry_operations() {
    let mut reg = VmRegistry::new(2);
    let v = create_vcpu(1, 1, 0);
    assert_eq!(reg.add_vm_vcpu(1, v), Err(RegistryError::NoSuchVm));
    assert_eq!(reg.init_vm_vcpu(1, 0, 1, 2), Err(RegistryError::NoSuchVm));
    let vm = Vm { id: 1, vcpus: vec![], gpt: GuestMemoryMap::new(1) };
    assert_eq!(reg.add_vm(2, Vm { id: 2, vcpus: vec![], gpt: GuestMemoryMap::new(1) }), Err(RegistryError::OutOfRange));
    assert_eq!(reg.add_vm(1, vm), Ok(()));
    assert_eq!(reg.init_vm_vcpu(1, 0, 1, 2), Err(RegistryError::NoSuchVcpu));
    assert_eq!(reg.add_vm_vcpu(1, v), Ok(()));
    assert_eq!(reg.init_vm_vcpu(1, 0, 0x5020_0000, 0x5000_0000), Ok(()));
    let c = reg.slots[1].as_ref().unwrap().vcpus[0];
    assert_eq!((c.affinity, c.entry_pc, c.fdt_addr), (1, 0x5020_0000, 0x5000_0000));
}
