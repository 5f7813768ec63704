use vstd::prelude::*;
use crate::gpm::{gpm_plan, map_all, setup_gpm, GuestConfig, GuestMemoryMap, MachineMeta, MappingError};

verus! {

/// Number of slots in the VM registry.
pub const VM_MAX_NUM: usize = 8;

/// A virtual CPU, bound for its lifetime to the physical core that made it.
#[derive(Clone, Copy, Debug, PartialEq, Eq, Structural)]
pub struct VCpu {
    pub vcpu_id: usize,
    pub vm_id: usize,
    /// The physical core that runs it.
    pub affinity: usize,
    /// Where the guest starts running.
    pub entry_pc: usize,
    /// Guest-physical address of the guest's device tree.
    pub fdt_addr: usize,
}

/// A virtual machine: its id, which is also its registry slot, its virtual
/// CPUs and its own stage-2 address space.
#[derive(Debug)]
pub struct Vm {
    pub id: usize,
    pub vcpus: Vec<VCpu>,
    pub gpt: GuestMemoryMap,
}

/// Why a registry operation was refused.
#[derive(Clone, Copy, Debug, PartialEq, Eq, Structural)]
pub enum RegistryError {
    /// The id names no slot of the registry.
    OutOfRange,
    /// The slot already holds a VM.
    Occupied,
    /// No VM stands in the slot.
    NoSuchVm,
    /// The VM has no virtual CPU of that id.
    NoSuchVcpu,
}

/// Why the primary core could not bring its guest up.
#[derive(Clone, Copy, Debug, PartialEq, Eq, Structural)]
pub enum BringUpError {
    Mapping(MappingError),
    Registry(RegistryError),
}

/// The table of constructed VMs, indexed by VM id. Holding a value of it is
/// proof that it was initialized.
#[derive(Debug)]
pub struct VmRegistry {
    pub slots: Vec<Option<Vm>>,
}

/// A virtual CPU made on core `cpu_id` for VM `vm_id`, with no boot context yet.
pub open spec fn new_vcpu(cpu_id: usize, vm_id: usize, vcpu_id: usize) -> VCpu {
    VCpu { vcpu_id, vm_id, affinity: cpu_id, entry_pc: 0, fdt_addr: 0 }
}

/// Creates virtual CPU `vcpu_id` of VM `vm_id`, bound to physical core `cpu_id`.
pub fn create_vcpu(cpu_id: usize, vm_id: usize, vcpu_id: usize) -> (r: VCpu)
    ensures
        r == new_vcpu(cpu_id, vm_id, vcpu_id),
{
    VCpu { vcpu_id, vm_id, affinity: cpu_id, entry_pc: 0, fdt_addr: 0 }
}

/// Index of the first virtual CPU of `vcpus` with id `vcpu_id`, if any.
pub open spec fn vcpu_pos(vcpus: Seq<VCpu>, vcpu_id: usize) -> Option<int> {
    if exists|i: int| 0 <= i < vcpus.len() && (#[trigger] vcpus[i]).vcpu_id == vcpu_id {
        Some(choose|i: int| 0 <= i < vcpus.len() && (#[trigger] vcpus[i]).vcpu_id == vcpu_id
            && forall|k: int| 0 <= k < i ==> (#[trigger] vcpus[k]).vcpu_id != vcpu_id)
    } else {
        None
    }
}

impl VmRegistry {
    /// A registry of `capacity` empty slots.
    pub fn new(capacity: usize) -> (r: Self)
        ensures
            r.slots@.len() == capacity,
            forall|i: int| 0 <= i < capacity ==> (#[trigger] r.slots@[i]) is None,
    {
        let mut slots: Vec<Option<Vm>> = Vec::new();
        let mut i: usize = 0;
        while i < capacity
            invariant
                i <= capacity,
                slots@.len() == i,
                forall|k: int| 0 <= k < i ==> (#[trigger] slots@[k]) is None,
            decreases capacity - i,
        {
            slots.push(None);
            i += 1;
        }
        VmRegistry { slots }
    }

    /// Installs `vm` in slot `id`, which must exist and be empty.
    pub fn add_vm(&mut self, id: usize, vm: Vm) -> (r: Result<(), RegistryError>)
        ensures
            id >= old(self).slots@.len() ==> r == Err::<(), RegistryError>(RegistryError::OutOfRange),
            id < old(self).slots@.len() && old(self).slots@[id as int] is Some
                ==> r == Err::<(), RegistryError>(RegistryError::Occupied),
            r is Err ==> final(self).slots@ == old(self).slots@,
            id < old(self).slots@.len() && old(self).slots@[id as int] is None
                ==> r is Ok && final(self).slots@ == old(self).slots@.update(id as int, Some(vm)),
    {
        if id >= self.slots.len() {
            return Err(RegistryError::OutOfRange);
        }
        if self.slots[id].is_some() {
            return Err(RegistryError::Occupied);
        }
        self.slots.set(id, Some(vm));
        Ok(())
    }

    /// Appends `vcpu` to the virtual CPUs of VM `vm_id`.
    pub fn add_vm_vcpu(&mut self, vm_id: usize, vcpu: VCpu) -> (r: Result<(), RegistryError>)
        ensures
            vm_id >= old(self).slots@.len() || old(self).slots@[vm_id as int] is None
                ==> r == Err::<(), RegistryError>(RegistryError::NoSuchVm) && final(self).slots@ == old(self).slots@,
            vm_id < old(self).slots@.len() && old(self).slots@[vm_id as int] is Some ==> {
                let old_vm = old(self).slots@[vm_id as int]->Some_0;
                let new_vm = final(self).slots@[vm_id as int]->Some_0;
                &&& r is Ok
                &&& final(self).slots@.len() == old(self).slots@.len()
                &&& forall|i: int| 0 <= i < old(self).slots@.len() && i != vm_id ==> final(self).slots@[i] == old(self).slots@[i]
                &&& final(self).slots@[vm_id as int] is Some
                &&& new_vm.id == old_vm.id
                &&& new_vm.gpt == old_vm.gpt
                &&& new_vm.vcpus@ == old_vm.vcpus@.push(vcpu)
            },
    {
        if vm_id >= self.slots.len() || self.slots[vm_id].is_none() {
            return Err(RegistryError::NoSuchVm);
        }
        let slot = self.slots.remove(vm_id);
        let mut vm = match slot {
            Some(vm) => vm,
            None => { return Err(RegistryError::NoSuchVm); },
        };
        vm.vcpus.push(vcpu);
        self.slots.insert(vm_id, Some(vm));
        Ok(())
    }

    /// Sets the boot context of virtual CPU `vcpu_id` of VM `vm_id`: it will
    /// start at `entry_pc` with its device tree at `fdt_addr`.
    pub fn init_vm_vcpu(&mut self, vm_id: usize, vcpu_id: usize, entry_pc: usize, fdt_addr: usize) -> (r: Result<(), RegistryError>)
        ensures
            vm_id >= old(self).slots@.len() || old(self).slots@[vm_id as int] is None
                ==> r == Err::<(), RegistryError>(RegistryError::NoSuchVm) && final(self).slots@ == old(self).slots@,
            vm_id < old(self).slots@.len() && old(self).slots@[vm_id as int] is Some
                && vcpu_pos(old(self).slots@[vm_id as int]->Some_0.vcpus@, vcpu_id) is None
                ==> r == Err::<(), RegistryError>(RegistryError::NoSuchVcpu) && final(self).slots@ == old(self).slots@,
            vm_id < old(self).slots@.len() && old(self).slots@[vm_id as int] is Some
                && vcpu_pos(old(self).slots@[vm_id as int]->Some_0.vcpus@, vcpu_id) is Some ==> {
                let old_vm = old(self).slots@[vm_id as int]->Some_0;
                let new_vm = final(self).slots@[vm_id as int]->Some_0;
                let p = vcpu_pos(old_vm.vcpus@, vcpu_id)->Some_0;
                &&& r is Ok
                &&& final(self).slots@.len() == old(self).slots@.len()
                &&& forall|i: int| 0 <= i < old(self).slots@.len() && i != vm_id ==> final(self).slots@[i] == old(self).slots@[i]
                &&& final(self).slots@[vm_id as int] is Some
                &&& new_vm.id == old_vm.id
                &&& new_vm.gpt == old_vm.gpt
                &&& new_vm.vcpus@ == old_vm.vcpus@.update(p, VCpu { entry_pc, fdt_addr, ..old_vm.vcpus@[p] })
            },
    {
        if vm_id >= self.slots.len() || self.slots[vm_id].is_none() {
            return Err(RegistryError::NoSuchVm);
        }
        let ghost before = self.slots@;
        let ghost vcpus = before[vm_id as int]->Some_0.vcpus@;
        let mut pos: usize = 0;
        let mut found = false;
        match &self.slots[vm_id] {
            Some(vm) => {
                while pos < vm.vcpus.len() && !found
                    invariant
                        pos <= vm.vcpus@.len(),
                        vm.vcpus@ == vcpus,
                        found ==> pos < vcpus.len() && vcpus[pos as int].vcpu_id == vcpu_id,
                        forall|k: int| 0 <= k < pos ==> (#[trigger] vcpus[k]).vcpu_id != vcpu_id,
                    decreases vm.vcpus@.len() - pos + (if found { 0int } else { 1int }),
                {
                    if vm.vcpus[pos].vcpu_id == vcpu_id {
                        found = true;
                    } else {
                        pos += 1;
                    }
                }
            },
            None => {},
        }
        if !found {
            return Err(RegistryError::NoSuchVcpu);
        }
        proof {
            assert(vcpus[pos as int].vcpu_id == vcpu_id);
            let i = vcpu_pos(vcpus, vcpu_id)->Some_0;
            if i < pos {
                assert(vcpus[i].vcpu_id != vcpu_id);
            } else if i > pos {
                assert(vcpus[pos as int].vcpu_id != vcpu_id);
            }
        }
        let slot = self.slots.remove(vm_id);
        let mut vm = match slot {
            Some(vm) => vm,
            None => { return Err(RegistryError::NoSuchVm); },
        };
        let mut c = vm.vcpus[pos];
        c.entry_pc = entry_pc;
        c.fdt_addr = fdt_addr;
        vm.vcpus.set(pos, c);
        self.slots.insert(vm_id, Some(vm));
        Ok(())
    }
}


/// The state of slot 0 after a successful `bring_up_primary`.
pub open spec fn primary_vm_ready(vm: Vm, plan: Seq<crate::gpm::MapRequest>, hart_id: usize, kernel_entry: usize, dtb: usize) -> bool {
    &&& vm.id == 0
    &&& vm.gpt.regions@ == plan
    &&& vm.vcpus@ == seq![VCpu { vcpu_id: 0, vm_id: 0, affinity: hart_id, entry_pc: kernel_entry, fdt_addr: dtb }]
}

/// Brings up VM 0 on the primary core `hart_id`: builds its stage-2
/// address space, creates its virtual CPU 0 on this core, registers both in
/// slot 0 and sets the virtual CPU to start at `kernel_entry` with its device
/// tree at `dtb`.
pub fn bring_up_primary(
    registry: &mut VmRegistry,
    meta: &MachineMeta,
    cfg: &GuestConfig,
    hart_id: usize,
    kernel_entry: usize,
    dtb: usize,
    capacity: usize,
) -> (r: Result<(), BringUpError>)
    ensures
        map_all(gpm_plan(*meta, *cfg, kernel_entry), capacity as nat) matches Err(e)
            ==> r == Err::<(), BringUpError>(BringUpError::Mapping(e)) && final(registry).slots@ == old(registry).slots@,
        map_all(gpm_plan(*meta, *cfg, kernel_entry), capacity as nat) is Ok ==> {
            &&& old(registry).slots@.len() == 0 ==> r == Err::<(), BringUpError>(BringUpError::Registry(RegistryError::OutOfRange))
            &&& old(registry).slots@.len() > 0 && old(registry).slots@[0] is Some
                ==> r == Err::<(), BringUpError>(BringUpError::Registry(RegistryError::Occupied))
            &&& r is Err ==> final(registry).slots@ == old(registry).slots@
            &&& old(registry).slots@.len() > 0 && old(registry).slots@[0] is None ==> {
                &&& r is Ok
                &&& final(registry).slots@.len() == old(registry).slots@.len()
                &&& forall|i: int| 0 < i < old(registry).slots@.len() ==> final(registry).slots@[i] == old(registry).slots@[i]
                &&& final(registry).slots@[0] is Some
                &&& primary_vm_ready(final(registry).slots@[0]->Some_0,
                        map_all(gpm_plan(*meta, *cfg, kernel_entry), capacity as nat)->Ok_0, hart_id, kernel_entry, dtb)
            }
        },
{
    let gpt = match setup_gpm(meta, cfg, kernel_entry, capacity) {
        Err(e) => { return Err(BringUpError::Mapping(e)); },
        Ok(gpt) => gpt,
    };
    let vcpu = create_vcpu(hart_id, 0, 0);
    let vcpu_id = vcpu.vcpu_id;
    let vm = Vm { id: 0, vcpus: Vec::new(), gpt };
    match registry.add_vm(0, vm) {
        Err(e) => { return Err(BringUpError::Registry(e)); },
        Ok(()) => {},
    }
    match registry.add_vm_vcpu(0, vcpu) {
        Err(e) => { return Err(BringUpError::Registry(e)); },
        Ok(()) => {},
    }
    let ghost vcpus = registry.slots@[0]->Some_0.vcpus@;
    assert(vcpus =~= seq![vcpu]);
    assert(vcpus[0].vcpu_id == vcpu_id);
    assert(vcpu_pos(vcpus, vcpu_id) is Some);
    match registry.init_vm_vcpu(0, vcpu_id, kernel_entry, dtb) {
        Err(e) => { return Err(BringUpError::Registry(e)); },
        Ok(()) => {},
    }
    proof {
        let p = vcpu_pos(vcpus, vcpu_id)->Some_0;
        assert(p == 0);
        assert(registry.slots@[0]->Some_0.vcpus@ =~= seq![VCpu { vcpu_id: 0, vm_id: 0, affinity: hart_id, entry_pc: kernel_entry, fdt_addr: dtb }]);
    }
    Ok(())
}

} // verus!
