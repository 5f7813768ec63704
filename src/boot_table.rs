use vstd::prelude::*;

verus! {

/// Mapping permission: read.
pub const MAP_READ: usize = 1;
/// Mapping permission: write.
pub const MAP_WRITE: usize = 2;
/// Mapping permission: execute.
pub const MAP_EXECUTE: usize = 4;
/// Mapping permission: accessible to the guest.
pub const MAP_USER: usize = 8;
/// Mapping attribute: device memory, not cached.
pub const MAP_DEVICE: usize = 16;

/// Permissions of the kernel image's identity block.
pub const KERNEL_BLOCK_FLAGS: usize = MAP_READ | MAP_WRITE | MAP_EXECUTE;
/// Permissions of a device identity block.
pub const DEVICE_BLOCK_FLAGS: usize = MAP_READ | MAP_WRITE | MAP_DEVICE;

/// Entries in each level of the boot table.
pub const ENTRIES: usize = 512;
/// Bits of address below one second-level block.
pub const BOOT_MAP_SHIFT: usize = 30;
/// Bytes covered by one second-level block (1 GiB).
pub const BOOT_MAP_SIZE: usize = 0x4000_0000;

/// One descriptor of the boot table.
#[derive(Clone, Copy, Debug, PartialEq, Eq, Structural)]
pub enum BootEntry {
    /// Maps nothing.
    Unused,
    /// Points at the next-level table at `paddr`.
    Table { paddr: usize },
    /// Maps the block at `paddr` with the permission set `flags`.
    Block { paddr: usize, flags: usize },
}

/// The two-level table that identity-maps the hypervisor before its
/// allocator exists: the top level covers 512 GiB per entry, the second
/// level 1 GiB per entry.
#[derive(Debug)]
pub struct BootPageTable {
    pub l0: Vec<BootEntry>,
    pub l1: Vec<BootEntry>,
    /// Physical address of the second-level table.
    pub l1_paddr: usize,
}

/// Index of the gigabyte block that holds `addr`.
pub open spec fn gib_index(addr: usize) -> int {
    (addr >> 30usize) as int
}

/// Start of the gigabyte that holds `addr`.
pub open spec fn gib_base(addr: usize) -> usize {
    addr & !0x3fff_ffffusize
}

/// `addr` lies in a gigabyte the second level can map.
pub open spec fn in_boot_range(addr: usize) -> bool {
    gib_index(addr) < ENTRIES
}

impl BootPageTable {
    /// Both levels hold exactly 512 entries.
    pub open spec fn wf(&self) -> bool {
        self.l0@.len() == ENTRIES && self.l1@.len() == ENTRIES
    }

    /// The second level after `idmap_device(addr)`.
    pub open spec fn device_mapped(l1: Seq<BootEntry>, addr: usize) -> Seq<BootEntry> {
        if l1[gib_index(addr)] == BootEntry::Unused {
            l1.update(gib_index(addr), BootEntry::Block { paddr: gib_base(addr), flags: DEVICE_BLOCK_FLAGS })
        } else {
            l1
        }
    }

    /// An empty table whose second level lives at `l1_paddr`.
    pub fn new(l1_paddr: usize) -> (r: Self)
        ensures
            r.wf(),
            r.l1_paddr == l1_paddr,
            forall|i: int| 0 <= i < ENTRIES ==> #[trigger] r.l0@[i] == BootEntry::Unused && r.l1@[i] == BootEntry::Unused,
    {
        let mut l0: Vec<BootEntry> = Vec::new();
        let mut l1: Vec<BootEntry> = Vec::new();
        let mut i: usize = 0;
        while i < ENTRIES
            invariant
                i <= ENTRIES,
                l0@.len() == i,
                l1@.len() == i,
                forall|k: int| 0 <= k < i ==> #[trigger] l0@[k] == BootEntry::Unused && l1@[k] == BootEntry::Unused,
            decreases ENTRIES - i,
        {
            l0.push(BootEntry::Unused);
            l1.push(BootEntry::Unused);
            i += 1;
        }
        BootPageTable { l0, l1, l1_paddr }
    }

    /// Identity-maps the gigabyte that holds the kernel image at
    /// `kernel_phys_addr`, readable, writable and executable, and points the
    /// first top-level entry at the second level.
    pub fn idmap_kernel(&mut self, kernel_phys_addr: usize)
        requires
            old(self).wf(),
            in_boot_range(kernel_phys_addr),
        ensures
            final(self).wf(),
            final(self).l1_paddr == old(self).l1_paddr,
            final(self).l0@ == old(self).l0@.update(0, BootEntry::Table { paddr: old(self).l1_paddr }),
            final(self).l1@ == old(self).l1@.update(
                gib_index(kernel_phys_addr),
                BootEntry::Block { paddr: gib_base(kernel_phys_addr), flags: KERNEL_BLOCK_FLAGS },
            ),
    {
        let aligned_address = kernel_phys_addr & !(BOOT_MAP_SIZE - 1);
        let l1_index = kernel_phys_addr >> BOOT_MAP_SHIFT;
        assert(BOOT_MAP_SIZE - 1 == 0x3fff_ffffusize);
        self.l0.set(0, BootEntry::Table { paddr: self.l1_paddr });
        self.l1.set(l1_index, BootEntry::Block { paddr: aligned_address, flags: KERNEL_BLOCK_FLAGS });
    }

    /// Identity-maps the gigabyte that holds `phys_addr` as device memory,
    /// unless its entry is already in use: the first mapping of a gigabyte
    /// wins.
    pub fn idmap_device(&mut self, phys_addr: usize)
        requires
            old(self).wf(),
            in_boot_range(phys_addr),
        ensures
            final(self).wf(),
            final(self).l1_paddr == old(self).l1_paddr,
            final(self).l0@ == old(self).l0@,
            final(self).l1@ == Self::device_mapped(old(self).l1@, phys_addr),
    {
        let aligned_address = phys_addr & !(BOOT_MAP_SIZE - 1);
        let l1_index = phys_addr >> BOOT_MAP_SHIFT;
        assert(BOOT_MAP_SIZE - 1 == 0x3fff_ffffusize);
        if self.l1[l1_index] == BootEntry::Unused {
            self.l1.set(l1_index, BootEntry::Block { paddr: aligned_address, flags: DEVICE_BLOCK_FLAGS });
        }
    }

    /// The top-level entry at `i`.
    pub fn l0_entry(&self, i: usize) -> (r: BootEntry)
        requires
            self.wf(),
            i < ENTRIES,
        ensures
            r == self.l0@[i as int],
    {
        self.l0[i]
    }

    /// The second-level entry at `i`.
    pub fn l1_entry(&self, i: usize) -> (r: BootEntry)
        requires
            self.wf(),
            i < ENTRIES,
        ensures
            r == self.l1@[i as int],
    {
        self.l1[i]
    }
}

/// Mapping a device twice within one gigabyte leaves the table as mapping it
/// once.
pub proof fn lemma_idmap_device_idempotent(l1: Seq<BootEntry>, a: usize, b: usize)
    requires
        l1.len() == ENTRIES,
        in_boot_range(a),
        gib_index(a) == gib_index(b),
    ensures
        BootPageTable::device_mapped(BootPageTable::device_mapped(l1, a), b) == BootPageTable::device_mapped(l1, a),
{
}

} // verus!
