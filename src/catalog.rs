use vstd::prelude::*;
use vstd::string::StrSliceExecFns;
use crate::region::{
    free_regions, free_regions_spec, fdt_region, fdt_region_spec, kernel_region_spec, node_fits,
    MemRegion, RegionError, FDT_FIX_SIZE, FLAG_DEVICE, FLAG_EXECUTE, FLAG_READ, FLAG_RESERVED,
    FLAG_WRITE,
};

verus! {

/// Physical bounds `[start, end)` of each section of the hypervisor image.
#[derive(Clone, Copy, Debug, PartialEq, Eq)]
pub struct KernelLayout {
    pub text: (usize, usize),
    pub rodata: (usize, usize),
    pub data: (usize, usize),
    pub percpu: (usize, usize),
    pub boot_stack: (usize, usize),
    pub bss: (usize, usize),
    pub guest: (usize, usize),
}

impl KernelLayout {
    /// Every section ends at or after its start.
    pub open spec fn wf(self) -> bool {
        &&& self.text.0 <= self.text.1
        &&& self.rodata.0 <= self.rodata.1
        &&& self.data.0 <= self.data.1
        &&& self.percpu.0 <= self.percpu.1
        &&& self.boot_stack.0 <= self.boot_stack.1
        &&& self.bss.0 <= self.bss.1
        &&& self.guest.0 <= self.guest.1
    }
}

/// Number of image sections listed before the MMIO ranges.
pub const IMAGE_SECTIONS: usize = 7;

/// Flags of a platform MMIO range.
pub const MMIO_FLAGS: usize = FLAG_RESERVED | FLAG_DEVICE | FLAG_READ | FLAG_WRITE;

/// Flags of the firmware spin table.
pub const SPIN_TABLE_FLAGS: usize = FLAG_RESERVED | FLAG_READ | FLAG_WRITE;

/// A reserved region over the section `[bounds.0, bounds.1)`.
pub open spec fn section_region(bounds: (usize, usize), flags: usize, name: &'static str) -> MemRegion {
    MemRegion { paddr: bounds.0, size: (bounds.1 - bounds.0) as usize, flags, name }
}

/// The reserved region of a platform MMIO range `(base, size)`.
pub open spec fn mmio_region(range: (usize, usize)) -> MemRegion {
    MemRegion { paddr: range.0, size: range.1, flags: MMIO_FLAGS, name: "mmio" }
}

/// The regions that every platform reserves, in order: the image's text,
/// read-only data, data, per-CPU data, boot stack, bss and guest image,
/// then each MMIO range.
pub open spec fn common_region_spec(layout: KernelLayout, mmio: Seq<(usize, usize)>, idx: int) -> Option<MemRegion> {
    if idx == 0 {
        Some(section_region(layout.text, FLAG_RESERVED | FLAG_READ | FLAG_EXECUTE, ".text"))
    } else if idx == 1 {
        Some(section_region(layout.rodata, FLAG_RESERVED | FLAG_READ, ".rodata"))
    } else if idx == 2 {
        Some(section_region(layout.data, FLAG_RESERVED | FLAG_READ | FLAG_WRITE, ".data"))
    } else if idx == 3 {
        Some(section_region(layout.percpu, FLAG_RESERVED | FLAG_READ | FLAG_WRITE, ".percpu"))
    } else if idx == 4 {
        Some(section_region(layout.boot_stack, FLAG_RESERVED | FLAG_READ | FLAG_WRITE, "boot stack"))
    } else if idx == 5 {
        Some(section_region(layout.bss, FLAG_RESERVED | FLAG_READ | FLAG_WRITE, ".bss"))
    } else if idx == 6 {
        Some(section_region(layout.guest, FLAG_RESERVED | FLAG_READ | FLAG_WRITE, ".guest"))
    } else if IMAGE_SECTIONS <= idx < IMAGE_SECTIONS + mmio.len() {
        Some(mmio_region(mmio[idx - IMAGE_SECTIONS]))
    } else {
        None
    }
}

/// How many regions `common_memory_region_at` yields: one per image
/// section and one per MMIO range.
pub fn common_memory_regions_num(mmio: &Vec<(usize, usize)>) -> (r: usize)
    requires
        mmio@.len() + IMAGE_SECTIONS <= usize::MAX,
    ensures
        r == IMAGE_SECTIONS + mmio@.len(),
        forall|layout: KernelLayout, i: int| 0 <= i < r <==> (#[trigger] common_region_spec(layout, mmio@, i)) is Some,
{
    IMAGE_SECTIONS + mmio.len()
}

/// The `idx`-th region that every platform reserves, or `None` past the last.
pub fn common_memory_region_at(layout: &KernelLayout, mmio: &Vec<(usize, usize)>, idx: usize) -> (r: Option<MemRegion>)
    requires
        layout.wf(),
    ensures
        r == common_region_spec(*layout, mmio@, idx as int),
{
    if idx == 0 {
        Some(MemRegion { paddr: layout.text.0, size: layout.text.1 - layout.text.0, flags: FLAG_RESERVED | FLAG_READ | FLAG_EXECUTE, name: ".text" })
    } else if idx == 1 {
        Some(MemRegion { paddr: layout.rodata.0, size: layout.rodata.1 - layout.rodata.0, flags: FLAG_RESERVED | FLAG_READ, name: ".rodata" })
    } else if idx == 2 {
        Some(MemRegion { paddr: layout.data.0, size: layout.data.1 - layout.data.0, flags: FLAG_RESERVED | FLAG_READ | FLAG_WRITE, name: ".data" })
    } else if idx == 3 {
        Some(MemRegion { paddr: layout.percpu.0, size: layout.percpu.1 - layout.percpu.0, flags: FLAG_RESERVED | FLAG_READ | FLAG_WRITE, name: ".percpu" })
    } else if idx == 4 {
        Some(MemRegion { paddr: layout.boot_stack.0, size: layout.boot_stack.1 - layout.boot_stack.0, flags: FLAG_RESERVED | FLAG_READ | FLAG_WRITE, name: "boot stack" })
    } else if idx == 5 {
        Some(MemRegion { paddr: layout.bss.0, size: layout.bss.1 - layout.bss.0, flags: FLAG_RESERVED | FLAG_READ | FLAG_WRITE, name: ".bss" })
    } else if idx == 6 {
        Some(MemRegion { paddr: layout.guest.0, size: layout.guest.1 - layout.guest.0, flags: FLAG_RESERVED | FLAG_READ | FLAG_WRITE, name: ".guest" })
    } else if idx - IMAGE_SECTIONS < mmio.len() {
        let (base, size) = mmio[idx - IMAGE_SECTIONS];
        Some(MemRegion { paddr: base, size, flags: MMIO_FLAGS, name: "mmio" })
    } else {
        None
    }
}

/// The reserved spin table through which firmware wakes secondary cores.
pub open spec fn spin_table_region() -> MemRegion {
    MemRegion { paddr: 0, size: 0x1000, flags: SPIN_TABLE_FLAGS, name: "spintable" }
}

/// Every region the allocator is seeded from: the spin table where the board
/// wakes secondary cores through one, the device tree's reserved span, the
/// free regions, then the MMIO ranges.
pub open spec fn platform_regions_spec(
    uses_spin_table: bool,
    nodes: Seq<(usize, usize)>,
    kernel: MemRegion,
    fdt_paddr: usize,
    mmio: Seq<(usize, usize)>,
) -> Result<Seq<MemRegion>, RegionError> {
    let fdt = fdt_region_spec(fdt_paddr);
    match free_regions_spec(nodes, kernel, fdt) {
        Err(e) => Err(e),
        Ok(free) => {
            let head = if uses_spin_table { seq![spin_table_region(), fdt] } else { seq![fdt] };
            Ok(head + free + mmio.map_values(|m: (usize, usize)| mmio_region(m)))
        },
    }
}

/// The platform's memory regions for seeding the allocator; see
/// `platform_regions_spec` for their order.
pub fn platform_regions(
    uses_spin_table: bool,
    nodes: &Vec<(usize, usize)>,
    kernel_paddr: usize,
    kernel_size: usize,
    fdt_paddr: usize,
    mmio: &Vec<(usize, usize)>,
) -> (r: Result<Vec<MemRegion>, RegionError>)
    requires
        forall|i: int| 0 <= i < nodes@.len() ==> node_fits(#[trigger] nodes@[i].0, nodes@[i].1),
        node_fits(kernel_paddr, kernel_size),
        node_fits(fdt_paddr, FDT_FIX_SIZE),
    ensures
        match (r, platform_regions_spec(uses_spin_table, nodes@, kernel_region_spec(kernel_paddr, kernel_size), fdt_paddr, mmio@)) {
            (Ok(v), Ok(s)) => v@ == s,
            (Err(e), Err(f)) => e == f,
            _ => false,
        },
{
    let free = match free_regions(nodes, kernel_paddr, kernel_size, fdt_paddr) {
        Err(e) => { return Err(e); },
        Ok(free) => free,
    };
    let mut out: Vec<MemRegion> = Vec::new();
    if uses_spin_table {
        out.push(MemRegion { paddr: 0, size: 0x1000, flags: SPIN_TABLE_FLAGS, name: "spintable" });
    }
    out.push(fdt_region(fdt_paddr));
    let ghost head = out@;
    let mut i: usize = 0;
    while i < free.len()
        invariant
            i <= free.len(),
            out@ == head + free@.take(i as int),
        decreases free.len() - i,
    {
        out.push(free[i]);
        i += 1;
        assert(free@.take(i as int) == free@.take(i as int - 1).push(free@[i as int - 1]));
    }
    assert(free@.take(i as int) == free@);
    let ghost mid = out@;
    let ghost mapped = mmio@.map_values(|m: (usize, usize)| mmio_region(m));
    let mut j: usize = 0;
    while j < mmio.len()
        invariant
            j <= mmio.len(),
            mapped == mmio@.map_values(|m: (usize, usize)| mmio_region(m)),
            out@ == mid + mapped.take(j as int),
        decreases mmio.len() - j,
    {
        let (base, size) = mmio[j];
        out.push(MemRegion { paddr: base, size, flags: MMIO_FLAGS, name: "mmio" });
        j += 1;
        assert(mapped[j as int - 1] == mmio_region(mmio@[j as int - 1]));
        assert(mapped.take(j as int) == mapped.take(j as int - 1).push(mapped[j as int - 1]));
    }
    assert(mapped.take(j as int) == mapped);
    assert(out@ == head + free@ + mapped);
    Ok(out)
}


/// The marker in a machine name of boards that wake secondary cores
/// through a firmware spin table.
pub open spec fn spin_table_marker() -> Seq<char> {
    seq!['r', 'a', 's', 'p', 'i']
}

/// `name` holds the spin-table marker starting at `i`.
pub open spec fn marker_at(name: Seq<char>, i: int) -> bool {
    0 <= i && i + 5 <= name.len() && name.subrange(i, i + 5) =~= spin_table_marker()
}

/// Whether the board named `machine_name` by its device tree wakes its
/// secondary cores through a firmware spin table: its name contains "raspi".
pub fn uses_spin_table(machine_name: &str) -> (r: bool)
    ensures
        r <==> exists|i: int| #[trigger] marker_at(machine_name@, i),
{
    let n = machine_name.unicode_len();
    if n < 5 {
        assert forall|i: int| !#[trigger] marker_at(machine_name@, i) by {}
        return false;
    }
    let mut i: usize = 0;
    while i <= n - 5
        invariant
            n == machine_name@.len(),
            5 <= n,
            i <= n - 4,
            forall|k: int| 0 <= k < i ==> !#[trigger] marker_at(machine_name@, k),
        decreases n - i,
    {
        if machine_name.get_char(i) == 'r' && machine_name.get_char(i + 1) == 'a'
            && machine_name.get_char(i + 2) == 's' && machine_name.get_char(i + 3) == 'p'
            && machine_name.get_char(i + 4) == 'i' {
            assert(marker_at(machine_name@, i as int));
            return true;
        }
        assert(!marker_at(machine_name@, i as int)) by {
            let sub = machine_name@.subrange(i as int, i as int + 5);
            if sub =~= spin_table_marker() {
                assert(sub[0] == machine_name@[i as int]);
                assert(sub[1] == machine_name@[i as int + 1]);
                assert(sub[2] == machine_name@[i as int + 2]);
                assert(sub[3] == machine_name@[i as int + 3]);
                assert(sub[4] == machine_name@[i as int + 4]);
            }
        }
        i += 1;
    }
    assert forall|k: int| !#[trigger] marker_at(machine_name@, k) by {
        if 0 <= k < i {
        }
    }
    false
}

} // verus!
