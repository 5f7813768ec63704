use hv_boot::catalog::{
    common_memory_region_at, common_memory_regions_num, platform_regions, uses_spin_table,
    KernelLayout, MMIO_FLAGS, SPIN_TABLE_FLAGS,
};
use hv_boot::region::{
    fdt_region, free_regions, split_region, MemRegion, RegionError, FDT_FIX_SIZE, FLAG_READ,
    FLAG_RESERVED, FREE_RW,
};

fn free(paddr: usize, size: usize) -> MemRegion {
    MemRegion { paddr, size, flags: FREE_RW, name: "free memory" }
}

fn span(paddr: usize, size: usize) -> MemRegion {
    MemRegion { paddr, size, flags: FLAG_RESERVED, name: "span" }
}

#[test]
fn split_keeps_region_when_not_nested() {
    let r = free(0x4000_0000, 0x10_0000);
    // disjoint
    assert_eq!(split_region(r, &span(0x8000_0000, 0x1000)), Ok(vec![r]));
    // crossing the start
    assert_eq!(split_region(r, &span(0x3fff_f000, 0x2000)), Ok(vec![r]));
    // crossing the end
    assert_eq!(split_region(r, &span(0x400f_f000, 0x2000)), Ok(vec![r]));
}

#[test]
fn split_nested_keeps_both_fragments() {
    let r = free(0x4000_0000, 0x10_0000);
    let out = split_region(r, &span(0x4004_0000, 0x2_0000)).unwrap();
    assert_eq!(out, vec![free(0x4000_0000, 0x4_0000), free(0x4006_0000, 0xa_0000)]);
    let total: usize = out.iter().map(|m| m.size).sum();
    assert_eq!(total, 0x10_0000 - 0x2_0000);
}

#[test]
fn split_drops_small_head() {
    let r = free(0x4000_0000, 0x10_0000);
    let out = split_region(r, &span(0x4000_0800, 0x1000)).unwrap();
    assert_eq!(out, vec![free(0x4000_1800, 0x10_0000 - 0x1800)]);
}

#[test]
fn split_drops_small_tail() {
    let r = free(0x4000_0000, 0x10_0000);
    let out = split_region(r, &span(0x400f_e000, 0x1800)).unwrap();
    assert_eq!(out, vec![free(0x4000_0000, 0xf_e000)]);
}

#[test]
fn split_whole_region_is_an_error() {
    let r = free(0x4000_0000, 0x2000);
    assert_eq!(split_region(r, &span(0x4000_0000, 0x2000)), Err(RegionError::NoValidFragment));
    assert_eq!(split_region(r, &span(0x4000_0800, 0x1000)), Err(RegionError::NoValidFragment));
}

#[test]
fn fdt_region_rounds_up_to_a_page() {
    let r = fdt_region(0x4800_0010);
    assert_eq!(r.paddr, 0x4800_1000);
    assert_eq!(r.size, FDT_FIX_SIZE);
    assert_eq!(r.flags, FLAG_RESERVED | FLAG_READ);
    assert_eq!(r.name, "fdt reserved");
    assert_eq!(fdt_region(0x4800_0000).paddr, 0x4800_0000);
}

#[test]
fn free_regions_cut_kernel_and_fdt() {
    let nodes = vec![(0x4000_0000usize, 0x2000_0000usize), (0x8000_0000, 0)];
    let out = free_regions(&nodes, 0x4008_0000, 0x20_0000, 0x4800_0000).unwrap();
    assert_eq!(
        out,
        vec![
            free(0x4000_0000, 0x8_0000),
            free(0x4028_0000, 0x4800_0000 - 0x4028_0000),
            free(0x4810_0000, 0x6000_0000 - 0x4810_0000),
        ]
    );
    // every byte of the node is free, kernel or device tree, and nothing else
    let kernel = span(0x4008_0000, 0x20_0000);
    let fdt = span(0x4800_0000, FDT_FIX_SIZE);
    let mut pieces: Vec<(usize, usize)> = out.iter().map(|m| (m.paddr, m.paddr + m.size)).collect();
    pieces.push((kernel.paddr, kernel.paddr + kernel.size));
    pieces.push((fdt.paddr, fdt.paddr + fdt.size));
    pieces.sort();
    let mut at = 0x4000_0000usize;
    for (s, e) in pieces {
        assert_eq!(s, at);
        at = e;
    }
    assert_eq!(at, 0x6000_0000);
}

#[test]
fn free_regions_align_node_base() {
    let nodes = vec![(0x4000_0010usize, 0x1000_0000usize)];
    let out = free_regions(&nodes, 0x9000_0000, 0x1000, 0x9800_0000).unwrap();
    assert_eq!(out, vec![free(0x4000_1000, 0x1000_0000 - 0xff0)]);
    assert_eq!(out[0].paddr + out[0].size, 0x4000_0010 + 0x1000_0000);
}

#[test]
fn free_regions_unaligned_node_never_runs_past_its_end() {
    let nodes = vec![(0x4000_0001usize, 0x2000_0000usize)];
    let out = free_regions(&nodes, 0x9000_0000, 0x1000, 0x9800_0000).unwrap();
    assert_eq!(out, vec![free(0x4000_1000, 0x4000_0001 + 0x2000_0000 - 0x4000_1000)]);
}

#[test]
fn free_regions_skip_node_with_nothing_left() {
    let nodes = vec![(0x4000_0010usize, 0x800usize), (0x5000_0000, 0), (0x6000_0000, 0x1000)];
    let out = free_regions(&nodes, 0x9000_0000, 0x1000, 0x9800_0000).unwrap();
    assert_eq!(out, vec![free(0x6000_0000, 0x1000)]);
}

#[test]
fn free_regions_report_unrepresentable_layout() {
    let nodes = vec![(0x4000_0000usize, 0x2000usize)];
    assert_eq!(free_regions(&nodes, 0x4000_0000, 0x2000, 0x9000_0000), Err(RegionError::NoValidFragment));
}

fn layout() -> KernelLayout {
    KernelLayout {
        text: (0x4008_0000, 0x4010_0000),
        rodata: (0x4010_0000, 0x4012_0000),
        data: (0x4012_0000, 0x4013_0000),
        percpu: (0x4013_0000, 0x4013_1000),
        boot_stack: (0x4013_1000, 0x4015_1000),
        bss: (0x4015_1000, 0x4016_0000),
        guest: (0x4016_0000, 0x4100_0000),
    }
}

#[test]
fn common_regions_list_sections_then_every_mmio_range() {
    let mmio = vec![(0x0900_0000usize, 0x1000usize), (0x0800_0000, 0x2_0000)];
    assert_eq!(common_memory_regions_num(&mmio), 9);
    let text = common_memory_region_at(&layout(), &mmio, 0).unwrap();
    assert_eq!((text.paddr, text.size, text.name), (0x4008_0000, 0x8_0000, ".text"));
    let guest = common_memory_region_at(&layout(), &mmio, 6).unwrap();
    assert_eq!((guest.paddr, guest.size, guest.name), (0x4016_0000, 0x4100_0000 - 0x4016_0000, ".guest"));
    let first = common_memory_region_at(&layout(), &mmio, 7).unwrap();
    assert_eq!(first, MemRegion { paddr: 0x0900_0000, size: 0x1000, flags: MMIO_FLAGS, name: "mmio" });
    let second = common_memory_region_at(&layout(), &mmio, 8).unwrap();
    assert_eq!(second.paddr, 0x0800_0000);
    assert_eq!(common_memory_region_at(&layout(), &mmio, 9), None);
}

#[test]
fn platform_regions_order() {
    let nodes = vec![(0x4000_0000usize, 0x2000_0000usize)];
    let mmio = vec![(0x0900_0000usize, 0x1000usize)];
    let with = platform_regions(true, &nodes, 0x4008_0000, 0x20_0000, 0x4800_0000, &mmio).unwrap();
    assert_eq!(with.len(), 6);
    assert_eq!(with[0], MemRegion { paddr: 0, size: 0x1000, flags: SPIN_TABLE_FLAGS, name: "spintable" });
    assert_eq!(with[1].name, "fdt reserved");
    assert_eq!(with[5].name, "mmio");
    let without = platform_regions(false, &nodes, 0x4008_0000, 0x20_0000, 0x4800_0000, &mmio).unwrap();
    assert_eq!(without.len(), 5);
    assert_eq!(without[0].name, "fdt reserved");
}

#[test]
fn spin_table_boards_are_named_raspi() {
    assert!(uses_spin_table("raspi4b"));
    assert!(uses_spin_table("Raspberry Pi 4 Model B (raspi)"));
    assert!(!uses_spin_table("linux,dummy-virt"));
    assert!(!uses_spin_table("rasp"));
    assert!(!uses_spin_table(""));
}

#[test]
fn free_regions_overlap_nothing_reserved() {
    let nodes = vec![(0x4000_0800usize, 0x1000_0000usize), (0x8000_0000, 0x4000_0000)];
    let (kp, ks) = (0x4010_0000usize, 0x30_0000usize);
    let fdt = 0x9000_0000usize;
    let out = free_regions(&nodes, kp, ks, fdt).unwrap();
    assert_eq!(out.len(), 4);
    let apart = |a: (usize, usize), b: (usize, usize)| a.0 + a.1 <= b.0 || b.0 + b.1 <= a.0;
    for (i, r) in out.iter().enumerate() {
        assert!(apart((r.paddr, r.size), (kp, ks)));
        assert!(apart((r.paddr, r.size), (fdt, FDT_FIX_SIZE)));
        for s in &out[i + 1..] {
            assert!(apart((r.paddr, r.size), (s.paddr, s.size)));
        }
    }
    // usable part of each node is exactly free + kernel + device tree
    let free_bytes: usize = out.iter().map(|r| r.size).sum();
    assert_eq!(free_bytes + ks + FDT_FIX_SIZE, (0x1000_0000 - 0x800) + 0x4000_0000);
}
