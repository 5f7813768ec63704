use vstd::prelude::*;
use crate::boot_table::{in_boot_range, BootPageTable};

verus! {

/// One step of a core's low-level entry, performed by the platform layer.
#[derive(Clone, Copy, Debug, PartialEq, Eq, Structural)]
pub enum EntryStep {
    ClearBss,
    SetExceptionVectors,
    InitPrimaryCpu { cpu_id: usize },
    InitSecondaryCpu { cpu_id: usize },
    /// Identity-map, as device memory, the gigabyte holding `paddr`.
    IdmapDevice { paddr: usize },
    /// Hand the device tree at `dtb` to the device-tree reader.
    InitFdt { dtb: usize },
    /// Identity-map the base of every memory node the device tree reports.
    IdmapMemoryNodes,
    ConsoleEarly,
    TimeEarly,
    /// Turn off translation through the low-half root.
    DisableLowHalf,
    EnterMain { cpu_id: usize, dtb: usize },
    EnterSecondaryMain { cpu_id: usize },
}

/// One step of enabling stage-1 translation at an exception level.
#[derive(Clone, Copy, Debug, PartialEq, Eq, Structural)]
pub enum MmuStep {
    /// Identity-map, as device memory, the gigabyte holding `paddr`.
    IdmapDevice { paddr: usize },
    /// Run the lower exception level in 64-bit state.
    SetLowerElAarch64,
    /// Program the memory-attribute register.
    WriteMair,
    /// Program the translation-control register.
    WriteTcr,
    /// Instruction-synchronization barrier.
    Isb,
    /// Install the boot table as the low-half root.
    SetRootLow,
    /// Install the boot table as the high-half root.
    SetRootHigh,
    /// Invalidate the whole TLB.
    FlushTlb,
    /// Turn on translation and both caches.
    EnableMmu,
}

/// One step of a core's device initialization.
#[derive(Clone, Copy, Debug, PartialEq, Eq, Structural)]
pub enum InitStep {
    GicPrimary,
    GicSecondary,
    TimerPerCpu,
    ConsoleIrq,
}

/// What a secondary core does after looking at the primary core's ready flag.
#[derive(Clone, Copy, Debug, PartialEq, Eq, Structural)]
pub enum SpinAction {
    /// Not ready yet: spin with a low-power hint and look again.
    Spin,
    /// VM 0 and its virtual CPU 0 are published: go on.
    Proceed,
}

/// The entry sequence of the primary core `cpu_id` booted with the device
/// tree at `dtb`.
pub open spec fn primary_entry_spec(cpu_id: usize, dtb: usize) -> Seq<EntryStep> {
    seq![
        EntryStep::ClearBss,
        EntryStep::SetExceptionVectors,
        EntryStep::InitPrimaryCpu { cpu_id },
        EntryStep::IdmapDevice { paddr: dtb },
        EntryStep::InitFdt { dtb },
        EntryStep::IdmapMemoryNodes,
        EntryStep::ConsoleEarly,
        EntryStep::TimeEarly,
        EntryStep::DisableLowHalf,
        EntryStep::EnterMain { cpu_id, dtb },
    ]
}

/// The entry sequence of the primary core: clear bss, install the exception
/// vectors, set up per-core state, map the device tree and then every memory
/// node so they can be read, start the console and the clock, turn off the
/// low half and enter the hypervisor.
pub fn rust_entry(cpu_id: usize, dtb: usize) -> (r: Vec<EntryStep>)
    ensures
        r@ == primary_entry_spec(cpu_id, dtb),
{
    let r = vec![
        EntryStep::ClearBss,
        EntryStep::SetExceptionVectors,
        EntryStep::InitPrimaryCpu { cpu_id },
        EntryStep::IdmapDevice { paddr: dtb },
        EntryStep::InitFdt { dtb },
        EntryStep::IdmapMemoryNodes,
        EntryStep::ConsoleEarly,
        EntryStep::TimeEarly,
        EntryStep::DisableLowHalf,
        EntryStep::EnterMain { cpu_id, dtb },
    ];
    assert(r@ =~= primary_entry_spec(cpu_id, dtb));
    r
}

/// The entry sequence of secondary core `cpu_id`.
pub fn rust_entry_secondary(cpu_id: usize) -> (r: Vec<EntryStep>)
    ensures
        r@ == seq![
            EntryStep::SetExceptionVectors,
            EntryStep::DisableLowHalf,
            EntryStep::InitSecondaryCpu { cpu_id },
            EntryStep::EnterSecondaryMain { cpu_id },
        ],
{
    let r = vec![
        EntryStep::SetExceptionVectors,
        EntryStep::DisableLowHalf,
        EntryStep::InitSecondaryCpu { cpu_id },
        EntryStep::EnterSecondaryMain { cpu_id },
    ];
    assert(r@ =~= seq![
        EntryStep::SetExceptionVectors,
        EntryStep::DisableLowHalf,
        EntryStep::InitSecondaryCpu { cpu_id },
        EntryStep::EnterSecondaryMain { cpu_id },
    ]);
    r
}

/// The second level after `idmap_device` of each of `addrs` in order.
pub open spec fn device_mapped_all(l1: Seq<crate::boot_table::BootEntry>, addrs: Seq<usize>) -> Seq<crate::boot_table::BootEntry>
    decreases addrs.len(),
{
    if addrs.len() == 0 {
        l1
    } else {
        BootPageTable::device_mapped(device_mapped_all(l1, addrs.drop_last()), addrs.last())
    }
}

/// Identity-maps the gigabyte of each memory node's base, as device memory,
/// so the device tree's reader can reach physical memory before the
/// allocator exists.
pub fn idmap_memory_nodes(table: &mut BootPageTable, bases: &Vec<usize>)
    requires
        old(table).wf(),
        forall|i: int| 0 <= i < bases@.len() ==> in_boot_range(#[trigger] bases@[i]),
    ensures
        final(table).wf(),
        final(table).l1_paddr == old(table).l1_paddr,
        final(table).l0@ == old(table).l0@,
        final(table).l1@ == device_mapped_all(old(table).l1@, bases@),
{
    let mut i: usize = 0;
    while i < bases.len()
        invariant
            i <= bases@.len(),
            table.wf(),
            table.l1_paddr == old(table).l1_paddr,
            table.l0@ == old(table).l0@,
            table.l1@ == device_mapped_all(old(table).l1@, bases@.take(i as int)),
            forall|k: int| 0 <= k < bases@.len() ==> in_boot_range(#[trigger] bases@[k]),
        decreases bases@.len() - i,
    {
        assert(bases@.take(i as int + 1).drop_last() == bases@.take(i as int));
        table.idmap_device(bases[i]);
        i += 1;
    }
    assert(bases@.take(i as int) == bases@);
}

/// Enables translation at EL1 through the boot table: attributes, control,
/// a barrier, both roots, a TLB flush, then the enable bit and a barrier.
pub fn init_mmu() -> (r: Vec<MmuStep>)
    ensures
        r@ == seq![
            MmuStep::WriteMair, MmuStep::WriteTcr, MmuStep::Isb, MmuStep::SetRootLow,
            MmuStep::SetRootHigh, MmuStep::FlushTlb, MmuStep::EnableMmu, MmuStep::Isb,
        ],
{
    let r = vec![
        MmuStep::WriteMair, MmuStep::WriteTcr, MmuStep::Isb, MmuStep::SetRootLow,
        MmuStep::SetRootHigh, MmuStep::FlushTlb, MmuStep::EnableMmu, MmuStep::Isb,
    ];
    assert(r@ =~= seq![
        MmuStep::WriteMair, MmuStep::WriteTcr, MmuStep::Isb, MmuStep::SetRootLow,
        MmuStep::SetRootHigh, MmuStep::FlushTlb, MmuStep::EnableMmu, MmuStep::Isb,
    ]);
    r
}

/// Enables translation at EL2 through the boot table, after mapping the
/// early console at `uart_paddr` and running EL1 in 64-bit state; EL2 has
/// a low-half root only.
pub fn init_mmu_el2(uart_paddr: usize) -> (r: Vec<MmuStep>)
    ensures
        r@ == seq![
            MmuStep::IdmapDevice { paddr: uart_paddr }, MmuStep::SetLowerElAarch64,
            MmuStep::WriteMair, MmuStep::WriteTcr, MmuStep::Isb, MmuStep::SetRootLow,
            MmuStep::FlushTlb, MmuStep::EnableMmu, MmuStep::Isb,
        ],
{
    let r = vec![
        MmuStep::IdmapDevice { paddr: uart_paddr }, MmuStep::SetLowerElAarch64,
        MmuStep::WriteMair, MmuStep::WriteTcr, MmuStep::Isb, MmuStep::SetRootLow,
        MmuStep::FlushTlb, MmuStep::EnableMmu, MmuStep::Isb,
    ];
    assert(r@ =~= seq![
        MmuStep::IdmapDevice { paddr: uart_paddr }, MmuStep::SetLowerElAarch64,
        MmuStep::WriteMair, MmuStep::WriteTcr, MmuStep::Isb, MmuStep::SetRootLow,
        MmuStep::FlushTlb, MmuStep::EnableMmu, MmuStep::Isb,
    ]);
    r
}

/// Device initialization of the primary core: the interrupt controller
/// where interrupts are on, the per-core timer, then the console's
/// interrupt where interrupts are on.
pub fn platform_init(irq: bool) -> (r: Vec<InitStep>)
    ensures
        r@ == (if irq { seq![InitStep::GicPrimary] } else { Seq::empty() })
            + seq![InitStep::TimerPerCpu]
            + (if irq { seq![InitStep::ConsoleIrq] } else { Seq::empty() }),
{
    let mut r: Vec<InitStep> = Vec::new();
    if irq {
        r.push(InitStep::GicPrimary);
    }
    r.push(InitStep::TimerPerCpu);
    if irq {
        r.push(InitStep::ConsoleIrq);
    }
    assert(r@ =~= (if irq { seq![InitStep::GicPrimary] } else { Seq::empty() })
        + seq![InitStep::TimerPerCpu]
        + (if irq { seq![InitStep::ConsoleIrq] } else { Seq::empty() }));
    r
}

/// Device initialization of a secondary core: its interrupt-controller
/// interface where interrupts are on, then its timer.
pub fn platform_init_secondary(irq: bool) -> (r: Vec<InitStep>)
    ensures
        r@ == (if irq { seq![InitStep::GicSecondary] } else { Seq::empty() }) + seq![InitStep::TimerPerCpu],
{
    let mut r: Vec<InitStep> = Vec::new();
    if irq {
        r.push(InitStep::GicSecondary);
    }
    r.push(InitStep::TimerPerCpu);
    assert(r@ =~= (if irq { seq![InitStep::GicSecondary] } else { Seq::empty() }) + seq![InitStep::TimerPerCpu]);
    r
}

/// A secondary core goes on only once the primary core has published VM 0
/// and its virtual CPU 0; until then it spins.
pub fn secondary_vm(primary_ready: bool) -> (r: SpinAction)
    ensures
        primary_ready <==> r == SpinAction::Proceed,
        !primary_ready <==> r == SpinAction::Spin,
{
    if primary_ready { SpinAction::Proceed } else { SpinAction::Spin }
}

} // verus!
