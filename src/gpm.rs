use vstd::prelude::*;
use crate::boot_table::{MAP_EXECUTE, MAP_READ, MAP_USER, MAP_WRITE};

verus! {

/// Permissions of guest device windows.
pub const GUEST_DEVICE_FLAGS: usize = MAP_READ | MAP_WRITE | MAP_USER;
/// Permissions of guest RAM.
pub const GUEST_RAM_FLAGS: usize = MAP_READ | MAP_WRITE | MAP_EXECUTE | MAP_USER;

/// One stage-2 mapping: `size` bytes of guest-physical memory from `gpa`
/// onto host-physical memory from `hpa`.
#[derive(Clone, Copy, Debug, PartialEq, Eq, Structural)]
pub struct MapRequest {
    pub gpa: usize,
    pub hpa: usize,
    pub size: usize,
    pub flags: usize,
}

/// Why a mapping was refused.
#[derive(Clone, Copy, Debug, PartialEq, Eq, Structural)]
pub enum MappingError {
    /// Empty, not page-aligned, or running past the top of the address space.
    InvalidRange,
    /// Overlaps guest-physical memory that is already mapped.
    Overlap,
    /// The table has no room for another mapping.
    CapacityExhausted,
}

/// A physical `(base, size)` range reported by the device tree.
pub type DevRange = (usize, usize);

/// What the device tree tells about the guest's machine.
#[derive(Debug)]
pub struct MachineMeta {
    pub console: Vec<DevRange>,
    pub pcie: Option<DevRange>,
    pub flash: Vec<DevRange>,
    pub physical_memory_offset: usize,
    pub physical_memory_size: usize,
}

/// The board's fixed guest windows.
#[derive(Clone, Copy, Debug, PartialEq, Eq)]
pub struct GuestConfig {
    pub virtio: DevRange,
    pub gic: DevRange,
    /// Guest-physical address at which the guest kernel expects its image.
    pub kernel_base_paddr: usize,
}

impl MapRequest {
    /// Guest-physical byte `a` is mapped by this request.
    pub open spec fn holds(self, a: int) -> bool {
        self.gpa <= a < self.gpa + self.size
    }

    /// The guest-physical spans of the two requests share a byte.
    pub open spec fn overlaps(self, o: MapRequest) -> bool {
        self.gpa < o.gpa + o.size && o.gpa < self.gpa + self.size
    }

    /// Page-aligned, not empty, and within the address space on both sides.
    pub open spec fn valid(self) -> bool {
        &&& self.size > 0
        &&& self.gpa % 4096 == 0
        &&& self.hpa % 4096 == 0
        &&& self.size % 4096 == 0
        &&& self.gpa + self.size <= usize::MAX
        &&& self.hpa + self.size <= usize::MAX
    }
}

/// The mappings after `req` is added to `regions` in a table that holds at
/// most `capacity` of them.
pub open spec fn map_step(regions: Seq<MapRequest>, capacity: nat, req: MapRequest) -> Result<Seq<MapRequest>, MappingError> {
    if !req.valid() {
        Err(MappingError::InvalidRange)
    } else if exists|i: int| 0 <= i < regions.len() && (#[trigger] regions[i]).overlaps(req) {
        Err(MappingError::Overlap)
    } else if regions.len() >= capacity {
        Err(MappingError::CapacityExhausted)
    } else {
        Ok(regions.push(req))
    }
}

/// The mappings after each of `reqs` is added in order to an empty table,
/// or the first error.
pub open spec fn map_all(reqs: Seq<MapRequest>, capacity: nat) -> Result<Seq<MapRequest>, MappingError>
    decreases reqs.len(),
{
    if reqs.len() == 0 {
        Ok(Seq::empty())
    } else {
        match map_all(reqs.drop_last(), capacity) {
            Err(e) => Err(e),
            Ok(s) => map_step(s, capacity, reqs.last()),
        }
    }
}

/// Mappings that are each valid and pairwise disjoint.
pub open spec fn disjoint_valid(regions: Seq<MapRequest>) -> bool {
    &&& forall|i: int| 0 <= i < regions.len() ==> (#[trigger] regions[i]).valid()
    &&& forall|i: int, j: int| 0 <= i < regions.len() && 0 <= j < regions.len() && i != j
        ==> !(#[trigger] regions[i]).overlaps(#[trigger] regions[j])
}

/// A guest's stage-2 address space: the mappings made so far, in order.
#[derive(Debug)]
pub struct GuestMemoryMap {
    pub regions: Vec<MapRequest>,
    pub capacity: usize,
}

impl GuestMemoryMap {
    pub open spec fn wf(&self) -> bool {
        disjoint_valid(self.regions@) && self.regions@.len() <= self.capacity
    }

    /// An empty address space with room for `capacity` mappings.
    pub fn new(capacity: usize) -> (r: Self)
        ensures
            r.wf(),
            r.regions@ == Seq::<MapRequest>::empty(),
            r.capacity == capacity,
    {
        GuestMemoryMap { regions: Vec::new(), capacity }
    }

    /// Maps `size` bytes of guest-physical memory from `gpa` onto
    /// host-physical memory from `hpa` with permissions `flags`.
    pub fn map_region(&mut self, gpa: usize, hpa: usize, size: usize, flags: usize) -> (r: Result<(), MappingError>)
        requires
            old(self).wf(),
        ensures
            final(self).wf(),
            final(self).capacity == old(self).capacity,
            match map_step(old(self).regions@, old(self).capacity as nat, MapRequest { gpa, hpa, size, flags }) {
                Ok(s) => r is Ok && final(self).regions@ == s,
                Err(e) => r == Err::<(), MappingError>(e) && final(self).regions@ == old(self).regions@,
            },
    {
        let req = MapRequest { gpa, hpa, size, flags };
        if size == 0 || gpa % 4096 != 0 || hpa % 4096 != 0 || size % 4096 != 0
            || gpa > usize::MAX - size || hpa > usize::MAX - size {
            return Err(MappingError::InvalidRange);
        }
        let mut i: usize = 0;
        while i < self.regions.len()
            invariant
                i <= self.regions@.len(),
                req.valid(),
                req == (MapRequest { gpa, hpa, size, flags }),
                self.wf(),
                forall|k: int| 0 <= k < i ==> !(#[trigger] self.regions@[k]).overlaps(req),
            decreases self.regions@.len() - i,
        {
            let o = self.regions[i];
            assert(o.valid());
            if o.gpa < gpa + size && gpa < o.gpa + o.size {
                assert(self.regions@[i as int].overlaps(req));
                return Err(MappingError::Overlap);
            }
            i += 1;
        }
        if self.regions.len() >= self.capacity {
            return Err(MappingError::CapacityExhausted);
        }
        self.regions.push(req);
        proof {
            let s = self.regions@;
            assert forall|a: int, b: int| 0 <= a < s.len() && 0 <= b < s.len() && a != b
                implies !(#[trigger] s[a]).overlaps(#[trigger] s[b]) by {
                if a == s.len() - 1 {
                    assert(!s[b].overlaps(req));
                } else if b == s.len() - 1 {
                    assert(!s[a].overlaps(req));
                }
            }
        }
        Ok(())
    }

    /// The host-physical address and permissions that guest-physical
    /// address `gpa` translates to, or `None` where it is not mapped.
    pub fn translate(&self, gpa: usize) -> (r: Option<(usize, usize)>)
        requires
            self.wf(),
        ensures
            match r {
                Some((hpa, flags)) => exists|i: int| 0 <= i < self.regions@.len()
                    && (#[trigger] self.regions@[i]).holds(gpa as int)
                    && hpa == self.regions@[i].hpa + (gpa - self.regions@[i].gpa)
                    && flags == self.regions@[i].flags,
                None => forall|i: int| 0 <= i < self.regions@.len() ==> !(#[trigger] self.regions@[i]).holds(gpa as int),
            },
    {
        let mut i: usize = 0;
        while i < self.regions.len()
            invariant
                i <= self.regions@.len(),
                self.wf(),
                forall|k: int| 0 <= k < i ==> !(#[trigger] self.regions@[k]).holds(gpa as int),
            decreases self.regions@.len() - i,
        {
            let o = self.regions[i];
            assert(self.regions@[i as int].valid());
            if o.gpa <= gpa && gpa - o.gpa < o.size {
                return Some((o.hpa + (gpa - o.gpa), o.flags));
            }
            i += 1;
        }
        None
    }
}

/// The mappings a guest gets, in order: the virtio window, each console,
/// the interrupt-controller window, the PCIe window if there is one, each
/// flash region, guest RAM as an identity map, and guest RAM again at the
/// address where the guest kernel expects its image.
pub open spec fn gpm_plan(meta: MachineMeta, cfg: GuestConfig, kernel_entry: usize) -> Seq<MapRequest> {
    let dev = |r: DevRange| MapRequest { gpa: r.0, hpa: r.0, size: r.1, flags: GUEST_DEVICE_FLAGS };
    let pcie = match meta.pcie {
        Some(p) => seq![dev(p)],
        None => Seq::empty(),
    };
    seq![dev(cfg.virtio)]
        + meta.console@.map_values(dev)
        + seq![dev(cfg.gic)]
        + pcie
        + meta.flash@.map_values(dev)
        + seq![
            MapRequest { gpa: meta.physical_memory_offset, hpa: meta.physical_memory_offset, size: meta.physical_memory_size, flags: GUEST_RAM_FLAGS },
            MapRequest { gpa: cfg.kernel_base_paddr, hpa: kernel_entry, size: meta.physical_memory_size, flags: GUEST_RAM_FLAGS },
        ]
}

/// Result of mapping all of `reqs` into `m`, in order.
pub open spec fn map_onto(m: Seq<MapRequest>, capacity: nat, reqs: Seq<MapRequest>) -> Result<Seq<MapRequest>, MappingError>
    decreases reqs.len(),
{
    if reqs.len() == 0 {
        Ok(m)
    } else {
        match map_onto(m, capacity, reqs.drop_last()) {
            Err(e) => Err(e),
            Ok(s) => map_step(s, capacity, reqs.last()),
        }
    }
}

proof fn lemma_map_onto_empty(reqs: Seq<MapRequest>, capacity: nat)
    ensures
        map_onto(Seq::empty(), capacity, reqs) == map_all(reqs, capacity),
    decreases reqs.len(),
{
    if reqs.len() > 0 {
        lemma_map_onto_empty(reqs.drop_last(), capacity);
    }
}

/// Maps each of `reqs` in order, stopping at the first error.
fn map_each(m: &mut GuestMemoryMap, reqs: &Vec<MapRequest>) -> (r: Result<(), MappingError>)
    requires
        old(m).wf(),
    ensures
        final(m).wf(),
        final(m).capacity == old(m).capacity,
        match map_onto(old(m).regions@, old(m).capacity as nat, reqs@) {
            Ok(s) => r is Ok && final(m).regions@ == s,
            Err(e) => r == Err::<(), MappingError>(e),
        },
{
    let mut i: usize = 0;
    while i < reqs.len()
        invariant
            i <= reqs@.len(),
            m.wf(),
            m.capacity == old(m).capacity,
            map_onto(old(m).regions@, old(m).capacity as nat, reqs@.take(i as int)) == Ok::<Seq<MapRequest>, MappingError>(m.regions@),
        decreases reqs@.len() - i,
    {
        let q = reqs[i];
        assert(reqs@.take(i as int + 1).drop_last() == reqs@.take(i as int));
        match m.map_region(q.gpa, q.hpa, q.size, q.flags) {
            Err(e) => {
                proof { lemma_map_onto_err_extends(old(m).regions@, old(m).capacity as nat, reqs@, i as int + 1); }
                return Err(e);
            },
            Ok(()) => {},
        }
        i += 1;
    }
    assert(reqs@.take(i as int) == reqs@);
    Ok(())
}

proof fn lemma_map_onto_err_extends(m: Seq<MapRequest>, capacity: nat, reqs: Seq<MapRequest>, n: int)
    requires
        0 < n <= reqs.len(),
        map_onto(m, capacity, reqs.take(n)) is Err,
    ensures
        map_onto(m, capacity, reqs) == map_onto(m, capacity, reqs.take(n)),
    decreases reqs.len() - n,
{
    if n < reqs.len() {
        assert(reqs.take(n + 1).drop_last() == reqs.take(n));
        lemma_map_onto_err_extends(m, capacity, reqs, n + 1);
    } else {
        assert(reqs.take(n) == reqs);
    }
}

/// The mapping requests of `setup_gpm`, in the order they are made.
pub fn gpm_requests(meta: &MachineMeta, cfg: &GuestConfig, kernel_entry: usize) -> (r: Vec<MapRequest>)
    ensures
        r@ == gpm_plan(*meta, *cfg, kernel_entry),
{
    let mut out: Vec<MapRequest> = Vec::new();
    out.push(MapRequest { gpa: cfg.virtio.0, hpa: cfg.virtio.0, size: cfg.virtio.1, flags: GUEST_DEVICE_FLAGS });
    let ghost dev = |r: DevRange| MapRequest { gpa: r.0, hpa: r.0, size: r.1, flags: GUEST_DEVICE_FLAGS };
    push_devices(&mut out, &meta.console);
    out.push(MapRequest { gpa: cfg.gic.0, hpa: cfg.gic.0, size: cfg.gic.1, flags: GUEST_DEVICE_FLAGS });
    if let Some(p) = meta.pcie {
        out.push(MapRequest { gpa: p.0, hpa: p.0, size: p.1, flags: GUEST_DEVICE_FLAGS });
    }
    push_devices(&mut out, &meta.flash);
    out.push(MapRequest { gpa: meta.physical_memory_offset, hpa: meta.physical_memory_offset, size: meta.physical_memory_size, flags: GUEST_RAM_FLAGS });
    out.push(MapRequest { gpa: cfg.kernel_base_paddr, hpa: kernel_entry, size: meta.physical_memory_size, flags: GUEST_RAM_FLAGS });
    let ghost pcie = match meta.pcie {
        Some(p) => seq![dev(p)],
        None => Seq::<MapRequest>::empty(),
    };
    assert(out@ == seq![dev(cfg.virtio)] + meta.console@.map_values(dev) + seq![dev(cfg.gic)] + pcie
        + meta.flash@.map_values(dev) + seq![
            MapRequest { gpa: meta.physical_memory_offset, hpa: meta.physical_memory_offset, size: meta.physical_memory_size, flags: GUEST_RAM_FLAGS },
            MapRequest { gpa: cfg.kernel_base_paddr, hpa: kernel_entry, size: meta.physical_memory_size, flags: GUEST_RAM_FLAGS },
        ]);
    out
}

/// Appends an identity device mapping for each of `ranges`.
fn push_devices(out: &mut Vec<MapRequest>, ranges: &Vec<DevRange>)
    ensures
        final(out)@ == old(out)@ + ranges@.map_values(|r: DevRange| MapRequest { gpa: r.0, hpa: r.0, size: r.1, flags: GUEST_DEVICE_FLAGS }),
{
    let ghost mapped = ranges@.map_values(|r: DevRange| MapRequest { gpa: r.0, hpa: r.0, size: r.1, flags: GUEST_DEVICE_FLAGS });
    let ghost start = out@;
    let mut i: usize = 0;
    while i < ranges.len()
        invariant
            i <= ranges@.len(),
            mapped == ranges@.map_values(|r: DevRange| MapRequest { gpa: r.0, hpa: r.0, size: r.1, flags: GUEST_DEVICE_FLAGS }),
            out@ == start + mapped.take(i as int),
        decreases ranges@.len() - i,
    {
        let (base, size) = ranges[i];
        out.push(MapRequest { gpa: base, hpa: base, size, flags: GUEST_DEVICE_FLAGS });
        i += 1;
        assert(mapped[i as int - 1] == MapRequest { gpa: base, hpa: base, size, flags: GUEST_DEVICE_FLAGS });
        assert(mapped.take(i as int) == mapped.take(i as int - 1).push(mapped[i as int - 1]));
    }
    assert(mapped.take(i as int) == mapped);
}

/// Builds a guest's stage-2 address space in a table with room for
/// `capacity` mappings: every mapping of `gpm_plan` is made in order, and
/// the first one that fails fails the whole construction, so no partly
/// built address space is ever returned.
pub fn setup_gpm(meta: &MachineMeta, cfg: &GuestConfig, kernel_entry: usize, capacity: usize) -> (r: Result<GuestMemoryMap, MappingError>)
    ensures
        match map_all(gpm_plan(*meta, *cfg, kernel_entry), capacity as nat) {
            Ok(s) => r is Ok && r->Ok_0.wf() && r->Ok_0.regions@ == s,
            Err(e) => r == Err::<GuestMemoryMap, MappingError>(e),
        },
{
    let reqs = gpm_requests(meta, cfg, kernel_entry);
    let mut gpt = GuestMemoryMap::new(capacity);
    proof { lemma_map_onto_empty(reqs@, capacity as nat); }
    match map_each(&mut gpt, &reqs) {
        Err(e) => Err(e),
        Ok(()) => Ok(gpt),
    }
}

/// Construction is all or nothing: where it succeeds, the address space
/// holds exactly the planned mappings, and where any single mapping fails,
/// the construction fails with that mapping's error.
pub proof fn lemma_map_all_atomic(reqs: Seq<MapRequest>, capacity: nat)
    ensures
        map_all(reqs, capacity) is Ok ==> map_all(reqs, capacity)->Ok_0 == reqs,
        map_all(reqs, capacity) is Err ==> exists|n: int| 0 <= n < reqs.len()
            && #[trigger] map_all(reqs.take(n), capacity) is Ok
            && map_step(map_all(reqs.take(n), capacity)->Ok_0, capacity, reqs[n]) == map_all(reqs, capacity),
    decreases reqs.len(),
{
    if reqs.len() > 0 {
        let init = reqs.drop_last();
        lemma_map_all_atomic(init, capacity);
        if map_all(init, capacity) is Err {
            let n = choose|n: int| 0 <= n < init.len()
                && #[trigger] map_all(init.take(n), capacity) is Ok
                && map_step(map_all(init.take(n), capacity)->Ok_0, capacity, init[n]) == map_all(init, capacity);
            assert(init.take(n) == reqs.take(n));
        } else {
            assert(reqs.take(reqs.len() - 1) == init);
            if map_all(reqs, capacity) is Ok {
                assert(init.push(reqs.last()) == reqs);
            }
        }
    }
}


/// Building a guest's address space is all or nothing. Where every mapping
/// of the plan succeeds, `setup_gpm` returns a table holding exactly the
/// planned mappings. Where the mapping at some position `n` fails, all
/// mappings before it having succeeded, `setup_gpm` returns that mapping's
/// error and no table, so none of the invocation's mappings, made before
/// `n` or planned after it, can be observed afterwards.
pub proof fn lemma_setup_gpm_all_or_nothing(meta: MachineMeta, cfg: GuestConfig, kernel_entry: usize, capacity: usize)
    ensures
        ({
            let plan = gpm_plan(meta, cfg, kernel_entry);
            &&& map_all(plan, capacity as nat) is Ok ==> map_all(plan, capacity as nat)->Ok_0 == plan
            &&& map_all(plan, capacity as nat) is Err ==> exists|n: int| 0 <= n < plan.len()
                && #[trigger] map_all(plan.take(n), capacity as nat) is Ok
                && map_step(map_all(plan.take(n), capacity as nat)->Ok_0, capacity as nat, plan[n]) == map_all(plan, capacity as nat)
        }),
{
    lemma_map_all_atomic(gpm_plan(meta, cfg, kernel_entry), capacity as nat);
}

} // verus!
