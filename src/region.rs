use vstd::prelude::*;

verus! {

/// Size of one small page.
pub const PAGE_SIZE_4K: usize = 0x1000;

/// Region flag: readable.
pub const FLAG_READ: usize = 1;
/// Region flag: writable.
pub const FLAG_WRITE: usize = 2;
/// Region flag: executable.
pub const FLAG_EXECUTE: usize = 4;
/// Region flag: device memory.
pub const FLAG_DEVICE: usize = 16;
/// Region flag: reserved, never handed to the allocator.
pub const FLAG_RESERVED: usize = 64;
/// Region flag: free, handed to the allocator.
pub const FLAG_FREE: usize = 128;

/// Flags of every free fragment.
pub const FREE_RW: usize = FLAG_FREE | FLAG_READ | FLAG_WRITE;

/// A span of physical memory with its attributes.
#[derive(Clone, Copy, Debug, PartialEq, Eq)]
pub struct MemRegion {
    pub paddr: usize,
    pub size: usize,
    pub flags: usize,
    pub name: &'static str,
}

/// Why a catalog could not be built.
#[derive(Clone, Copy, Debug, PartialEq, Eq, Structural)]
pub enum RegionError {
    /// Both fragments left around a reserved span are smaller than a page:
    /// the firmware layout cannot be represented at page granularity.
    NoValidFragment,
}

impl MemRegion {
    /// First byte past the region.
    pub open spec fn end(self) -> int {
        self.paddr + self.size
    }

    /// The region's end is representable.
    pub open spec fn fits(self) -> bool {
        self.paddr + self.size <= usize::MAX
    }

    /// Byte `a` lies in the region.
    pub open spec fn holds(self, a: int) -> bool {
        self.paddr <= a < self.end()
    }

    /// `inner` lies wholly within `self`.
    pub open spec fn nests(self, inner: MemRegion) -> bool {
        self.paddr <= inner.paddr && inner.end() <= self.end()
    }
}

/// The smallest multiple of 4 KiB at or above `a`.
pub open spec fn align_up_4k_spec(a: int) -> int {
    ((a + 4095) / 4096) * 4096
}

/// Relies on memory_addr::align_up_4k, which rounds up to the next 4 KiB
/// boundary and overflows past the top of the address space.
#[verifier::external_body]
pub(crate) fn align_up_4k(addr: usize) -> (r: usize)
    requires
        addr + 4095 <= usize::MAX,
    ensures
        r == align_up_4k_spec(addr as int),
{
    memory_addr::align_up_4k(addr)
}

/// A free fragment `[start, end)` named after the region it was cut from.
pub open spec fn fragment(start: int, end: int, name: &'static str) -> MemRegion {
    MemRegion { paddr: start as usize, size: (end - start) as usize, flags: FREE_RW, name }
}

/// What is left of `region` once `excluded` is taken out of it.
pub open spec fn split_spec(region: MemRegion, excluded: MemRegion) -> Result<Seq<MemRegion>, RegionError> {
    if region.nests(excluded) {
        let head = fragment(region.paddr as int, excluded.paddr as int, region.name);
        let tail = fragment(excluded.end(), region.end(), region.name);
        if head.size < PAGE_SIZE_4K && tail.size < PAGE_SIZE_4K {
            Err(RegionError::NoValidFragment)
        } else if head.size < PAGE_SIZE_4K {
            Ok(seq![tail])
        } else if tail.size < PAGE_SIZE_4K {
            Ok(seq![head])
        } else {
            Ok(seq![head, tail])
        }
    } else {
        Ok(seq![region])
    }
}

/// Takes `excluded` out of `region`. Where `excluded` lies wholly inside
/// `region`, the part before it and the part after it remain as free
/// fragments, a fragment under one page is dropped, and a region that would
/// leave nothing but sub-page fragments is an error. Any other `excluded`
/// leaves `region` as it is.
pub fn split_region(region: MemRegion, excluded: &MemRegion) -> (r: Result<Vec<MemRegion>, RegionError>)
    requires
        region.fits(),
        excluded.fits(),
    ensures
        match (r, split_spec(region, *excluded)) {
            (Ok(v), Ok(s)) => v@ == s,
            (Err(e), Err(f)) => e == f,
            _ => false,
        },
{
    let start1 = region.paddr;
    let end1 = region.paddr + region.size;
    let start2 = excluded.paddr;
    let end2 = excluded.paddr + excluded.size;
    if start1 <= start2 && end1 >= end2 {
        let head = MemRegion { paddr: start1, size: start2 - start1, flags: FREE_RW, name: region.name };
        let tail = MemRegion { paddr: end2, size: end1 - end2, flags: FREE_RW, name: region.name };
        if head.size < PAGE_SIZE_4K && tail.size < PAGE_SIZE_4K {
            Err(RegionError::NoValidFragment)
        } else if head.size < PAGE_SIZE_4K {
            Ok(vec![tail])
        } else if tail.size < PAGE_SIZE_4K {
            Ok(vec![head])
        } else {
            Ok(vec![head, tail])
        }
    } else {
        Ok(vec![region])
    }
}


/// Size of the span reserved for the device-tree blob, larger than the blob
/// to leave room for relocation and edits.
pub const FDT_FIX_SIZE: usize = 0x10_0000;

/// The region reserved for the device tree at physical address `fdt_paddr`.
pub open spec fn fdt_region_spec(fdt_paddr: usize) -> MemRegion {
    MemRegion {
        paddr: align_up_4k_spec(fdt_paddr as int) as usize,
        size: FDT_FIX_SIZE,
        flags: FLAG_RESERVED | FLAG_READ,
        name: "fdt reserved",
    }
}

/// The device tree's reserved region: 1 MiB from the page that holds the
/// blob's first byte, rounded up to a page boundary.
pub fn fdt_region(fdt_paddr: usize) -> (r: MemRegion)
    requires
        fdt_paddr + 4095 + FDT_FIX_SIZE <= usize::MAX,
    ensures
        r == fdt_region_spec(fdt_paddr),
        r.fits(),
{
    MemRegion {
        paddr: align_up_4k(fdt_paddr),
        size: FDT_FIX_SIZE,
        flags: FLAG_RESERVED | FLAG_READ,
        name: "fdt reserved",
    }
}

/// The region of the kernel image, which starts at `paddr` rounded up to a page.
pub open spec fn kernel_region_spec(paddr: usize, size: usize) -> MemRegion {
    MemRegion { paddr: align_up_4k_spec(paddr as int) as usize, size, flags: FLAG_FREE, name: "kernel memory" }
}

/// A firmware memory node, `size` bytes from `base`, can be cataloged
/// without leaving the address space.
pub open spec fn node_fits(base: usize, size: usize) -> bool {
    base + 4095 + size <= usize::MAX
}

/// First byte of a memory node that the allocator may use: the node's base
/// rounded up to a page, which shrinks the node where its base is unaligned.
pub open spec fn usable_start(base: usize) -> int {
    align_up_4k_spec(base as int)
}

/// Byte `a` lies in the usable part `[usable_start(base), base + size)` of
/// the memory node `node == (base, size)`.
pub open spec fn node_holds(node: (usize, usize), a: int) -> bool {
    usable_start(node.0) <= a < node.0 + node.1
}

/// Something is left of the memory node once its base is rounded up.
pub open spec fn node_usable(base: usize, size: usize) -> bool {
    usable_start(base) < base + size
}

/// The free region that stands for a firmware memory node: from its base
/// rounded up to a page to its end.
pub open spec fn node_region(base: usize, size: usize) -> MemRegion {
    MemRegion {
        paddr: usable_start(base) as usize,
        size: (base + size - usable_start(base)) as usize,
        flags: FREE_RW,
        name: "free memory",
    }
}

/// The free regions of the nodes that keep some memory once rounded, in order.
pub open spec fn node_regions(nodes: Seq<(usize, usize)>) -> Seq<MemRegion>
    decreases nodes.len(),
{
    if nodes.len() == 0 {
        Seq::empty()
    } else {
        let rest = node_regions(nodes.drop_last());
        let (base, size) = nodes.last();
        if node_usable(base, size) { rest.push(node_region(base, size)) } else { rest }
    }
}

/// Rounding up to a page moves an address by less than a page, onto a
/// page boundary.
pub proof fn lemma_align_up_bounds(a: int)
    requires
        0 <= a,
    ensures
        a <= align_up_4k_spec(a) < a + 4096,
        align_up_4k_spec(a) % 4096 == 0,
{
    let q = (a + 4095) / 4096;
    let r = (a + 4095) % 4096;
    assert(q * 4096 + r == a + 4095 && 0 <= r < 4096) by (nonlinear_arith)
        requires q == (a + 4095) / 4096, r == (a + 4095) % 4096, a >= 0;
    assert((q * 4096) % 4096 == 0) by (nonlinear_arith);
}

/// Each region of `rs` with `excluded` taken out, in order; an error if
/// any of them fails.
pub open spec fn split_all(rs: Seq<MemRegion>, excluded: MemRegion) -> Result<Seq<MemRegion>, RegionError>
    decreases rs.len(),
{
    if rs.len() == 0 {
        Ok(Seq::empty())
    } else {
        match split_all(rs.drop_last(), excluded) {
            Err(e) => Err(e),
            Ok(s) => match split_spec(rs.last(), excluded) {
                Err(e) => Err(e),
                Ok(t) => Ok(s + t),
            },
        }
    }
}

/// The free memory: every non-empty node, less the kernel image, less the
/// device tree's reserved span.
pub open spec fn free_regions_spec(nodes: Seq<(usize, usize)>, kernel: MemRegion, fdt: MemRegion) -> Result<Seq<MemRegion>, RegionError> {
    match split_all(node_regions(nodes), kernel) {
        Err(e) => Err(e),
        Ok(s) => split_all(s, fdt),
    }
}

/// Every region of `rs` has a representable end.
pub open spec fn all_fit(rs: Seq<MemRegion>) -> bool {
    forall|i: int| 0 <= i < rs.len() ==> #[trigger] rs[i].fits()
}

proof fn lemma_split_fits(region: MemRegion, excluded: MemRegion)
    requires
        region.fits(),
    ensures
        split_spec(region, excluded) is Ok ==> all_fit(split_spec(region, excluded)->Ok_0),
{
}

/// Takes `excluded` out of each of `rs` in turn.
fn split_each(rs: &Vec<MemRegion>, excluded: &MemRegion) -> (r: Result<Vec<MemRegion>, RegionError>)
    requires
        all_fit(rs@),
        excluded.fits(),
    ensures
        match (r, split_all(rs@, *excluded)) {
            (Ok(v), Ok(s)) => v@ == s && all_fit(s),
            (Err(e), Err(f)) => e == f,
            _ => false,
        },
{
    let mut out: Vec<MemRegion> = Vec::new();
    let mut i: usize = 0;
    while i < rs.len()
        invariant
            i <= rs.len(),
            all_fit(rs@),
            excluded.fits(),
            split_all(rs@.take(i as int), *excluded) == Ok::<Seq<MemRegion>, RegionError>(out@),
            all_fit(out@),
        decreases rs.len() - i,
    {
        assert(rs@.take(i as int + 1).drop_last() == rs@.take(i as int));
        proof { lemma_split_fits(rs@[i as int], *excluded); }
        let parts = split_region(rs[i], excluded);
        match parts {
            Err(e) => {
                proof { lemma_split_all_err_extends(rs@, *excluded, i as int + 1); }
                return Err(e);
            },
            Ok(parts) => {
                let mut j: usize = 0;
                let ghost before = out@;
                while j < parts.len()
                    invariant
                        j <= parts.len(),
                        out@ == before + parts@.take(j as int),
                        all_fit(before),
                        all_fit(parts@),
                    decreases parts.len() - j,
                {
                    out.push(parts[j]);
                    j += 1;
                    assert(parts@.take(j as int) == parts@.take(j as int - 1).push(parts@[j as int - 1]));
                }
                assert(parts@.take(j as int) == parts@);
            },
        }
        i += 1;
    }
    assert(rs@.take(i as int) == rs@);
    Ok(out)
}

proof fn lemma_split_all_err_extends(rs: Seq<MemRegion>, excluded: MemRegion, n: int)
    requires
        0 < n <= rs.len(),
        split_all(rs.take(n), excluded) is Err,
    ensures
        split_all(rs, excluded) is Err,
    decreases rs.len() - n,
{
    if n < rs.len() {
        assert(rs.take(n + 1).drop_last() == rs.take(n));
        lemma_split_all_err_extends(rs, excluded, n + 1);
    } else {
        assert(rs.take(n) == rs);
    }
}

/// Free memory for the allocator: each firmware memory node, given as
/// `(base, size)`, becomes a free region from its base rounded up to a page
/// to its end (none where nothing is left), and the kernel image (`kernel_size` bytes from
/// `kernel_paddr`, rounded up likewise) and the device tree's reserved span
/// are taken out of them in that order.
pub fn free_regions(nodes: &Vec<(usize, usize)>, kernel_paddr: usize, kernel_size: usize, fdt_paddr: usize) -> (r: Result<Vec<MemRegion>, RegionError>)
    requires
        forall|i: int| 0 <= i < nodes@.len() ==> node_fits(#[trigger] nodes@[i].0, nodes@[i].1),
        node_fits(kernel_paddr, kernel_size),
        node_fits(fdt_paddr, FDT_FIX_SIZE),
    ensures
        match (r, free_regions_spec(nodes@, kernel_region_spec(kernel_paddr, kernel_size), fdt_region_spec(fdt_paddr))) {
            (Ok(v), Ok(s)) => v@ == s,
            (Err(e), Err(f)) => e == f,
            _ => false,
        },
{
    let mut all_mem: Vec<MemRegion> = Vec::new();
    let mut i: usize = 0;
    while i < nodes.len()
        invariant
            i <= nodes.len(),
            forall|k: int| 0 <= k < nodes@.len() ==> node_fits(#[trigger] nodes@[k].0, nodes@[k].1),
            all_mem@ == node_regions(nodes@.take(i as int)),
            all_fit(all_mem@),
        decreases nodes.len() - i,
    {
        assert(nodes@.take(i as int + 1).drop_last() == nodes@.take(i as int));
        let (base, size) = nodes[i];
        let start = align_up_4k(base);
        proof { lemma_align_up_bounds(base as int); }
        if start < base + size {
            all_mem.push(MemRegion { paddr: start, size: base + size - start, flags: FREE_RW, name: "free memory" });
        }
        i += 1;
    }
    assert(nodes@.take(i as int) == nodes@);
    let kernel = MemRegion { paddr: align_up_4k(kernel_paddr), size: kernel_size, flags: FLAG_FREE, name: "kernel memory" };
    let fdt = fdt_region(fdt_paddr);
    match split_each(&all_mem, &kernel) {
        Err(e) => Err(e),
        Ok(rest) => split_each(&rest, &fdt),
    }
}


/// Byte `a` lies in one of `rs`.
pub open spec fn covered(rs: Seq<MemRegion>, a: int) -> bool {
    exists|i: int| 0 <= i < rs.len() && #[trigger] rs[i].holds(a)
}

/// Cutting `excluded` out of `region` drops no fragment that holds a byte:
/// each side is empty or at least a page.
pub open spec fn loses_nothing(region: MemRegion, excluded: MemRegion) -> bool {
    region.nests(excluded) ==> {
        let head = excluded.paddr - region.paddr;
        let tail = region.end() - excluded.end();
        (head == 0 || head >= PAGE_SIZE_4K) && (tail == 0 || tail >= PAGE_SIZE_4K)
    }
}

/// A span that does not lie wholly inside the region leaves it whole.
pub proof fn lemma_split_unnested_keeps_region(region: MemRegion, excluded: MemRegion)
    requires
        !region.nests(excluded),
    ensures
        split_spec(region, excluded) == Ok::<Seq<MemRegion>, RegionError>(seq![region]),
{
}

/// A span nested in the region leaves the part before it and the part after
/// it, whose sizes add up to the region's size less the span's; each part
/// is kept exactly when it is at least a page, and the cut fails exactly
/// when neither is.
pub proof fn lemma_split_nested_fragments(region: MemRegion, excluded: MemRegion)
    requires
        region.fits(),
        excluded.fits(),
        region.nests(excluded),
    ensures
        ({
            let head = excluded.paddr - region.paddr;
            let tail = region.end() - excluded.end();
            &&& head + tail == region.size - excluded.size
            &&& (split_spec(region, excluded) is Err <==> head < PAGE_SIZE_4K && tail < PAGE_SIZE_4K)
            &&& split_spec(region, excluded) is Ok ==> {
                let out = split_spec(region, excluded)->Ok_0;
                &&& forall|i: int| 0 <= i < out.len() ==> (#[trigger] out[i]).size >= PAGE_SIZE_4K
                &&& (head >= PAGE_SIZE_4K ==> out[0] == fragment(region.paddr as int, excluded.paddr as int, region.name))
                &&& (tail >= PAGE_SIZE_4K ==> out[out.len() - 1] == fragment(excluded.end(), region.end(), region.name))
                &&& out.len() == (if head >= PAGE_SIZE_4K { 1int } else { 0int }) + (if tail >= PAGE_SIZE_4K { 1int } else { 0int })
            }
        }),
{
}

/// The bytes that a cut leaves are bytes of the region; where no byte is
/// dropped, they are all the region's bytes outside the excluded span, and
/// more where the span is not nested.
pub proof fn lemma_split_bytes(region: MemRegion, excluded: MemRegion, a: int)
    requires
        region.fits(),
        excluded.fits(),
        split_spec(region, excluded) is Ok,
    ensures
        covered(split_spec(region, excluded)->Ok_0, a) ==> region.holds(a),
        loses_nothing(region, excluded) && region.holds(a) && !excluded.holds(a)
            ==> covered(split_spec(region, excluded)->Ok_0, a),
{
    let out = split_spec(region, excluded)->Ok_0;
    if covered(out, a) {
        let i = choose|i: int| 0 <= i < out.len() && #[trigger] out[i].holds(a);
        assert(region.holds(a));
    }
    if loses_nothing(region, excluded) && region.holds(a) && !excluded.holds(a) {
        if region.nests(excluded) {
            if a < excluded.paddr {
                assert(out[0].holds(a));
            } else {
                assert(out[out.len() - 1].holds(a));
            }
        } else {
            assert(out[0].holds(a));
        }
    }
}

proof fn lemma_split_all_bytes(rs: Seq<MemRegion>, excluded: MemRegion, a: int)
    requires
        all_fit(rs),
        excluded.fits(),
        split_all(rs, excluded) is Ok,
    ensures
        covered(split_all(rs, excluded)->Ok_0, a) ==> covered(rs, a),
        (forall|i: int| 0 <= i < rs.len() ==> loses_nothing(#[trigger] rs[i], excluded))
            && covered(rs, a) && !excluded.holds(a) ==> covered(split_all(rs, excluded)->Ok_0, a),
    decreases rs.len(),
{
    if rs.len() > 0 {
        let init = rs.drop_last();
        let last = rs.last();
        assert(all_fit(init)) by {
            assert forall|i: int| 0 <= i < init.len() implies #[trigger] init[i].fits() by {
                assert(init[i] == rs[i]);
            }
        }
        assert(last == rs[rs.len() - 1]);
        lemma_split_all_bytes(init, excluded, a);
        lemma_split_bytes(last, excluded, a);
        let s = split_all(init, excluded)->Ok_0;
        let t = split_spec(last, excluded)->Ok_0;
        let out = split_all(rs, excluded)->Ok_0;
        assert(out == s + t);
        if covered(out, a) {
            let i = choose|i: int| 0 <= i < out.len() && #[trigger] out[i].holds(a);
            if i < s.len() {
                assert(s[i] == out[i]);
                let j = choose|j: int| 0 <= j < init.len() && #[trigger] init[j].holds(a);
                assert(rs[j] == init[j]);
            } else {
                assert(t[i - s.len()] == out[i]);
                assert(covered(t, a));
                assert(rs[rs.len() - 1].holds(a));
            }
        }
        if (forall|i: int| 0 <= i < rs.len() ==> loses_nothing(#[trigger] rs[i], excluded))
            && covered(rs, a) && !excluded.holds(a) {
            assert forall|i: int| 0 <= i < init.len() implies loses_nothing(#[trigger] init[i], excluded) by {
                assert(init[i] == rs[i]);
            }
            assert(loses_nothing(rs[rs.len() - 1], excluded));
            let j = choose|j: int| 0 <= j < rs.len() && #[trigger] rs[j].holds(a);
            if j < init.len() {
                assert(init[j] == rs[j]);
                assert(covered(init, a));
                let k = choose|k: int| 0 <= k < s.len() && #[trigger] s[k].holds(a);
                assert(out[k] == s[k]);
            } else {
                let k = choose|k: int| 0 <= k < t.len() && #[trigger] t[k].holds(a);
                assert(out[s.len() + k] == t[k]);
            }
        }
    }
}

proof fn lemma_node_regions(nodes: Seq<(usize, usize)>, a: int)
    requires
        forall|i: int| 0 <= i < nodes.len() ==> node_fits(#[trigger] nodes[i].0, nodes[i].1),
    ensures
        all_fit(node_regions(nodes)),
        covered(node_regions(nodes), a) <==> exists|i: int| 0 <= i < nodes.len() && #[trigger] node_holds(nodes[i], a),
    decreases nodes.len(),
{
    if nodes.len() > 0 {
        let init = nodes.drop_last();
        assert forall|i: int| 0 <= i < init.len() implies node_fits(#[trigger] init[i].0, init[i].1) by {
            assert(init[i] == nodes[i]);
        }
        lemma_node_regions(init, a);
        let rest = node_regions(init);
        let (base, size) = nodes.last();
        assert(nodes.last() == nodes[nodes.len() - 1]);
        lemma_align_up_bounds(base as int);
        let out = node_regions(nodes);
        assert(all_fit(out)) by {
            assert forall|i: int| 0 <= i < out.len() implies #[trigger] out[i].fits() by {
                if i < rest.len() {
                    assert(out[i] == rest[i]);
                }
            }
        }
        if covered(out, a) {
            let k = choose|k: int| 0 <= k < out.len() && #[trigger] out[k].holds(a);
            if k < rest.len() {
                assert(out[k] == rest[k]);
                assert(covered(rest, a));
                let j = choose|j: int| 0 <= j < init.len() && #[trigger] node_holds(init[j], a);
                assert(init[j] == nodes[j]);
            } else {
                assert(node_holds(nodes[nodes.len() - 1], a));
            }
        }
        if exists|i: int| 0 <= i < nodes.len() && #[trigger] node_holds(nodes[i], a) {
            let j = choose|j: int| 0 <= j < nodes.len() && #[trigger] node_holds(nodes[j], a);
            if j < init.len() {
                assert(init[j] == nodes[j]);
                assert(covered(rest, a));
                let k = choose|k: int| 0 <= k < rest.len() && #[trigger] rest[k].holds(a);
                assert(out[k] == rest[k]);
            } else {
                assert(out[out.len() - 1].holds(a));
            }
        }
    }
}

/// `r` lies within the usable part of the memory node `node`.
pub open spec fn node_nests(node: (usize, usize), r: MemRegion) -> bool {
    usable_start(node.0) <= r.paddr && r.end() <= node.0 + node.1
}

/// No byte is lost or invented by the free-region catalog: where the kernel
/// image and the device-tree span each lie within the usable part of some
/// memory node, and no cut drops a non-empty fragment, a byte lies in the
/// usable part of a node (from its base rounded up to a page to its end)
/// exactly when it lies in a free region, in the kernel image or in the
/// device-tree span.
pub proof fn lemma_free_regions_cover_nodes(nodes: Seq<(usize, usize)>, kernel: MemRegion, fdt: MemRegion, a: int)
    requires
        forall|i: int| 0 <= i < nodes.len() ==> node_fits(#[trigger] nodes[i].0, nodes[i].1),
        kernel.fits(),
        fdt.fits(),
        exists|i: int| 0 <= i < nodes.len() && #[trigger] node_nests(nodes[i], kernel),
        exists|i: int| 0 <= i < nodes.len() && #[trigger] node_nests(nodes[i], fdt),
        free_regions_spec(nodes, kernel, fdt) is Ok,
        forall|i: int| 0 <= i < node_regions(nodes).len() ==> loses_nothing(#[trigger] node_regions(nodes)[i], kernel),
        forall|i: int| 0 <= i < split_all(node_regions(nodes), kernel)->Ok_0.len()
            ==> loses_nothing(#[trigger] split_all(node_regions(nodes), kernel)->Ok_0[i], fdt),
    ensures
        (exists|i: int| 0 <= i < nodes.len() && #[trigger] node_holds(nodes[i], a))
            <==> covered(free_regions_spec(nodes, kernel, fdt)->Ok_0, a) || kernel.holds(a) || fdt.holds(a),
{
    let rs = node_regions(nodes);
    lemma_node_regions(nodes, a);
    let mid = split_all(rs, kernel)->Ok_0;
    lemma_split_all_bytes(rs, kernel, a);
    lemma_split_fits_all(rs, kernel);
    lemma_split_all_bytes(mid, fdt, a);
    if kernel.holds(a) {
        let i = choose|i: int| 0 <= i < nodes.len() && #[trigger] node_nests(nodes[i], kernel);
        assert(node_holds(nodes[i], a));
    }
    if fdt.holds(a) {
        let i = choose|i: int| 0 <= i < nodes.len() && #[trigger] node_nests(nodes[i], fdt);
        assert(node_holds(nodes[i], a));
    }
}

proof fn lemma_split_fits_all(rs: Seq<MemRegion>, excluded: MemRegion)
    requires
        all_fit(rs),
        split_all(rs, excluded) is Ok,
    ensures
        all_fit(split_all(rs, excluded)->Ok_0),
    decreases rs.len(),
{
    if rs.len() > 0 {
        let init = rs.drop_last();
        assert forall|i: int| 0 <= i < init.len() implies #[trigger] init[i].fits() by {
            assert(init[i] == rs[i]);
        }
        lemma_split_fits_all(init, excluded);
        assert(rs.last() == rs[rs.len() - 1]);
        lemma_split_fits(rs.last(), excluded);
        let s = split_all(init, excluded)->Ok_0;
        let t = split_spec(rs.last(), excluded)->Ok_0;
        assert forall|i: int| 0 <= i < (s + t).len() implies #[trigger] (s + t)[i].fits() by {
            if i < s.len() {
                assert((s + t)[i] == s[i]);
            } else {
                assert((s + t)[i] == t[i - s.len()]);
            }
        }
    }
}


/// The two spans share no byte.
pub open spec fn apart(x: MemRegion, y: MemRegion) -> bool {
    x.size == 0 || y.size == 0 || x.end() <= y.paddr || y.end() <= x.paddr
}

/// No two of `rs` share a byte.
pub open spec fn pairwise_apart(rs: Seq<MemRegion>) -> bool {
    forall|i: int, j: int| 0 <= i < rs.len() && 0 <= j < rs.len() && i != j ==> apart(#[trigger] rs[i], #[trigger] rs[j])
}

/// `x` lies wholly inside `r` or shares no byte with it.
pub open spec fn nests_or_apart(r: MemRegion, x: MemRegion) -> bool {
    r.nests(x) || apart(r, x)
}

proof fn lemma_split_shape(r: MemRegion, e: MemRegion, x: MemRegion)
    requires
        r.fits(),
        e.fits(),
        split_spec(r, e) is Ok,
    ensures
        ({
            let out = split_spec(r, e)->Ok_0;
            &&& forall|k: int| 0 <= k < out.len() ==> r.nests(#[trigger] out[k])
            &&& pairwise_apart(out)
            &&& nests_or_apart(r, e) ==> forall|k: int| 0 <= k < out.len() ==> apart(#[trigger] out[k], e)
            &&& apart(r, x) ==> forall|k: int| 0 <= k < out.len() ==> apart(#[trigger] out[k], x)
            &&& r.nests(x) && apart(x, e) && e.size > 0 ==> forall|k: int| 0 <= k < out.len() ==> nests_or_apart(#[trigger] out[k], x)
        }),
{
    let out = split_spec(r, e)->Ok_0;
    if r.nests(e) {
        let head = fragment(r.paddr as int, e.paddr as int, r.name);
        let tail = fragment(e.end(), r.end(), r.name);
        assert(forall|k: int| 0 <= k < out.len() ==> #[trigger] out[k] == head || out[k] == tail);
        assert(apart(head, tail));
    } else {
        assert(out == seq![r]);
    }
}

proof fn lemma_split_all_shape(rs: Seq<MemRegion>, e: MemRegion, x: MemRegion)
    requires
        all_fit(rs),
        e.fits(),
        split_all(rs, e) is Ok,
    ensures
        ({
            let out = split_all(rs, e)->Ok_0;
            &&& forall|k: int| 0 <= k < out.len() ==> exists|i: int| 0 <= i < rs.len() && (#[trigger] rs[i]).nests(#[trigger] out[k])
            &&& pairwise_apart(rs) ==> pairwise_apart(out)
            &&& (forall|i: int| 0 <= i < rs.len() ==> nests_or_apart(#[trigger] rs[i], e))
                ==> forall|k: int| 0 <= k < out.len() ==> apart(#[trigger] out[k], e)
            &&& (forall|i: int| 0 <= i < rs.len() ==> apart(#[trigger] rs[i], x))
                ==> forall|k: int| 0 <= k < out.len() ==> apart(#[trigger] out[k], x)
            &&& (forall|i: int| 0 <= i < rs.len() ==> nests_or_apart(#[trigger] rs[i], x)) && apart(x, e) && e.size > 0
                ==> forall|k: int| 0 <= k < out.len() ==> nests_or_apart(#[trigger] out[k], x)
        }),
    decreases rs.len(),
{
    if rs.len() > 0 {
        let init = rs.drop_last();
        let last = rs.last();
        assert(last == rs[rs.len() - 1]);
        assert forall|i: int| 0 <= i < init.len() implies #[trigger] init[i].fits() by {
            assert(init[i] == rs[i]);
        }
        lemma_split_all_shape(init, e, x);
        lemma_split_shape(last, e, x);
        let s = split_all(init, e)->Ok_0;
        let t = split_spec(last, e)->Ok_0;
        let out = split_all(rs, e)->Ok_0;
        assert(out == s + t);
        assert forall|k: int| 0 <= k < out.len() implies exists|i: int| 0 <= i < rs.len() && (#[trigger] rs[i]).nests(#[trigger] out[k]) by {
            if k < s.len() {
                assert(out[k] == s[k]);
                let i = choose|i: int| 0 <= i < init.len() && (#[trigger] init[i]).nests(#[trigger] s[k]);
                assert(rs[i] == init[i]);
            } else {
                assert(out[k] == t[k - s.len()]);
                assert(rs[rs.len() - 1].nests(out[k]));
            }
        }
        if pairwise_apart(rs) {
            assert(pairwise_apart(init)) by {
                assert forall|i: int, j: int| 0 <= i < init.len() && 0 <= j < init.len() && i != j
                    implies apart(#[trigger] init[i], #[trigger] init[j]) by {
                    assert(init[i] == rs[i] && init[j] == rs[j]);
                }
            }
            assert forall|i: int, j: int| 0 <= i < out.len() && 0 <= j < out.len() && i != j
                implies apart(#[trigger] out[i], #[trigger] out[j]) by {
                if i < s.len() && j < s.len() {
                    assert(out[i] == s[i] && out[j] == s[j]);
                } else if i >= s.len() && j >= s.len() {
                    assert(out[i] == t[i - s.len()] && out[j] == t[j - s.len()]);
                } else if i < s.len() {
                    assert(out[i] == s[i] && out[j] == t[j - s.len()]);
                    let a = choose|a: int| 0 <= a < init.len() && (#[trigger] init[a]).nests(#[trigger] s[i]);
                    assert(init[a] == rs[a]);
                    assert(apart(rs[a], rs[rs.len() - 1]));
                } else {
                    assert(out[j] == s[j] && out[i] == t[i - s.len()]);
                    let a = choose|a: int| 0 <= a < init.len() && (#[trigger] init[a]).nests(#[trigger] s[j]);
                    assert(init[a] == rs[a]);
                    assert(apart(rs[a], rs[rs.len() - 1]));
                }
            }
        }
        if forall|i: int| 0 <= i < rs.len() ==> nests_or_apart(#[trigger] rs[i], e) {
            assert forall|i: int| 0 <= i < init.len() implies nests_or_apart(#[trigger] init[i], e) by {
                assert(init[i] == rs[i]);
            }
            assert(nests_or_apart(rs[rs.len() - 1], e));
            assert forall|k: int| 0 <= k < out.len() implies apart(#[trigger] out[k], e) by {
                if k < s.len() { assert(out[k] == s[k]); } else { assert(out[k] == t[k - s.len()]); }
            }
        }
        if forall|i: int| 0 <= i < rs.len() ==> apart(#[trigger] rs[i], x) {
            assert forall|i: int| 0 <= i < init.len() implies apart(#[trigger] init[i], x) by {
                assert(init[i] == rs[i]);
            }
            assert(apart(rs[rs.len() - 1], x));
            assert forall|k: int| 0 <= k < out.len() implies apart(#[trigger] out[k], x) by {
                if k < s.len() { assert(out[k] == s[k]); } else { assert(out[k] == t[k - s.len()]); }
            }
        }
        if (forall|i: int| 0 <= i < rs.len() ==> nests_or_apart(#[trigger] rs[i], x)) && apart(x, e) && e.size > 0 {
            assert forall|i: int| 0 <= i < init.len() implies nests_or_apart(#[trigger] init[i], x) by {
                assert(init[i] == rs[i]);
            }
            assert(nests_or_apart(rs[rs.len() - 1], x));
            assert forall|k: int| 0 <= k < out.len() implies nests_or_apart(#[trigger] out[k], x) by {
                if k < s.len() { assert(out[k] == s[k]); } else { assert(out[k] == t[k - s.len()]); }
            }
        }
    }
}

/// The memory nodes share no byte.
pub open spec fn nodes_disjoint(nodes: Seq<(usize, usize)>) -> bool {
    forall|i: int, j: int| 0 <= i < nodes.len() && 0 <= j < nodes.len() && i != j
        ==> (#[trigger] nodes[i]).0 + nodes[i].1 <= nodes[j].0 || (#[trigger] nodes[j]).0 + nodes[j].1 <= nodes[i].0
}

/// `r` is the free region of one of the nodes.
pub open spec fn from_node(nodes: Seq<(usize, usize)>, r: MemRegion) -> bool {
    exists|j: int| 0 <= j < nodes.len() && node_usable(nodes[j].0, nodes[j].1) && r == #[trigger] node_region(nodes[j].0, nodes[j].1)
}

proof fn lemma_node_regions_shape(nodes: Seq<(usize, usize)>)
    requires
        forall|i: int| 0 <= i < nodes.len() ==> node_fits(#[trigger] nodes[i].0, nodes[i].1),
    ensures
        forall|k: int| 0 <= k < node_regions(nodes).len() ==> from_node(nodes, #[trigger] node_regions(nodes)[k]),
        nodes_disjoint(nodes) ==> pairwise_apart(node_regions(nodes)),
    decreases nodes.len(),
{
    if nodes.len() > 0 {
        let init = nodes.drop_last();
        assert forall|i: int| 0 <= i < init.len() implies node_fits(#[trigger] init[i].0, init[i].1) by {
            assert(init[i] == nodes[i]);
        }
        lemma_node_regions_shape(init);
        let rest = node_regions(init);
        let out = node_regions(nodes);
        let n = nodes.len() - 1;
        assert(nodes.last() == nodes[n]);
        lemma_align_up_bounds(nodes[n].0 as int);
        assert forall|k: int| 0 <= k < out.len() implies from_node(nodes, #[trigger] out[k]) by {
            if k < rest.len() {
                assert(out[k] == rest[k]);
                assert(from_node(init, rest[k]));
                let j = choose|j: int| 0 <= j < init.len() && node_usable(init[j].0, init[j].1)
                    && rest[k] == #[trigger] node_region(init[j].0, init[j].1);
                assert(init[j] == nodes[j]);
            } else {
                assert(out[k] == node_region(nodes[n].0, nodes[n].1));
            }
        }
        if nodes_disjoint(nodes) {
            assert(nodes_disjoint(init)) by {
                assert forall|i: int, j: int| 0 <= i < init.len() && 0 <= j < init.len() && i != j
                    implies (#[trigger] init[i]).0 + init[i].1 <= init[j].0 || (#[trigger] init[j]).0 + init[j].1 <= init[i].0 by {
                    assert(init[i] == nodes[i] && init[j] == nodes[j]);
                }
            }
            assert forall|a: int, b: int| 0 <= a < out.len() && 0 <= b < out.len() && a != b
                implies apart(#[trigger] out[a], #[trigger] out[b]) by {
                if a < rest.len() && b < rest.len() {
                    assert(out[a] == rest[a] && out[b] == rest[b]);
                } else if a < rest.len() {
                    assert(out[a] == rest[a]);
                    assert(from_node(init, rest[a]));
                    let j = choose|j: int| 0 <= j < init.len() && node_usable(init[j].0, init[j].1)
                        && rest[a] == #[trigger] node_region(init[j].0, init[j].1);
                    assert(init[j] == nodes[j]);
                    lemma_align_up_bounds(nodes[j].0 as int);
                    assert(nodes[j].0 + nodes[j].1 <= nodes[n].0 || nodes[n].0 + nodes[n].1 <= nodes[j].0);
                } else if b < rest.len() {
                    assert(out[b] == rest[b]);
                    assert(from_node(init, rest[b]));
                    let j = choose|j: int| 0 <= j < init.len() && node_usable(init[j].0, init[j].1)
                        && rest[b] == #[trigger] node_region(init[j].0, init[j].1);
                    assert(init[j] == nodes[j]);
                    lemma_align_up_bounds(nodes[j].0 as int);
                    assert(nodes[j].0 + nodes[j].1 <= nodes[n].0 || nodes[n].0 + nodes[n].1 <= nodes[j].0);
                }
            }
        }
    }
}

proof fn lemma_node_regions_nest_or_apart(nodes: Seq<(usize, usize)>, x: MemRegion, i: int)
    requires
        forall|k: int| 0 <= k < nodes.len() ==> node_fits(#[trigger] nodes[k].0, nodes[k].1),
        nodes_disjoint(nodes),
        0 <= i < nodes.len(),
        node_nests(nodes[i], x),
    ensures
        forall|k: int| 0 <= k < node_regions(nodes).len() ==> nests_or_apart(#[trigger] node_regions(nodes)[k], x),
{
    lemma_node_regions_shape(nodes);
    let rs = node_regions(nodes);
    assert forall|k: int| 0 <= k < rs.len() implies nests_or_apart(#[trigger] rs[k], x) by {
        assert(from_node(nodes, rs[k]));
        let j = choose|j: int| 0 <= j < nodes.len() && node_usable(nodes[j].0, nodes[j].1)
            && rs[k] == #[trigger] node_region(nodes[j].0, nodes[j].1);
        lemma_align_up_bounds(nodes[j].0 as int);
        lemma_align_up_bounds(nodes[i].0 as int);
        if j != i {
            assert(nodes[i].0 + nodes[i].1 <= nodes[j].0 || nodes[j].0 + nodes[j].1 <= nodes[i].0);
        }
    }
}

/// The free regions overlap neither each other nor the kernel image nor
/// the device-tree span, where the memory nodes are disjoint, the kernel
/// image and the device-tree span each lie within the usable part of some
/// node, the kernel image is not empty, and the two spans do not overlap.
pub proof fn lemma_free_regions_disjoint(nodes: Seq<(usize, usize)>, kernel: MemRegion, fdt: MemRegion)
    requires
        forall|i: int| 0 <= i < nodes.len() ==> node_fits(#[trigger] nodes[i].0, nodes[i].1),
        nodes_disjoint(nodes),
        kernel.fits(),
        fdt.fits(),
        exists|i: int| 0 <= i < nodes.len() && #[trigger] node_nests(nodes[i], kernel),
        exists|i: int| 0 <= i < nodes.len() && #[trigger] node_nests(nodes[i], fdt),
        kernel.size > 0,
        apart(kernel, fdt),
        free_regions_spec(nodes, kernel, fdt) is Ok,
    ensures
        pairwise_apart(free_regions_spec(nodes, kernel, fdt)->Ok_0),
        forall|k: int| 0 <= k < free_regions_spec(nodes, kernel, fdt)->Ok_0.len() ==> {
            &&& apart(#[trigger] free_regions_spec(nodes, kernel, fdt)->Ok_0[k], kernel)
            &&& apart(free_regions_spec(nodes, kernel, fdt)->Ok_0[k], fdt)
        },
{
    let rs = node_regions(nodes);
    lemma_node_regions(nodes, 0);
    lemma_node_regions_shape(nodes);
    let ik = choose|i: int| 0 <= i < nodes.len() && #[trigger] node_nests(nodes[i], kernel);
    let jf = choose|i: int| 0 <= i < nodes.len() && #[trigger] node_nests(nodes[i], fdt);
    lemma_node_regions_nest_or_apart(nodes, kernel, ik);
    lemma_node_regions_nest_or_apart(nodes, fdt, jf);
    lemma_split_all_shape(rs, kernel, fdt);
    lemma_split_fits_all(rs, kernel);
    let mid = split_all(rs, kernel)->Ok_0;
    assert(apart(fdt, kernel));
    lemma_split_all_shape(mid, fdt, kernel);
}

} // verus!
