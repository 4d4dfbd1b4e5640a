use vstd::prelude::*;
use x86_64::structures::paging::{PhysFrame, Size4KiB};
use x86_64::{PhysAddr, VirtAddr};

verus! {

/// Size in bytes of one physical frame.
pub const FRAME_SIZE: u64 = 4096;

/// First physical address that does not fit in the architecture's 52 address bits.
pub const PHYS_ADDR_LIMIT: u64 = 0x10_0000_0000_0000;

/// Start of the frame that contains `addr`.
pub open spec fn align_down(addr: u64) -> u64 {
    (addr - addr % FRAME_SIZE) as u64
}

/// Relies on `PhysAddr::new` (accepts addresses below 2^52) and
/// `PhysFrame::<Size4KiB>::containing_address` (rounds down to 4096).
#[verifier::external_body]
fn containing_frame_start(addr: u64) -> (r: u64)
    requires
        addr < PHYS_ADDR_LIMIT,
    ensures
        r == align_down(addr),
{
    PhysFrame::<Size4KiB>::containing_address(PhysAddr::new(addr)).start_address().as_u64()
}

/// A virtual address whose bits 48 to 63 repeat bit 47.
pub open spec fn is_canonical(addr: u64) -> bool {
    addr < 0x0000_8000_0000_0000 || addr >= 0xffff_8000_0000_0000
}

/// Relies on `VirtAddr::try_new`: it accepts exactly the canonical addresses.
#[verifier::external_body]
pub(crate) fn canonical_address(addr: u64) -> (r: bool)
    ensures
        r == is_canonical(addr),
{
    VirtAddr::try_new(addr).is_ok()
}

/// Why the virtual address of the level-4 translation table cannot be used.
#[derive(Clone, Copy, Debug, PartialEq, Eq, Structural)]
pub enum TranslationRootError {
    /// The table's physical address plus the offset does not fit in 64 bits.
    AddressOverflow,
    /// The sum is not a canonical virtual address.
    NonCanonical(u64),
    /// The sum is not aligned to the 4096-byte table size.
    Misaligned(u64),
}

/// Virtual address of the active level-4 translation table, given the offset
/// at which physical memory is mapped and the table's physical address (as
/// read from the translation-root register).
///
/// Every error is fatal to the caller: no table reference may be made from it.
pub fn level_4_table_address(physical_memory_offset: u64, table_phys: u64) -> (r: Result<
    u64,
    TranslationRootError,
>)
    ensures
        physical_memory_offset + table_phys > u64::MAX ==> r == Err::<u64, TranslationRootError>(
            TranslationRootError::AddressOverflow,
        ),
        physical_memory_offset + table_phys <= u64::MAX ==> {
            let virt = (physical_memory_offset + table_phys) as u64;
            &&& !is_canonical(virt) ==> r == Err::<u64, TranslationRootError>(
                TranslationRootError::NonCanonical(virt),
            )
            &&& is_canonical(virt) && virt % FRAME_SIZE != 0 ==> r == Err::<
                u64,
                TranslationRootError,
            >(TranslationRootError::Misaligned(virt))
            &&& is_canonical(virt) && virt % FRAME_SIZE == 0 ==> r == Ok::<
                u64,
                TranslationRootError,
            >(virt)
        },
{
    let virt = match physical_memory_offset.checked_add(table_phys) {
        Some(v) => v,
        None => {
            return Err(TranslationRootError::AddressOverflow);
        },
    };
    if !canonical_address(virt) {
        return Err(TranslationRootError::NonCanonical(virt));
    }
    if virt % FRAME_SIZE != 0 {
        return Err(TranslationRootError::Misaligned(virt));
    }
    Ok(virt)
}

/// A 4096-byte aligned unit of physical memory, named by its start address.
#[derive(Clone, Copy, Debug, PartialEq, Eq, Structural)]
pub struct Frame {
    pub start: u64,
}

impl Frame {
    /// A frame is well formed when its start is aligned and addressable.
    pub open spec fn wf(self) -> bool {
        self.start % FRAME_SIZE == 0 && self.start < PHYS_ADDR_LIMIT
    }

    /// The frame that contains the physical address `addr`.
    pub fn containing_address(addr: u64) -> (r: Frame)
        requires
            addr < PHYS_ADDR_LIMIT,
        ensures
            r.start == align_down(addr),
            r.wf(),
    {
        let start = containing_frame_start(addr);
        assert(start % FRAME_SIZE == 0 && start < PHYS_ADDR_LIMIT) by {
            assert(addr % 4096 <= addr);
        }
        Frame { start }
    }

    /// Start address of the frame.
    pub fn start_address(&self) -> (r: u64)
        ensures
            r == self.start,
    {
        self.start
    }
}

/// Usability classification of a region of the physical memory map.
#[derive(Clone, Copy, Debug, PartialEq, Eq, Structural)]
pub enum RegionKind {
    Usable,
    Reserved,
    Other,
}

/// One record of the physical memory map: a kind and the range `[start, end)`.
#[derive(Clone, Copy, Debug, PartialEq, Eq, Structural)]
pub struct Region {
    pub kind: RegionKind,
    pub start: u64,
    pub end: u64,
}

/// Number of whole frame steps that fit in `[r.start, r.end)`.
pub open spec fn region_step_count(r: Region) -> nat {
    if r.start <= r.end {
        ((r.end - r.start) / (FRAME_SIZE as int)) as nat
    } else {
        0
    }
}

/// Number of frames the scan takes from `r`: none from a region that is not
/// usable, and at most `limit` from one that is.
pub open spec fn scanned_count(r: Region, limit: Option<u64>) -> nat {
    if r.kind != RegionKind::Usable {
        0
    } else {
        match limit {
            Some(l) => if (l as nat) < region_step_count(r) { l as nat } else { region_step_count(r) },
            None => region_step_count(r),
        }
    }
}

/// The `k`-th address visited by the scan of `r`.
pub open spec fn scan_address(r: Region, k: int) -> int {
    r.start + k * (FRAME_SIZE as int)
}

/// Frames that the scan of `r` adds to the free list, in the order added.
pub open spec fn region_frames(r: Region, limit: Option<u64>) -> Seq<u64> {
    Seq::new(scanned_count(r, limit), |k: int| align_down(scan_address(r, k) as u64))
}

/// Frames that the scan of `regions` adds to the free list, in the order added.
pub open spec fn scan_frames(regions: Seq<Region>, limit: Option<u64>) -> Seq<u64>
    decreases regions.len(),
{
    if regions.len() == 0 {
        Seq::empty()
    } else {
        scan_frames(regions.drop_last(), limit) + region_frames(regions.last(), limit)
    }
}

/// A scanned address that the allocator can take: it is a valid physical
/// address, and its frame plus the offset is a valid `u64`.
pub open spec fn scan_address_admissible(offset: u64, addr: int) -> bool {
    0 <= addr < PHYS_ADDR_LIMIT && align_down(addr as u64) + offset <= u64::MAX
}

/// Every address that the scan of `regions` visits is admissible.
pub open spec fn scan_admissible(offset: u64, regions: Seq<Region>, limit: Option<u64>) -> bool {
    forall|i: int, k: int|
        0 <= i < regions.len() && 0 <= k < scanned_count(regions[i], limit) ==> #[trigger]
        scan_address_admissible(offset, scan_address(regions[i], k))
}

/// While the scan of a usable region can still step, the step is one the
/// scan takes.
proof fn lemma_step_below_count(r: Region, limit: Option<u64>, added: u64)
    requires
        r.kind == RegionKind::Usable,
        scan_address(r, added as int) <= r.end,
        r.end - scan_address(r, added as int) >= FRAME_SIZE,
        limit.is_none() || added < limit.unwrap(),
    ensures
        added < scanned_count(r, limit),
{
    let d = r.end - r.start;
    assert(d >= (added + 1) * 4096);
    assert(d / 4096 >= added + 1) by (nonlinear_arith)
        requires
            d >= (added + 1) * 4096,
    ;
}

/// When the scan of a usable region stops, it has taken all its frames.
proof fn lemma_scan_stops_at_count(r: Region, limit: Option<u64>, added: u64)
    requires
        r.kind == RegionKind::Usable,
        added <= scanned_count(r, limit),
        scan_address(r, added as int) <= u64::MAX,
        !(scan_address(r, added as int) <= r.end && r.end - scan_address(r, added as int)
            >= FRAME_SIZE && (limit.is_none() || added < limit.unwrap())),
    ensures
        added == scanned_count(r, limit),
{
    if !(limit.is_none() || added < limit.unwrap()) {
    } else if r.start <= r.end {
        let d = r.end - r.start;
        assert(d < (added + 1) * 4096);
        assert(d / 4096 < added + 1) by (nonlinear_arith)
            requires
                d < (added + 1) * 4096,
                d >= 0,
        ;
    }
}

/// What an allocation on the pool `free` returns: its last frame, or `None`
/// when it is empty.
pub open spec fn allocation_result(free: Seq<u64>) -> Option<Frame> {
    if free.len() == 0 {
        None
    } else {
        Some(Frame { start: free.last() })
    }
}

/// The pool after an allocation on `free`: without its last frame.
pub open spec fn pool_after_allocation(free: Seq<u64>) -> Seq<u64> {
    if free.len() == 0 {
        free
    } else {
        free.drop_last()
    }
}

/// The pool after `k` successive allocations on `free`.
pub open spec fn pool_after_allocations(free: Seq<u64>, k: nat) -> Seq<u64>
    decreases k,
{
    if k == 0 {
        free
    } else {
        pool_after_allocation(pool_after_allocations(free, (k - 1) as nat))
    }
}

/// Up to its length, `k` allocations remove the last `k` frames of a pool.
proof fn lemma_pool_after_allocations(free: Seq<u64>, k: nat)
    requires
        k <= free.len(),
    ensures
        pool_after_allocations(free, k) == free.take(free.len() - k),
    decreases k,
{
    if k == 0 {
        assert(free.take(free.len() as int) =~= free);
    } else {
        lemma_pool_after_allocations(free, (k - 1) as nat);
        assert(free.take(free.len() - (k - 1)).drop_last() =~= free.take(free.len() - k));
    }
}

/// Rounding down to a frame start keeps the order of addresses.
proof fn lemma_align_down_monotonic(a: u64, b: u64)
    requires
        a <= b,
    ensures
        align_down(a) <= align_down(b),
{
    assert(a - a % 4096 <= b - b % 4096) by (nonlinear_arith)
        requires
            a <= b,
    {
        assert(a == 4096 * (a / 4096) + a % 4096);
        assert(b == 4096 * (b / 4096) + b % 4096);
        assert(a / 4096 <= b / 4096);
    }
}

/// Number of frames the scan takes from `region`.
fn scanned_count_of(region: Region, scan_limit: Option<u64>) -> (r: u64)
    ensures
        r == scanned_count(region, scan_limit),
{
    if region.kind != RegionKind::Usable || region.start > region.end {
        return 0;
    }
    let steps = (region.end - region.start) / FRAME_SIZE;
    match scan_limit {
        Some(l) => if l < steps {
            l
        } else {
            steps
        },
        None => steps,
    }
}

/// Whether every address that the scan of `memory_map` visits is admissible,
/// that is, whether `init_with_scan_limit` may be called on these arguments.
pub fn scan_is_admissible(
    physical_memory_offset: u64,
    memory_map: &[Region],
    scan_limit: Option<u64>,
) -> (r: bool)
    ensures
        r == scan_admissible(physical_memory_offset, memory_map@, scan_limit),
{
    let mut i: usize = 0;
    while i < memory_map.len()
        invariant
            i <= memory_map@.len(),
            forall|j: int, k: int|
                0 <= j < i && 0 <= k < scanned_count(memory_map@[j], scan_limit) ==> #[trigger]
                scan_address_admissible(physical_memory_offset, scan_address(memory_map@[j], k)),
        decreases memory_map@.len() - i,
    {
        let region = memory_map[i];
        let count = scanned_count_of(region, scan_limit);
        if count > 0 {
            proof {
                let d = region.end - region.start;
                assert((count - 1) * 4096 < d) by (nonlinear_arith)
                    requires
                        count <= d / 4096,
                        count > 0,
                        d >= 0,
                ;
            }
            let last = region.start + (count - 1) * FRAME_SIZE;
            assert(last == scan_address(region, count - 1));
            let ok = last < PHYS_ADDR_LIMIT && last - last % FRAME_SIZE <= u64::MAX
                - physical_memory_offset;
            if !ok {
                assert(!scan_address_admissible(
                    physical_memory_offset,
                    scan_address(memory_map@[i as int], count - 1),
                ));
                return false;
            }
            assert forall|k: int| 0 <= k < scanned_count(memory_map@[i as int], scan_limit) implies #[trigger]
                scan_address_admissible(physical_memory_offset, scan_address(memory_map@[i as int], k)) by {
                let a = scan_address(region, k);
                assert(a <= last) by (nonlinear_arith)
                    requires
                        a == region.start + k * 4096,
                        last == region.start + (count - 1) * 4096,
                        k <= count - 1,
                ;
                assert(0 <= a);
                lemma_align_down_monotonic(a as u64, last);
            }
        }
        i = i + 1;
    }
    true
}

/// Physical frame allocator over an explicit stack of free-list nodes.
///
/// Each node is the virtual address (physical address plus the offset) of a
/// free frame; the last node is the head of the list.
pub struct LinkedListFrameAllocator {
    nodes: Vec<u64>,
    physical_memory_offset: u64,
}

impl View for LinkedListFrameAllocator {
    /// The free frames as physical addresses; the last one is handed out next.
    type V = Seq<u64>;

    closed spec fn view(&self) -> Seq<u64> {
        self.nodes@.map_values(|v: u64| (v - self.physical_memory_offset) as u64)
    }
}

impl LinkedListFrameAllocator {
    /// The physical-to-virtual offset the allocator was built with.
    pub closed spec fn offset(&self) -> u64 {
        self.physical_memory_offset
    }

    /// Every node lies at or above the offset and names an aligned, addressable frame.
    pub closed spec fn wf(&self) -> bool {
        forall|i: int|
            0 <= i < self.nodes@.len() ==> {
                let v = #[trigger] self.nodes@[i];
                v >= self.physical_memory_offset && (Frame { start: (v
                    - self.physical_memory_offset) as u64 }).wf()
            }
    }

    /// The free frames are aligned and addressable.
    pub proof fn lemma_free_frames_wf(&self)
        requires
            self.wf(),
        ensures
            forall|i: int| 0 <= i < self@.len() ==> (Frame { start: #[trigger] self@[i] }).wf(),
    {
        assert forall|i: int| 0 <= i < self@.len() implies (Frame { start: #[trigger] self@[i] }).wf() by {
            let v = self.nodes@[i];
            assert(v >= self.physical_memory_offset);
        }
    }

    /// An allocator whose pool holds every frame of every usable region of
    /// `memory_map`, scanned in order; the last frame scanned is handed out first.
    pub fn init(physical_memory_offset: u64, memory_map: &[Region]) -> (r: Self)
        requires
            scan_admissible(physical_memory_offset, memory_map@, None),
        ensures
            r.wf(),
            r.offset() == physical_memory_offset,
            r@ == scan_frames(memory_map@, None),
    {
        Self::init_with_scan_limit(physical_memory_offset, memory_map, None)
    }

    /// As `init`, but takes at most `scan_limit` frames from each usable region
    /// when a limit is given.
    pub fn init_with_scan_limit(
        physical_memory_offset: u64,
        memory_map: &[Region],
        scan_limit: Option<u64>,
    ) -> (r: Self)
        requires
            scan_admissible(physical_memory_offset, memory_map@, scan_limit),
        ensures
            r.wf(),
            r.offset() == physical_memory_offset,
            r@ == scan_frames(memory_map@, scan_limit),
    {
        let mut allocator = LinkedListFrameAllocator { nodes: Vec::new(), physical_memory_offset };
        assert(allocator@ =~= Seq::<u64>::empty());
        allocator.build_free_list(memory_map, scan_limit);
        assert(allocator@ =~= scan_frames(memory_map@, scan_limit));
        allocator
    }

    /// Pushes the frames of every usable region of `memory_map` onto the free
    /// list, region by region and in ascending address order within each.
    fn build_free_list(&mut self, memory_map: &[Region], scan_limit: Option<u64>)
        requires
            old(self).wf(),
            scan_admissible(old(self).offset(), memory_map@, scan_limit),
        ensures
            final(self).wf(),
            final(self).offset() == old(self).offset(),
            final(self)@ == old(self)@ + scan_frames(memory_map@, scan_limit),
    {
        let mut i: usize = 0;
        while i < memory_map.len()
            invariant
                i <= memory_map@.len(),
                self.wf(),
                self.offset() == old(self).offset(),
                scan_admissible(self.offset(), memory_map@, scan_limit),
                self@ == old(self)@ + scan_frames(memory_map@.take(i as int), scan_limit),
            decreases memory_map@.len() - i,
        {
            let region = memory_map[i];
            self.add_region(region, scan_limit, Ghost(i as int), Ghost(memory_map@));
            assert(memory_map@.take(i + 1).drop_last() =~= memory_map@.take(i as int));
            assert(self@ =~= old(self)@ + scan_frames(memory_map@.take(i + 1), scan_limit));
            i = i + 1;
        }
        assert(memory_map@.take(i as int) =~= memory_map@);
    }

    /// Pushes the frames that the scan takes from `region`.
    fn add_region(
        &mut self,
        region: Region,
        scan_limit: Option<u64>,
        Ghost(index): Ghost<int>,
        Ghost(regions): Ghost<Seq<Region>>,
    )
        requires
            old(self).wf(),
            0 <= index < regions.len(),
            regions[index] == region,
            scan_admissible(old(self).offset(), regions, scan_limit),
        ensures
            final(self).wf(),
            final(self).offset() == old(self).offset(),
            final(self)@ == old(self)@ + region_frames(region, scan_limit),
    {
        if region.kind != RegionKind::Usable {
            assert(region_frames(region, scan_limit) =~= Seq::<u64>::empty());
            return;
        }
        let end = region.end;
        let mut addr: u64 = region.start;
        let mut added: u64 = 0;
        while addr <= end && end - addr >= FRAME_SIZE && (scan_limit.is_none() || added
            < scan_limit.unwrap())
            invariant
                self.wf(),
                self.offset() == old(self).offset(),
                region.kind == RegionKind::Usable,
                0 <= index < regions.len(),
                regions[index] == region,
                scan_admissible(self.offset(), regions, scan_limit),
                end == region.end,
                addr == scan_address(region, added as int),
                added <= scanned_count(region, scan_limit),
                self@ == old(self)@ + region_frames(region, scan_limit).take(added as int),
            decreases end - addr,
        {
            proof {
                lemma_step_below_count(region, scan_limit, added);
                assert(scan_address_admissible(
                    self.offset(),
                    scan_address(regions[index], added as int),
                ));
            }
            let frame = Frame::containing_address(addr);
            self.deallocate_frame(frame);
            assert(self@ =~= old(self)@ + region_frames(region, scan_limit).take(added + 1));
            added = added + 1;
            addr = addr + FRAME_SIZE;
        }
        proof {
            lemma_scan_stops_at_count(region, scan_limit, added);
        }
        assert(region_frames(region, scan_limit).take(added as int) =~= region_frames(
            region,
            scan_limit,
        ));
    }

    /// The physical-to-virtual offset the allocator was built with.
    pub fn physical_memory_offset(&self) -> (r: u64)
        ensures
            r == self.offset(),
    {
        self.physical_memory_offset
    }

    /// Virtual address at which the physical address `phys_addr` is mapped.
    pub fn phys_to_virt_ptr(&self, phys_addr: u64) -> (r: u64)
        requires
            phys_addr + self.offset() <= u64::MAX,
        ensures
            r == phys_addr + self.offset(),
    {
        phys_addr + self.physical_memory_offset
    }

    /// Physical address behind the virtual address `ptr`.
    pub fn virt_ptr_to_phys(&self, ptr: u64) -> (r: u64)
        requires
            ptr >= self.offset(),
        ensures
            r == ptr - self.offset(),
    {
        ptr - self.physical_memory_offset
    }

    /// Returns `frame` to the pool; it becomes the next frame handed out.
    ///
    /// The caller guarantees that `frame` is not in use and not already free.
    pub fn deallocate_frame(&mut self, frame: Frame)
        requires
            old(self).wf(),
            frame.wf(),
            frame.start + old(self).offset() <= u64::MAX,
        ensures
            final(self).wf(),
            final(self).offset() == old(self).offset(),
            final(self)@ == old(self)@.push(frame.start),
    {
        let node = self.phys_to_virt_ptr(frame.start);
        self.nodes.push(node);
        assert(self@ =~= old(self)@.push(frame.start));
    }

    /// Takes the most recently freed frame out of the pool, or `None` when
    /// the pool is empty.
    pub fn allocate_frame(&mut self) -> (r: Option<Frame>)
        requires
            old(self).wf(),
        ensures
            final(self).wf(),
            final(self).offset() == old(self).offset(),
            r == allocation_result(old(self)@),
            final(self)@ == pool_after_allocation(old(self)@),
            r matches Some(f) ==> f.wf(),
    {
        match self.nodes.pop() {
            Some(node) => {
                proof {
                    old(self).lemma_free_frames_wf();
                }
                let phys = self.virt_ptr_to_phys(node);
                assert(self@ =~= old(self)@.drop_last());
                Some(Frame { start: phys })
            },
            None => {
                assert(self@ =~= old(self)@);
                None
            },
        }
    }
}

/// A single usable region `[p, p + n * 4096)` with `p` aligned gives a pool of
/// exactly `n` pairwise-distinct frames, all inside the region; since each
/// allocation hands out and removes one frame of the pool, exactly `n`
/// allocations succeed on a fresh allocator and the next one finds it empty.
pub proof fn lemma_single_region_coverage(p: u64, n: nat)
    requires
        p % FRAME_SIZE == 0,
        p + n * FRAME_SIZE <= u64::MAX,
    ensures
        ({
            let frames = scan_frames(
                seq![Region { kind: RegionKind::Usable, start: p, end: (p + n * FRAME_SIZE) as u64 }],
                None,
            );
            &&& frames.len() == n
            &&& frames.no_duplicates()
            &&& forall|i: int| 0 <= i < n ==> frames[i] == p + i * FRAME_SIZE
            &&& forall|i: int| 0 <= i < n ==> p <= #[trigger] frames[i] < p + n * FRAME_SIZE
            &&& forall|k: nat| k < n ==> #[trigger] allocation_result(pool_after_allocations(frames, k))
                == Some(Frame { start: frames[n - 1 - k] })
            &&& allocation_result(pool_after_allocations(frames, n)) == None::<Frame>
        }),
{
    let r = Region { kind: RegionKind::Usable, start: p, end: (p + n * FRAME_SIZE) as u64 };
    let regions = seq![r];
    assert(regions.drop_last() =~= Seq::<Region>::empty());
    assert(regions.last() == r);
    let frames = scan_frames(regions, None);
    assert(scan_frames(regions.drop_last(), None) == Seq::<u64>::empty());
    assert(frames =~= region_frames(r, None));
    assert((n * 4096) / 4096 == n) by (nonlinear_arith);
    assert(region_step_count(r) == n);
    assert forall|i: int| 0 <= i < n implies frames[i] == p + i * FRAME_SIZE by {
        let a = p + i * 4096;
        assert(a < p + n * 4096) by (nonlinear_arith)
            requires
                a == p + i * 4096,
                i < n,
        ;
        assert(a % 4096 == 0) by (nonlinear_arith)
            requires
                a == p + i * 4096,
                p % 4096 == 0,
        ;
        assert(scan_address(r, i) == a);
    }
    assert forall|i: int| 0 <= i < n implies p <= #[trigger] frames[i] < p + n * FRAME_SIZE by {
        assert(i * 4096 < n * 4096) by (nonlinear_arith)
            requires
                i < n,
        ;
    }
    assert forall|i: int, j: int| 0 <= i < frames.len() && 0 <= j < frames.len() && i != j
        implies frames[i] != frames[j] by {
        assert(frames[i] == p + i * FRAME_SIZE);
        assert(frames[j] == p + j * FRAME_SIZE);
    }
    assert forall|k: nat| k < n implies #[trigger] allocation_result(pool_after_allocations(frames, k))
        == Some(Frame { start: frames[n - 1 - k] }) by {
        lemma_pool_after_allocations(frames, k);
    }
    lemma_pool_after_allocations(frames, n);
}

/// A frame handed back is the next one handed out, and handing it out leaves
/// the pool as it was before the frame was handed back.
pub proof fn lemma_lifo_round_trip(free: Seq<u64>, frame: u64)
    ensures
        allocation_result(free.push(frame)) == Some(Frame { start: frame }),
        pool_after_allocation(free.push(frame)) == free,
{
    assert(free.push(frame).drop_last() =~= free);
}

/// A memory map without a usable region gives an empty pool, on which every
/// allocation finds no frame and leaves the pool empty.
pub proof fn lemma_no_usable_region_empty(regions: Seq<Region>, limit: Option<u64>)
    requires
        forall|i: int| 0 <= i < regions.len() ==> (#[trigger] regions[i]).kind
            != RegionKind::Usable,
    ensures
        scan_frames(regions, limit) == Seq::<u64>::empty(),
        allocation_result(scan_frames(regions, limit)) == None::<Frame>,
        pool_after_allocation(scan_frames(regions, limit)) == scan_frames(regions, limit),
    decreases regions.len(),
{
    if regions.len() > 0 {
        let rest = regions.drop_last();
        assert forall|i: int| 0 <= i < rest.len() implies (#[trigger] rest[i]).kind
            != RegionKind::Usable by {
            assert(rest[i] == regions[i]);
        }
        lemma_no_usable_region_empty(rest, limit);
        assert(regions.last() == regions[regions.len() - 1]);
        assert(region_frames(regions.last(), limit) =~= Seq::<u64>::empty());
        assert(scan_frames(regions, limit) =~= Seq::<u64>::empty());
    }
}

/// Two allocators built from the same offset, memory map and scan limit hold
/// the same pool. An allocation's frame and the pool after it, and the pool
/// after a deallocation, depend on the pool and the call's argument alone, so
/// the two allocators hand out the same frames under the same calls.
pub proof fn lemma_same_inputs_same_frames(
    a: LinkedListFrameAllocator,
    b: LinkedListFrameAllocator,
    offset: u64,
    regions: Seq<Region>,
    limit: Option<u64>,
    freed: u64,
)
    requires
        a.offset() == offset && a@ == scan_frames(regions, limit),
        b.offset() == offset && b@ == scan_frames(regions, limit),
    ensures
        a@ == b@,
        a.offset() == b.offset(),
        allocation_result(a@) == allocation_result(b@),
        pool_after_allocation(a@) == pool_after_allocation(b@),
        a@.push(freed) == b@.push(freed),
{
}

} // verus!
