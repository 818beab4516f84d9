//! Physical frame allocator.
//!
//! Physical memory is managed in fixed-size, page-aligned units ("frames").
//! The allocator keeps a LIFO pool of the addresses of currently free
//! frames together with a count of them; the count always equals the number
//! of frames in the pool and is maintained incrementally on every push and
//! pop, never recomputed by traversal.

use vstd::prelude::*;

verus! {

use crate::limine::{MemoryMapEntry, RegionType};
use vstd::arithmetic::div_mod::{
    lemma_basic_div, lemma_div_is_ordered, lemma_fundamental_div_mod,
    lemma_mod_add_multiples_vanish, lemma_mod_bound, lemma_mod_multiples_basic,
};
use vstd::arithmetic::mul::{lemma_mul_is_distributive_add_other_way, lemma_mul_inequality};
use vstd::set_lib::{lemma_int_range, lemma_len_subset, set_int_range};

/// Size in bytes of one physical frame.
pub const PAGE_SIZE: usize = 4096;

/// A frame address is valid when it is page-aligned and the whole frame
/// lies inside the addressable range.
pub open spec fn valid_frame(addr: usize) -> bool {
    &&& addr % PAGE_SIZE == 0
    &&& addr + PAGE_SIZE <= usize::MAX
}

/// `addr` rounded up to the next page boundary.
pub open spec fn spec_align_up(addr: int) -> int {
    if addr % (PAGE_SIZE as int) == 0 {
        addr
    } else {
        addr + PAGE_SIZE - addr % (PAGE_SIZE as int)
    }
}

/// How many whole pages fit in `[base, base + size)` once `base` is rounded
/// up to a page boundary. A region shorter than one page after that
/// alignment trimming contributes no frames.
pub open spec fn region_frame_count(base: int, size: int) -> int {
    let start = spec_align_up(base);
    let end = base + size;
    if start <= end {
        (end - start) / (PAGE_SIZE as int)
    } else {
        0
    }
}

/// The frame addresses that `[base, base + size)` contributes, lowest first:
/// consecutive pages from the aligned start while a whole page still fits
/// before `base + size`.
pub open spec fn region_frames(base: int, size: int) -> Seq<usize> {
    Seq::new(
        region_frame_count(base, size) as nat,
        |i: int| (spec_align_up(base) + i * PAGE_SIZE) as usize,
    )
}

/// Allocator for physical memory frames.
///
/// The view of an allocator is the sequence of free frame addresses in the
/// order they were freed or added, oldest first: `allocate_frame` pops the
/// last element, `deallocate_frame` pushes one.
pub struct PhysicalMemoryAllocator {
    free_list: Vec<usize>,
    available_frames: usize,
}

impl View for PhysicalMemoryAllocator {
    type V = Seq<usize>;

    closed spec fn view(&self) -> Seq<usize> {
        self.free_list@
    }
}

impl PhysicalMemoryAllocator {
    /// Internal invariant: the count mirrors the pool, every pooled address
    /// is a valid frame, and no frame is pooled twice.
    pub closed spec fn wf(&self) -> bool {
        &&& self.available_frames == self.free_list@.len()
        &&& forall|i: int|
            0 <= i < self.free_list@.len() ==> valid_frame(#[trigger] self.free_list@[i])
        &&& self.free_list@.no_duplicates()
    }

    /// Creates an empty allocator: no free frames, count zero. Nothing is
    /// allocated for the empty pool, so this is safe to run before any
    /// heap exists.
    pub fn new() -> (r: Self)
        ensures
            r.wf(),
            r@ == Seq::<usize>::empty(),
    {
        Self { free_list: Vec::new(), available_frames: 0 }
    }

    /// Pops the most recently freed frame, or reports exhaustion.
    ///
    /// On an empty allocator this returns `None` and changes nothing;
    /// exhaustion is a recoverable outcome, never a halt.
    pub fn allocate_frame(&mut self) -> (r: Option<usize>)
        requires
            old(self).wf(),
        ensures
            final(self).wf(),
            old(self)@.len() == 0 ==> r is None && final(self)@ == old(self)@,
            old(self)@.len() > 0 ==> {
                &&& r == Some(old(self)@.last())
                &&& final(self)@ == old(self)@.drop_last()
                &&& valid_frame(old(self)@.last())
                &&& !final(self)@.contains(old(self)@.last())
            },
    {
        match self.free_list.pop() {
            None => None,
            Some(frame) => {
                self.available_frames = self.available_frames - 1;
                Some(frame)
            },
        }
    }

    /// Pushes `frame` back onto the free pool.
    ///
    /// The caller asserts that `frame` is a valid frame address and is not
    /// currently free: handing the same frame back twice is a caller
    /// contract violation, not something the allocator detects.
    pub fn deallocate_frame(&mut self, frame: usize)
        requires
            old(self).wf(),
            valid_frame(frame),
            !old(self)@.contains(frame),
        ensures
            final(self).wf(),
            final(self)@ == old(self)@.push(frame),
            final(self)@.len() == old(self)@.len() + 1,
    {
        proof {
            lemma_frame_seq_len_bound(self.free_list@);
        }
        self.free_list.push(frame);
        self.available_frames = self.available_frames + 1;
    }

    /// Adds every whole page of `[base, base + size)` to the free pool.
    ///
    /// The caller asserts that the region is free, usable physical memory
    /// that no allocator tracks yet (trusted, unchecked). `base` is rounded
    /// up to the next page boundary and each whole page that still fits
    /// before `base + size` is pushed, lowest address first, so the most
    /// recently added page is allocated first.
    #[verifier::loop_isolation(false)]
    pub fn add_region(&mut self, base: usize, size: usize)
        requires
            old(self).wf(),
            base + size <= usize::MAX,
            forall|k: int|
                0 <= k < region_frames(base as int, size as int).len()
                    ==> !old(self)@.contains(
                    #[trigger] region_frames(base as int, size as int)[k],
                ),
        ensures
            final(self).wf(),
            final(self)@ == old(self)@ + region_frames(base as int, size as int),
            final(self)@.len() == old(self)@.len() + region_frame_count(
                base as int,
                size as int,
            ),
    {
        let ghost rf = region_frames(base as int, size as int);
        let end: usize = base + size;
        let rem: usize = base % PAGE_SIZE;
        let offset: usize = if rem == 0 {
            0
        } else {
            PAGE_SIZE - rem
        };
        proof {
            assert(spec_align_up(base as int) == base + offset);
        }
        if offset > size {
            proof {
                assert(rf =~= Seq::<usize>::empty());
                assert(self@ + rf =~= self@);
            }
            return ;
        }
        let start: usize = base + offset;
        let span: usize = end - start;
        let count: usize = span / PAGE_SIZE;
        proof {
            assert(count == region_frame_count(base as int, size as int));
            lemma_fundamental_div_mod(span as int, PAGE_SIZE as int);
            lemma_mod_bound(span as int, PAGE_SIZE as int);
            assert(start + count * PAGE_SIZE <= end);
            if rem == 0 {
                lemma_mod_multiples_basic(base as int / (PAGE_SIZE as int), PAGE_SIZE as int);
            } else {
                lemma_fundamental_div_mod(base as int, PAGE_SIZE as int);
                lemma_mod_multiples_basic(
                    base as int / (PAGE_SIZE as int) + 1,
                    PAGE_SIZE as int,
                );
            }
            assert(start % PAGE_SIZE == 0);
            assert(rf.len() == count);
            assert forall|k: int| 0 <= k < count implies rf[k] == start + k * PAGE_SIZE by {
                assert(0 <= start + k * PAGE_SIZE <= usize::MAX);
            }
        }
        let mut current: usize = start;
        let mut j: usize = 0;
        proof {
            assert(self@ + rf.take(0) =~= self@);
        }
        while j < count
            invariant
                self.wf(),
                j <= count,
                current == start + j * PAGE_SIZE,
                current % PAGE_SIZE == 0,
                self@ == old(self)@ + rf.take(j as int),
            decreases count - j,
        {
            proof {
                assert(rf[j as int] == current);
                assert(valid_frame(current));
                assert(!rf.take(j as int).contains(current));
                assert(!old(self)@.contains(current));
                assert(!self@.contains(current));
            }
            self.deallocate_frame(current);
            proof {
                assert(self@ =~= old(self)@ + rf.take(j as int + 1));
                lemma_mod_add_multiples_vanish(current as int, PAGE_SIZE as int);
            }
            current = current + PAGE_SIZE;
            j = j + 1;
        }
        proof {
            assert(rf.take(count as int) =~= rf);
        }
    }

    /// Number of frames currently free, read from the incrementally
    /// maintained counter in constant time.
    pub fn available_frames(&self) -> (n: usize)
        requires
            self.wf(),
        ensures
            n == self@.len(),
    {
        self.available_frames
    }

    /// Total free memory in bytes: the free-frame count times the frame size.
    pub fn total_memory(&self) -> (n: usize)
        requires
            self.wf(),
        ensures
            n == self@.len() * PAGE_SIZE,
    {
        proof {
            lemma_frame_seq_len_bound(self.free_list@);
        }
        self.available_frames * PAGE_SIZE
    }
}

/// The frames one memory-map entry contributes when the allocator is
/// seeded: every whole aligned page of a `Usable` region, nothing from any
/// other region.
pub open spec fn entry_frames(e: MemoryMapEntry) -> Seq<usize> {
    if e.entry_type is Usable {
        region_frames(e.base as int, e.length as int)
    } else {
        Seq::empty()
    }
}

/// All frames the memory map contributes, region by region in map order.
pub open spec fn seeded_frames(entries: Seq<MemoryMapEntry>) -> Seq<usize>
    decreases entries.len(),
{
    if entries.len() == 0 {
        Seq::empty()
    } else {
        seeded_frames(entries.drop_last()) + entry_frames(entries.last())
    }
}

/// How many frames one memory-map entry contributes to the seeding.
pub open spec fn entry_frame_count(e: MemoryMapEntry) -> int {
    if e.entry_type is Usable {
        region_frame_count(e.base as int, e.length as int)
    } else {
        0
    }
}

/// The sum, over the memory-map entries, of the frames each contributes.
pub open spec fn seeded_frame_count(entries: Seq<MemoryMapEntry>) -> int
    decreases entries.len(),
{
    if entries.len() == 0 {
        0
    } else {
        seeded_frame_count(entries.drop_last()) + entry_frame_count(entries.last())
    }
}

/// Builds the frame allocator and seeds it from the loader's memory map:
/// every `Usable` region is ingested in map order, all other regions are
/// skipped. The caller asserts that the usable regions are untracked
/// physical memory whose page frames do not collide.
#[verifier::loop_isolation(false)]
pub fn init(entries: &Vec<MemoryMapEntry>) -> (pmm: PhysicalMemoryAllocator)
    requires
        forall|i: int|
            0 <= i < entries@.len() && (#[trigger] entries@[i]).entry_type is Usable
                ==> entries@[i].base + entries@[i].length <= usize::MAX,
        seeded_frames(entries@).no_duplicates(),
    ensures
        pmm.wf(),
        pmm@ == seeded_frames(entries@),
        pmm@.len() == seeded_frame_count(entries@),
{
    let mut pmm = PhysicalMemoryAllocator::new();
    proof {
        assert(seeded_frames(entries@.take(0)) =~= Seq::<usize>::empty());
    }
    let n = entries.len();
    let mut i: usize = 0;
    while i < n
        invariant
            pmm.wf(),
            i <= n,
            pmm@ == seeded_frames(entries@.take(i as int)),
        decreases n - i,
    {
        let e = entries[i];
        let ghost prefix = seeded_frames(entries@.take(i as int));
        let ghost ef = entry_frames(entries@[i as int]);
        proof {
            assert(entries@.take(i as int + 1).drop_last() =~= entries@.take(i as int));
            assert(entries@.take(i as int + 1).last() == entries@[i as int]);
            assert(seeded_frames(entries@.take(i as int + 1)) == prefix + ef);
            lemma_seeded_frames_split(entries@, i as int + 1);
            let rest = choose|rest: Seq<usize>|
                seeded_frames(entries@) == #[trigger] (seeded_frames(
                    entries@.take(i as int + 1),
                ) + rest);
            lemma_concat_no_duplicates_parts(prefix + ef, rest);
            lemma_concat_no_duplicates_parts(prefix, ef);
        }
        match e.entry_type {
            RegionType::Usable => {
                proof {
                    assert(ef == region_frames(e.base as int, e.length as int));
                }
                pmm.add_region(e.base as usize, e.length as usize);
            },
            _ => {
                proof {
                    assert(prefix + ef =~= prefix);
                }
            },
        }
        proof {
            assert(pmm@ == seeded_frames(entries@.take(i as int + 1)));
        }
        i = i + 1;
    }
    proof {
        assert(entries@.take(n as int) =~= entries@);
        lemma_seeded_frames_count(entries@);
    }
    pmm
}

/// Human-readable name of a memory-region classification, as logged while
/// the memory map is walked during seeding.
pub fn memory_region_to_string(ty: RegionType) -> (r: &'static str)
    ensures
        ty is Usable ==> r@ == "Usable"@,
        ty is Reserved ==> r@ == "Reserved"@,
        ty is AcpiReclaimable ==> r@ == "ACPI Reclaimable"@,
        ty is AcpiNvs ==> r@ == "ACPI NVS"@,
        ty is BadMemory ==> r@ == "Bad Memory"@,
        ty is BootloaderReclaimable ==> r@ == "Bootloader Reclaimable"@,
        ty is Unknown ==> r@ == "Unknown"@,
{
    match ty {
        RegionType::Usable => "Usable",
        RegionType::Reserved => "Reserved",
        RegionType::AcpiReclaimable => "ACPI Reclaimable",
        RegionType::AcpiNvs => "ACPI NVS",
        RegionType::BadMemory => "Bad Memory",
        RegionType::BootloaderReclaimable => "Bootloader Reclaimable",
        RegionType::Unknown => "Unknown",
    }
}

/// Seeding a prefix of the memory map contributes a prefix of the seeded
/// frames: the remaining entries only append.
proof fn lemma_seeded_frames_split(entries: Seq<MemoryMapEntry>, j: int)
    requires
        0 <= j <= entries.len(),
    ensures
        exists|rest: Seq<usize>|
            seeded_frames(entries) == #[trigger] (seeded_frames(entries.take(j)) + rest),
    decreases entries.len() - j,
{
    if j == entries.len() {
        assert(entries.take(j) =~= entries);
        assert(seeded_frames(entries) == seeded_frames(entries.take(j)) + Seq::<usize>::empty())
            by {
            assert(seeded_frames(entries.take(j)) + Seq::<usize>::empty() =~= seeded_frames(
                entries.take(j),
            ));
        }
    } else {
        lemma_seeded_frames_split(entries, j + 1);
        let rest1 = choose|rest: Seq<usize>|
            seeded_frames(entries) == #[trigger] (seeded_frames(entries.take(j + 1)) + rest);
        assert(entries.take(j + 1).drop_last() =~= entries.take(j));
        assert(entries.take(j + 1).last() == entries[j]);
        let ef = entry_frames(entries[j]);
        assert(seeded_frames(entries) == seeded_frames(entries.take(j)) + (ef + rest1)) by {
            assert((seeded_frames(entries.take(j)) + ef) + rest1 =~= seeded_frames(
                entries.take(j),
            ) + (ef + rest1));
        }
    }
}

/// In a duplicate-free concatenation both halves are duplicate-free and
/// share no element.
proof fn lemma_concat_no_duplicates_parts(a: Seq<usize>, b: Seq<usize>)
    requires
        (a + b).no_duplicates(),
    ensures
        a.no_duplicates(),
        b.no_duplicates(),
        forall|x: usize| a.contains(x) ==> !b.contains(x),
{
    assert forall|i: int, j: int|
        0 <= i < a.len() && 0 <= j < a.len() && i != j implies a[i] != a[j] by {
        assert((a + b)[i] == a[i]);
        assert((a + b)[j] == a[j]);
    }
    assert forall|i: int, j: int|
        0 <= i < b.len() && 0 <= j < b.len() && i != j implies b[i] != b[j] by {
        assert((a + b)[a.len() + i] == b[i]);
        assert((a + b)[a.len() + j] == b[j]);
    }
    assert forall|x: usize| a.contains(x) implies !b.contains(x) by {
        if b.contains(x) {
            let i = choose|i: int| 0 <= i < a.len() && a[i] == x;
            let j = choose|j: int| 0 <= j < b.len() && b[j] == x;
            assert((a + b)[i] == x);
            assert((a + b)[a.len() + j] == x);
        }
    }
}

/// Law: seeding yields exactly as many available frames as the sum, over
/// the ingested regions, of the whole aligned pages each contributed.
pub proof fn lemma_seeded_frames_count(entries: Seq<MemoryMapEntry>)
    ensures
        seeded_frames(entries).len() == seeded_frame_count(entries),
    decreases entries.len(),
{
    if entries.len() > 0 {
        lemma_seeded_frames_count(entries.drop_last());
    }
}

/// Law: allocating a frame and immediately handing it back restores the
/// free pool, and with it the available-frame count, to its prior value:
/// `allocate_frame` pops `frames.last()` and leaves `frames.drop_last()`,
/// and `deallocate_frame` of that same frame pushes it back.
pub proof fn lemma_allocate_deallocate_round_trip(frames: Seq<usize>)
    requires
        frames.len() > 0,
    ensures
        frames.drop_last().push(frames.last()) == frames,
{
    assert(frames.drop_last().push(frames.last()) =~= frames);
}

/// Law: a region shorter than one page after alignment trimming (its end
/// lies less than one page past the aligned start) contributes zero frames,
/// so ingesting it leaves the free pool unchanged.
pub proof fn lemma_short_region_contributes_nothing(base: int, size: int)
    requires
        base + size < spec_align_up(base) + PAGE_SIZE,
    ensures
        region_frame_count(base, size) == 0,
        region_frames(base, size) == Seq::<usize>::empty(),
{
    let start = spec_align_up(base);
    let end = base + size;
    if start <= end {
        lemma_basic_div(end - start, PAGE_SIZE as int);
    }
    assert(region_frames(base, size) =~= Seq::<usize>::empty());
}

/// Law: frees are reused last-in-first-out. After freeing `a` and then `b`
/// onto any pool, the next allocation returns `b` and leaves the pool with
/// `a` freed, and the allocation after that returns `a` and restores the
/// prior pool.
pub proof fn lemma_free_order_lifo(frames: Seq<usize>, a: usize, b: usize)
    ensures
        frames.push(a).push(b).last() == b,
        frames.push(a).push(b).drop_last() == frames.push(a),
        frames.push(a).last() == a,
        frames.push(a).drop_last() == frames,
{
    assert(frames.push(a).push(b).drop_last() =~= frames.push(a));
    assert(frames.push(a).drop_last() =~= frames);
}

/// Distinct valid frames are distinct pages, so a duplicate-free pool can
/// never hold more frames than the address space has pages; in particular
/// its total size in bytes fits in `usize`.
proof fn lemma_frame_seq_len_bound(s: Seq<usize>)
    requires
        s.no_duplicates(),
        forall|i: int| 0 <= i < s.len() ==> valid_frame(#[trigger] s[i]),
    ensures
        s.len() * PAGE_SIZE <= usize::MAX,
        s.len() < usize::MAX,
{
    let ps = PAGE_SIZE as int;
    let m = usize::MAX as int;
    let pages = (m - ps) / ps + 1;
    let t = s.map_values(|f: usize| f as int / ps);
    assert forall|i: int, j: int|
        0 <= i < t.len() && 0 <= j < t.len() && i != j implies t[i] != t[j] by {
        lemma_fundamental_div_mod(s[i] as int, ps);
        lemma_fundamental_div_mod(s[j] as int, ps);
    }
    assert(t.no_duplicates());
    t.unique_seq_to_set();
    let range = set_int_range(0, pages);
    lemma_int_range(0, pages);
    assert forall|x: int| t.to_set().contains(x) implies range.contains(x) by {
        let i = choose|i: int| 0 <= i < t.len() && t[i] == x;
        lemma_div_is_ordered(0, s[i] as int, ps);
        lemma_div_is_ordered(s[i] as int, m - ps, ps);
    }
    lemma_len_subset(t.to_set(), range);
    assert(s.len() <= pages);
    let q = (m - ps) / ps;
    lemma_mul_inequality(s.len() as int, pages, ps);
    lemma_fundamental_div_mod(m - ps, ps);
    lemma_mod_bound(m - ps, ps);
    lemma_mul_is_distributive_add_other_way(ps, q, 1);
    assert(q * ps <= m - ps);
    assert(pages * ps <= m);
    assert(s.len() * ps <= m);
    let n = s.len() as int;
    assert(n < m) by (nonlinear_arith)
        requires
            n * ps <= m,
            ps >= 2,
            0 <= n,
            m >= ps,
    ;
}

} // verus!
