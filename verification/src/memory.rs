//! The memory bootstrap: the firmware memory map as plain records, the bump
//! frame allocator that enumerates usable 4 KiB frames, and the mapping plan
//! for the fixed-range kernel heap. The page-table writes themselves are
//! hardware work done outside this crate; here the frames are chosen and
//! the page-to-frame assignment is computed and proved.

use vstd::arithmetic::div_mod::{
    lemma_div_is_ordered, lemma_fundamental_div_mod, lemma_mod_multiples_vanish,
};
use vstd::prelude::*;

verus! {

/// Size of a physical frame and of a virtual page, in bytes.
pub const PAGE_SIZE: u64 = 4096;

/// Physical addresses fit in 52 bits on x86_64.
pub const MAX_PHYS_ADDR: u64 = 0x10_0000_0000_0000;

/// The lowest non-canonical virtual address: addresses below it have bit 47
/// clear and need no sign extension.
pub const MAX_LOW_VIRT_ADDR: u64 = 0x8000_0000_0000;

/// One record of the firmware memory map: a half-open range of physical
/// addresses and whether the firmware reports it as usable.
#[derive(Debug, Clone, Copy, PartialEq, Eq, Structural)]
pub struct MemoryRegion {
    /// First address of the region.
    pub start_addr: u64,
    /// First address past the region.
    pub end_addr: u64,
    /// Whether the region is reported usable.
    pub usable: bool,
}

/// `addr` rounded down to the 4 KiB boundary at or below it.
pub open spec fn align_down_4k(addr: int) -> int {
    addr - (addr % 4096)
}

/// How many frame start addresses the enumeration draws from one region:
/// one for each 4096-byte step from `start_addr` that stays below
/// `end_addr`, and none from an unusable or empty region.
pub open spec fn region_frame_count(r: MemoryRegion) -> int {
    if r.usable && r.start_addr < r.end_addr {
        let span = r.end_addr - r.start_addr;
        span / 4096 + (if span % 4096 == 0 {
            0int
        } else {
            1int
        })
    } else {
        0
    }
}

/// The frame start addresses one region contributes, in enumeration order:
/// the 4 KiB frame containing each stepped address.
pub open spec fn region_frames(r: MemoryRegion) -> Seq<u64> {
    Seq::new(
        region_frame_count(r) as nat,
        |k: int| align_down_4k(r.start_addr + 4096 * k) as u64,
    )
}

/// All frame start addresses the memory map yields, region by region in map
/// order.
pub open spec fn usable_frames_seq(regions: Seq<MemoryRegion>) -> Seq<u64>
    decreases regions.len(),
{
    if regions.len() == 0 {
        Seq::empty()
    } else {
        region_frames(regions[0]) + usable_frames_seq(regions.subrange(1, regions.len() as int))
    }
}

/// Every usable region keeps its addresses inside the 52-bit physical
/// address space and does not end before it starts.
pub open spec fn regions_wf(regions: Seq<MemoryRegion>) -> bool {
    forall|i: int|
        0 <= i < regions.len() && (#[trigger] regions[i]).usable ==> regions[i].start_addr
            <= regions[i].end_addr && regions[i].end_addr <= MAX_PHYS_ADDR
}

/// Relies on `x86_64::PhysAddr::new` and
/// `x86_64::structures::paging::PhysFrame::containing_address`: the 4 KiB
/// frame containing a physical address starts at that address rounded down
/// to a multiple of 4096. `PhysAddr::new` accepts only addresses that fit
/// in 52 bits.
#[verifier::external_body]
fn phys_frame_base(addr: u64) -> (base: u64)
    requires
        addr < MAX_PHYS_ADDR,
    ensures
        base == align_down_4k(addr as int),
{
    let frame: x86_64::structures::paging::PhysFrame<x86_64::structures::paging::Size4KiB> =
        x86_64::structures::paging::PhysFrame::containing_address(x86_64::PhysAddr::new(addr));
    frame.start_address().as_u64()
}

/// Relies on `x86_64::VirtAddr::new` and
/// `x86_64::structures::paging::Page::containing_address`: the 4 KiB page
/// containing a canonical virtual address starts at that address rounded
/// down to a multiple of 4096. `VirtAddr::new` accepts low-half addresses
/// without sign extension.
#[verifier::external_body]
fn page_base(addr: u64) -> (base: u64)
    requires
        addr < MAX_LOW_VIRT_ADDR,
    ensures
        base == align_down_4k(addr as int),
{
    let page: x86_64::structures::paging::Page<x86_64::structures::paging::Size4KiB> =
        x86_64::structures::paging::Page::containing_address(x86_64::VirtAddr::new(addr));
    page.start_address().as_u64()
}

/// The bump frame allocator: the firmware memory map plus a monotonic
/// cursor into the enumeration of usable frames. Frames are never freed or
/// recycled.
pub struct BootInfoFrameAllocator {
    /// The firmware memory map.
    pub memory_map: Vec<MemoryRegion>,
    /// How many frames have been handed out.
    pub next: usize,
}

impl BootInfoFrameAllocator {
    /// The allocator is well formed when its memory map is.
    pub open spec fn wf(self) -> bool {
        regions_wf(self.memory_map@)
    }

    /// Builds a frame allocator over the given memory map, with the cursor
    /// at the first usable frame.
    pub fn init(memory_map: Vec<MemoryRegion>) -> (a: BootInfoFrameAllocator)
        requires
            regions_wf(memory_map@),
        ensures
            a.memory_map == memory_map,
            a.next == 0,
            a.wf(),
    {
        BootInfoFrameAllocator { memory_map, next: 0 }
    }

    /// Hands out the start address of the `next`-th usable frame and
    /// advances the cursor, or reports exhaustion once the enumeration runs
    /// out. The cursor advances either way, exactly as a lazily re-run
    /// enumeration would.
    pub fn allocate_frame(&mut self) -> (r: Option<u64>)
        requires
            old(self).wf(),
            old(self).next < usize::MAX,
        ensures
            final(self).wf(),
            final(self).memory_map == old(self).memory_map,
            final(self).next == old(self).next + 1,
            ({
                let frames = usable_frames_seq(old(self).memory_map@);
                r == if old(self).next < frames.len() {
                    Some(frames[old(self).next as int])
                } else {
                    None::<u64>
                }
            }),
    {
        let r = frame_from(&self.memory_map, 0, self.next as u64);
        self.next = self.next + 1;
        proof {
            assert(self.memory_map@.subrange(0, self.memory_map@.len() as int)
                =~= self.memory_map@);
        }
        r
    }
}

/// Walks the regions from slot `i` and returns the `remaining`-th usable
/// frame they contribute, if that many are left.
fn frame_from(regions: &Vec<MemoryRegion>, i: usize, remaining: u64) -> (r: Option<u64>)
    requires
        i <= regions@.len(),
        regions_wf(regions@),
    ensures
        ({
            let frames = usable_frames_seq(regions@.subrange(i as int, regions@.len() as int));
            r == if remaining < frames.len() {
                Some(frames[remaining as int])
            } else {
                None::<u64>
            }
        }),
    decreases regions@.len() - i,
{
    let ghost suffix = regions@.subrange(i as int, regions@.len() as int);
    if i == regions.len() {
        return None;
    }
    let region = regions[i];
    proof {
        assert(suffix[0] == regions@[i as int]);
        assert(suffix.subrange(1, suffix.len() as int) =~= regions@.subrange(
            i as int + 1,
            regions@.len() as int,
        ));
    }
    let count: u64 = if region.usable && region.start_addr < region.end_addr {
        let span = region.end_addr - region.start_addr;
        span / 4096 + (if span % 4096 != 0 {
            1
        } else {
            0
        })
    } else {
        0
    };
    proof {
        assert(count == region_frame_count(region));
    }
    if remaining < count {
        proof {
            let span = region.end_addr - region.start_addr;
            lemma_fundamental_div_mod(span as int, 4096);
            assert(4096 * (remaining as int) < span);
            assert(region.start_addr + 4096 * remaining < region.end_addr);
        }
        let candidate = region.start_addr + 4096 * remaining;
        let base = phys_frame_base(candidate);
        proof {
            assert(usable_frames_seq(suffix)[remaining as int] == region_frames(region)[
                remaining as int]);
        }
        Some(base)
    } else {
        let r = frame_from(regions, i + 1, remaining - count);
        proof {
            let rest = usable_frames_seq(
                regions@.subrange(i as int + 1, regions@.len() as int),
            );
            assert(usable_frames_seq(suffix) == region_frames(region) + rest);
            assert(usable_frames_seq(suffix).len() == count + rest.len());
            if remaining - count < rest.len() {
                assert(usable_frames_seq(suffix)[remaining as int] == rest[remaining as int
                    - count as int]);
            }
        }
        r
    }
}

/// A firmware memory map as boot shims deliver it: usable regions are
/// 4 KiB-aligned at their start, and regions come sorted and disjoint.
pub open spec fn regions_sorted_aligned(regions: Seq<MemoryRegion>) -> bool {
    &&& regions_wf(regions)
    &&& forall|i: int|
        0 <= i < regions.len() && (#[trigger] regions[i]).usable ==> regions[i].start_addr % 4096
            == 0
    &&& forall|i: int, j: int|
        0 <= i < j < regions.len() && (#[trigger] regions[i]).usable && (#[trigger] regions[j]).usable
            ==> regions[i].end_addr <= regions[j].start_addr
}

/// The frames a sorted, aligned map yields are strictly increasing, and all
/// of them lie at or above `lo` when every usable region does.
proof fn lemma_frames_increasing_from(regions: Seq<MemoryRegion>, lo: int)
    requires
        regions_sorted_aligned(regions),
        forall|i: int|
            0 <= i < regions.len() && (#[trigger] regions[i]).usable ==> lo <= regions[i].start_addr,
    ensures
        forall|a: int, b: int|
            0 <= a < b < usable_frames_seq(regions).len() ==> usable_frames_seq(regions)[a]
                < usable_frames_seq(regions)[b],
        forall|a: int|
            0 <= a < usable_frames_seq(regions).len() ==> lo <= usable_frames_seq(regions)[a],
    decreases regions.len(),
{
    if regions.len() > 0 {
        let r0 = regions[0];
        let tail = regions.subrange(1, regions.len() as int);
        let head_frames = region_frames(r0);
        let rest = usable_frames_seq(tail);
        let count = region_frame_count(r0);
        assert forall|i: int|
            0 <= i < tail.len() && (#[trigger] tail[i]).usable implies tail[i].start_addr
            <= tail[i].end_addr && tail[i].end_addr <= MAX_PHYS_ADDR && tail[i].start_addr % 4096
            == 0 by {
            assert(tail[i] == regions[i + 1]);
        }
        assert forall|i: int, j: int|
            0 <= i < j < tail.len() && (#[trigger] tail[i]).usable && (#[trigger] tail[j]).usable
            implies tail[i].end_addr <= tail[j].start_addr by {
            assert(tail[i] == regions[i + 1] && tail[j] == regions[j + 1]);
        }
        if count > 0 {
            // The head region is usable and non-empty: its frames step by
            // 4096 from its aligned start and stay below its end.
            let span = r0.end_addr - r0.start_addr;
            lemma_fundamental_div_mod(span as int, 4096);
            assert forall|k: int| 0 <= k < count implies #[trigger] head_frames[k] == r0.start_addr
                + 4096 * k && r0.start_addr + 4096 * k < r0.end_addr by {
                lemma_mod_multiples_vanish(k, r0.start_addr as int, 4096);
                assert((r0.start_addr + 4096 * k) % 4096 == 0);
                assert(4096 * k <= 4096 * (count - 1));
            }
            assert forall|i: int|
                0 <= i < tail.len() && (#[trigger] tail[i]).usable implies r0.end_addr <= tail[i].start_addr by {
                assert(tail[i] == regions[i + 1]);
            }
            lemma_frames_increasing_from(tail, r0.end_addr as int);
        } else {
            assert forall|i: int|
                0 <= i < tail.len() && (#[trigger] tail[i]).usable implies lo <= tail[i].start_addr by {
                assert(tail[i] == regions[i + 1]);
            }
            lemma_frames_increasing_from(tail, lo);
        }
        assert(usable_frames_seq(regions) == head_frames + rest);
        assert forall|a: int, b: int|
            0 <= a < b < usable_frames_seq(regions).len() implies usable_frames_seq(regions)[a]
            < usable_frames_seq(regions)[b] by {
            if b < count {
                assert(head_frames[a] < head_frames[b]);
            } else if a >= count {
                assert(rest[a - count] < rest[b - count]);
            } else {
                assert(head_frames[a] < r0.end_addr <= rest[b - count]);
            }
        }
    }
}

/// The frame allocator never yields the same frame address twice: over a
/// sorted, aligned firmware map the enumeration of usable frames is
/// strictly increasing, so its entries are pairwise distinct — and the
/// cursor only moves forward, so successive `allocate_frame` calls return
/// entries at distinct positions.
pub proof fn lemma_frames_never_repeat(regions: Seq<MemoryRegion>)
    requires
        regions_sorted_aligned(regions),
    ensures
        forall|a: int, b: int|
            0 <= a < b < usable_frames_seq(regions).len() ==> usable_frames_seq(regions)[a]
                < usable_frames_seq(regions)[b],
{
    lemma_frames_increasing_from(regions, 0);
}

/// A mapping plan whose frames are drawn from consecutive positions of a
/// strictly increasing frame enumeration backs no two pages with the same
/// frame.
pub proof fn lemma_plan_frames_distinct(plan: Seq<PageMapping>, frames: Seq<u64>, cursor: int)
    requires
        0 <= cursor,
        cursor + plan.len() <= frames.len(),
        forall|k: int| 0 <= k < plan.len() ==> (#[trigger] plan[k]).frame == frames[cursor + k],
        forall|a: int, b: int| 0 <= a < b < frames.len() ==> frames[a] < frames[b],
    ensures
        forall|k1: int, k2: int|
            0 <= k1 < k2 < plan.len() ==> plan[k1].frame != plan[k2].frame,
{
    assert forall|k1: int, k2: int| 0 <= k1 < k2 < plan.len() implies plan[k1].frame != plan[k2].frame by {
        assert(frames[cursor + k1] < frames[cursor + k2]);
    }
}

/// First virtual address of the kernel heap window.
pub const HEAP_START: u64 = 0x4444_4444_0000;

/// Size of the kernel heap window in bytes.
pub const HEAP_SIZE: u64 = 100 * 1024;

/// One entry of a mapping plan: this 4 KiB page is to be backed by this
/// 4 KiB frame, present and writable.
#[derive(Debug, Clone, Copy, PartialEq, Eq, Structural)]
pub struct PageMapping {
    /// Start address of the virtual page.
    pub page: u64,
    /// Start address of the physical frame backing it.
    pub frame: u64,
}

/// How many pages the range `[start, start + size)` touches: one for each
/// 4 KiB boundary from the page containing `start` to the page containing
/// the last byte.
pub open spec fn pages_in_range(start: int, size: int) -> int {
    (align_down_4k(start + size - 1) - align_down_4k(start)) / 4096 + 1
}

/// Computes the mapping plan for the address range `[start, start + size)`:
/// one freshly allocated frame for each page the range touches, in page
/// order. Returns nothing exactly when the frame enumeration runs out
/// first; the caller treats that as a boot-time hard error.
pub fn map_range(start: u64, size: u64, frame_allocator: &mut BootInfoFrameAllocator) -> (r:
    Option<Vec<PageMapping>>)
    requires
        size > 0,
        start + size <= MAX_LOW_VIRT_ADDR,
        old(frame_allocator).wf(),
        old(frame_allocator).next + pages_in_range(start as int, size as int) <= usize::MAX,
    ensures
        final(frame_allocator).wf(),
        final(frame_allocator).memory_map == old(frame_allocator).memory_map,
        ({
            let frames = usable_frames_seq(old(frame_allocator).memory_map@);
            let first_page = align_down_4k(start as int);
            let page_count = pages_in_range(start as int, size as int);
            let cursor = old(frame_allocator).next as int;
            match r {
                Some(v) => {
                    &&& cursor + page_count <= frames.len()
                    &&& v@.len() == page_count
                    &&& forall|k: int|
                        0 <= k < page_count ==> (#[trigger] v@[k]).page == first_page + 4096 * k
                    &&& forall|k: int|
                        0 <= k < page_count ==> (#[trigger] v@[k]).frame == frames[cursor + k]
                    &&& final(frame_allocator).next == cursor + page_count
                },
                None => {
                    &&& cursor + page_count > frames.len()
                    &&& final(frame_allocator).next == (if cursor <= frames.len() {
                        frames.len() as int
                    } else {
                        cursor
                    }) + 1
                },
            }
        }),
{
    let first_page = page_base(start);
    let last_page = page_base(start + size - 1);
    proof {
        lemma_div_is_ordered(start as int, start as int + size - 1, 4096);
        lemma_fundamental_div_mod(start as int, 4096);
        lemma_fundamental_div_mod(start as int + size - 1, 4096);
        assert(first_page <= last_page);
        assert((last_page - first_page) % 4096 == 0) by {
            let a = start as int;
            let b = start as int + size - 1;
            assert(align_down_4k(a) == 4096 * (a / 4096));
            assert(align_down_4k(b) == 4096 * (b / 4096));
            lemma_mod_multiples_vanish(b / 4096 - a / 4096, 0, 4096);
        }
    }
    let page_count = (last_page - first_page) / 4096 + 1;
    let ghost frames = usable_frames_seq(frame_allocator.memory_map@);
    let ghost cursor = frame_allocator.next as int;
    let mut plan: Vec<PageMapping> = Vec::new();
    let mut k: u64 = 0;
    while k < page_count
        invariant
            0 <= k <= page_count,
            page_count == pages_in_range(start as int, size as int),
            first_page == align_down_4k(start as int),
            first_page + 4096 * (page_count - 1) == align_down_4k(start as int + size - 1),
            start as int + size <= MAX_LOW_VIRT_ADDR,
            frame_allocator.wf(),
            frames == usable_frames_seq(frame_allocator.memory_map@),
            frame_allocator.memory_map == old(frame_allocator).memory_map,
            cursor == old(frame_allocator).next as int,
            cursor + page_count <= usize::MAX,
            frame_allocator.next == cursor + k,
            k > 0 ==> cursor + k <= frames.len(),
            plan@.len() == k,
            forall|m: int| 0 <= m < k ==> (#[trigger] plan@[m]).page == first_page + 4096 * m,
            forall|m: int| 0 <= m < k ==> (#[trigger] plan@[m]).frame == frames[cursor + m],
        decreases page_count - k,
    {
        let frame = frame_allocator.allocate_frame();
        match frame {
            None => {
                return None;
            },
            Some(frame_addr) => {
                proof {
                    assert(4096 * (k as int) <= 4096 * (page_count - 1));
                }
                let page = first_page + 4096 * k;
                plan.push(PageMapping { page, frame: frame_addr });
            },
        }
        k = k + 1;
    }
    Some(plan)
}

/// Every page of the heap window is mapped exactly once by a heap mapping
/// plan: each plan entry names an aligned page inside the window, no two
/// entries name the same page, and every aligned page of the window is
/// named by some entry.
pub proof fn lemma_heap_window_mapped_once(plan: Seq<PageMapping>)
    requires
        plan.len() == HEAP_SIZE / PAGE_SIZE,
        forall|k: int| 0 <= k < plan.len() ==> (#[trigger] plan[k]).page == HEAP_START + 4096 * k,
    ensures
        forall|k: int|
            0 <= k < plan.len() ==> HEAP_START <= (#[trigger] plan[k]).page < HEAP_START
                + HEAP_SIZE && plan[k].page % 4096 == 0,
        forall|k1: int, k2: int| 0 <= k1 < k2 < plan.len() ==> plan[k1].page != plan[k2].page,
        forall|p: int|
            HEAP_START <= p < HEAP_START + HEAP_SIZE && (#[trigger] (p % 4096)) == 0
                ==> exists|k: int| 0 <= k < plan.len() && (#[trigger] plan[k]).page == p,
{
    assert forall|k: int|
        0 <= k < plan.len() implies HEAP_START <= (#[trigger] plan[k]).page < HEAP_START
        + HEAP_SIZE && plan[k].page % 4096 == 0 by {
        lemma_mod_multiples_vanish(k, HEAP_START as int, 4096);
        assert((HEAP_START + 4096 * k) % 4096 == HEAP_START % 4096);
    }
    assert forall|k1: int, k2: int| 0 <= k1 < k2 < plan.len() implies plan[k1].page != plan[k2].page
        by {
        assert(plan[k1].page == HEAP_START + 4096 * k1);
        assert(plan[k2].page == HEAP_START + 4096 * k2);
    }
    assert forall|p: int|
        HEAP_START <= p < HEAP_START + HEAP_SIZE && (#[trigger] (p % 4096)) == 0 implies exists|
        k: int,
    | 0 <= k < plan.len() && (#[trigger] plan[k]).page == p by {
        let offset = p - HEAP_START;
        lemma_fundamental_div_mod(p, 4096);
        lemma_fundamental_div_mod(HEAP_START as int, 4096);
        let k = offset / 4096;
        assert(offset == 4096 * (p / 4096) - 4096 * (HEAP_START as int / 4096));
        assert(offset == 4096 * (p / 4096 - HEAP_START as int / 4096));
        lemma_mod_multiples_vanish(p / 4096 - HEAP_START as int / 4096, 0, 4096);
        assert(offset % 4096 == 0);
        lemma_fundamental_div_mod(offset, 4096);
        assert(offset == 4096 * k);
        lemma_div_is_ordered(0, offset, 4096);
        lemma_div_is_ordered(offset, HEAP_SIZE as int - 1, 4096);
        assert(0 <= k < plan.len());
        assert(plan[k].page == HEAP_START + 4096 * k);
        assert(plan[k].page == p);
    }
}

/// Computes the mapping plan for the kernel heap window
/// `[HEAP_START, HEAP_START + HEAP_SIZE)`: every page of the window backed
/// by a freshly allocated frame. Returns nothing exactly when the firmware
/// map reports fewer usable frames than the heap needs; boot then fails
/// before any task runs.
pub fn map_heap(frame_allocator: &mut BootInfoFrameAllocator) -> (r: Option<Vec<PageMapping>>)
    requires
        old(frame_allocator).wf(),
        old(frame_allocator).next + pages_in_range(HEAP_START as int, HEAP_SIZE as int)
            <= usize::MAX,
    ensures
        final(frame_allocator).wf(),
        final(frame_allocator).memory_map == old(frame_allocator).memory_map,
        ({
            let frames = usable_frames_seq(old(frame_allocator).memory_map@);
            let page_count = pages_in_range(HEAP_START as int, HEAP_SIZE as int);
            let cursor = old(frame_allocator).next as int;
            match r {
                Some(v) => {
                    &&& page_count == HEAP_SIZE / PAGE_SIZE
                    &&& cursor + page_count <= frames.len()
                    &&& v@.len() == page_count
                    &&& forall|k: int|
                        0 <= k < page_count ==> (#[trigger] v@[k]).page == HEAP_START + 4096 * k
                    &&& forall|k: int|
                        0 <= k < page_count ==> (#[trigger] v@[k]).frame == frames[cursor + k]
                    &&& final(frame_allocator).next == cursor + page_count
                },
                None => cursor + page_count > frames.len(),
            }
        }),
{
    map_range(HEAP_START, HEAP_SIZE, frame_allocator)
}

} // verus!
