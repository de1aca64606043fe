//! Physical frame allocation from the boot-supplied memory map: a monotonic
//! bump allocator that hands out 4 KiB frames drawn from the usable regions,
//! in map order, and never reuses a frame.

use vstd::prelude::*;
use crate::addr::{align_down, is_page_aligned, spec_page_base};

verus! {

/// Classification of a memory-map region. Only usable regions supply frames.
#[derive(Clone, Copy, PartialEq, Eq, Structural, Debug)]
pub enum RegionKind {
    Usable,
    Reserved,
}

/// One region of the boot memory map: the physical byte range `start..end`.
#[derive(Clone, Copy, PartialEq, Eq, Structural, Debug)]
pub struct MemoryRegion {
    pub start: u64,
    pub end: u64,
    pub kind: RegionKind,
}

/// How many frame start addresses `start..end` stepped by 4096 yields.
pub open spec fn region_frame_count(r: MemoryRegion) -> int {
    if r.start < r.end {
        (r.end - r.start + 4095) / 4096
    } else {
        0
    }
}

/// The `k`-th frame drawn from region `r`: the frame containing
/// `start + 4096 * k`.
pub open spec fn region_frame(r: MemoryRegion, k: int) -> u64 {
    (((r.start + 4096 * k) / 4096) * 4096) as u64
}

/// The frames of one region, in order, if it is usable; empty otherwise.
pub open spec fn region_frames(r: MemoryRegion) -> Seq<u64> {
    if r.kind is Usable {
        Seq::new(region_frame_count(r) as nat, |k: int| region_frame(r, k))
    } else {
        Seq::empty()
    }
}

/// Every usable frame of the map, region by region in map order.
pub open spec fn usable_frames(regions: Seq<MemoryRegion>) -> Seq<u64>
    decreases regions.len(),
{
    if regions.len() == 0 {
        Seq::empty()
    } else {
        region_frames(regions[0]) + usable_frames(regions.skip(1))
    }
}

/// A well-formed region: page-aligned bounds in order.
pub open spec fn wf_region(r: MemoryRegion) -> bool {
    &&& is_page_aligned(r.start)
    &&& is_page_aligned(r.end)
    &&& r.start <= r.end
}

/// A well-formed memory map: aligned regions that do not overlap.
pub open spec fn wf_memory_map(regions: Seq<MemoryRegion>) -> bool {
    &&& forall|i: int| 0 <= i < regions.len() ==> wf_region(#[trigger] regions[i])
    &&& forall|i: int, j: int|
        0 <= i < j < regions.len() ==> (#[trigger] regions[i]).end <= (#[trigger] regions[j]).start
            || regions[j].end <= regions[i].start
}

/// `f` lies inside region `r`.
pub open spec fn frame_in_region(r: MemoryRegion, f: u64) -> bool {
    r.start <= f < r.end
}

/// The `k`-th frame start address of a region stays below its end.
proof fn lemma_frame_addr_in_range(start: u64, end: u64, k: u64)
    by (nonlinear_arith)
    requires
        start < end,
        k < (end - start + 4095) / 4096,
    ensures
        start + 4096 * k < end,
{
}

/// The executable frame count of a region agrees with its specification.
proof fn lemma_frame_count(start: u64, end: u64)
    by (nonlinear_arith)
    requires
        start < end,
    ensures
        (end - start - 1) / 4096 + 1 == (end - start + 4095) / 4096,
{
}

/// In an aligned region the `k`-th frame is exactly `start + 4096 * k`,
/// and it lies inside the region.
proof fn lemma_region_frame_exact(r: MemoryRegion, k: int)
    by (nonlinear_arith)
    requires
        wf_region(r),
        r.start < r.end,
        0 <= k < region_frame_count(r),
    ensures
        region_frame(r, k) == r.start + 4096 * k,
        r.start <= region_frame(r, k) < r.end,
{
}

/// Every issued frame lies inside some usable region of the map.
pub proof fn lemma_usable_frames_in_usable_regions(regions: Seq<MemoryRegion>)
    requires
        forall|i: int| 0 <= i < regions.len() ==> wf_region(#[trigger] regions[i]),
    ensures
        forall|k: int|
            0 <= k < usable_frames(regions).len() ==> exists|i: int|
                0 <= i < regions.len() && (#[trigger] regions[i]).kind is Usable
                    && frame_in_region(regions[i], #[trigger] usable_frames(regions)[k]),
    decreases regions.len(),
{
    if regions.len() > 0 {
        let head = regions[0];
        let tail = regions.skip(1);
        lemma_usable_frames_in_usable_regions(tail);
        let hl = region_frames(head).len() as int;
        assert forall|k: int| 0 <= k < usable_frames(regions).len() implies exists|i: int|
            0 <= i < regions.len() && (#[trigger] regions[i]).kind is Usable && frame_in_region(
                regions[i],
                #[trigger] usable_frames(regions)[k],
            ) by {
            if k < hl {
                lemma_region_frame_exact(head, k);
                assert(regions[0].kind is Usable && frame_in_region(
                    regions[0],
                    usable_frames(regions)[k],
                ));
            } else {
                let f = usable_frames(regions)[k];
                assert(f == usable_frames(tail)[k - hl]);
                let i = choose|i: int|
                    0 <= i < tail.len() && (#[trigger] tail[i]).kind is Usable && frame_in_region(
                        tail[i],
                        f,
                    );
                assert(regions[i + 1] == tail[i]);
                assert(regions[i + 1].kind is Usable && frame_in_region(regions[i + 1], f));
            }
        }
    }
}

/// Frames are issued at most once: the usable frame sequence of a
/// well-formed memory map has no repeated element, so the bump cursor
/// never hands the same frame out twice.
pub proof fn lemma_usable_frames_distinct(regions: Seq<MemoryRegion>)
    requires
        wf_memory_map(regions),
    ensures
        forall|p: int, q: int|
            0 <= p < q < usable_frames(regions).len() ==> usable_frames(regions)[p]
                != usable_frames(regions)[q],
    decreases regions.len(),
{
    if regions.len() > 0 {
        let head = regions[0];
        let tail = regions.skip(1);
        assert forall|i: int| 0 <= i < tail.len() implies wf_region(#[trigger] tail[i]) by {
            assert(tail[i] == regions[i + 1]);
        }
        assert forall|i: int, j: int| 0 <= i < j < tail.len() implies (#[trigger] tail[i]).end <= (
        #[trigger] tail[j]).start || tail[j].end <= tail[i].start by {
            assert(tail[i] == regions[i + 1] && tail[j] == regions[j + 1]);
        }
        lemma_usable_frames_distinct(tail);
        lemma_usable_frames_in_usable_regions(tail);
        let hl = region_frames(head).len() as int;
        assert forall|p: int, q: int|
            0 <= p < q < usable_frames(regions).len() implies usable_frames(regions)[p]
            != usable_frames(regions)[q] by {
            if q < hl {
                lemma_region_frame_exact(head, p);
                lemma_region_frame_exact(head, q);
            } else if p >= hl {
                assert(usable_frames(regions)[p] == usable_frames(tail)[p - hl]);
                assert(usable_frames(regions)[q] == usable_frames(tail)[q - hl]);
            } else {
                lemma_region_frame_exact(head, p);
                let f = usable_frames(tail)[q - hl];
                assert(usable_frames(regions)[q] == f);
                let i = choose|i: int|
                    0 <= i < tail.len() && (#[trigger] tail[i]).kind is Usable && frame_in_region(
                        tail[i],
                        f,
                    );
                assert(tail[i] == regions[i + 1]);
                assert(regions[0].end <= regions[i + 1].start || regions[i + 1].end
                    <= regions[0].start);
            }
        }
    }
}

/// A frame issued from a well-formed map never lies in a reserved region.
pub proof fn lemma_no_frame_from_reserved(regions: Seq<MemoryRegion>)
    requires
        wf_memory_map(regions),
    ensures
        forall|k: int, i: int|
            0 <= k < usable_frames(regions).len() && 0 <= i < regions.len() && (
            #[trigger] regions[i]).kind is Reserved ==> !frame_in_region(
                regions[i],
                #[trigger] usable_frames(regions)[k],
            ),
{
    lemma_usable_frames_in_usable_regions(regions);
    assert forall|k: int, i: int|
        0 <= k < usable_frames(regions).len() && 0 <= i < regions.len() && (
        #[trigger] regions[i]).kind is Reserved implies !frame_in_region(
        regions[i],
        #[trigger] usable_frames(regions)[k],
    ) by {
        let f = usable_frames(regions)[k];
        let j = choose|j: int|
            0 <= j < regions.len() && (#[trigger] regions[j]).kind is Usable && frame_in_region(
                regions[j],
                f,
            );
        assert(regions[i].end <= regions[j].start || regions[j].end <= regions[i].start);
    }
}

/// Issued frames of a well-formed map are page-aligned.
pub proof fn lemma_usable_frames_aligned(regions: Seq<MemoryRegion>)
    requires
        forall|i: int| 0 <= i < regions.len() ==> wf_region(#[trigger] regions[i]),
    ensures
        forall|k: int|
            0 <= k < usable_frames(regions).len() ==> #[trigger] usable_frames(regions)[k] % 4096
                == 0,
    decreases regions.len(),
{
    if regions.len() > 0 {
        let head = regions[0];
        let tail = regions.skip(1);
        assert forall|i: int| 0 <= i < tail.len() implies wf_region(#[trigger] tail[i]) by {
            assert(tail[i] == regions[i + 1]);
        }
        lemma_usable_frames_aligned(tail);
        let hl = region_frames(head).len() as int;
        assert forall|k: int|
            0 <= k < usable_frames(regions).len() implies #[trigger] usable_frames(regions)[k]
            % 4096 == 0 by {
            if k < hl {
                assert(usable_frames(regions)[k] == region_frame(head, k));
                lemma_region_frame_exact(head, k);
                assert((head.start + 4096 * k) % 4096 == 0) by (nonlinear_arith)
                    requires
                        head.start % 4096 == 0,
                        k >= 0,
                ;
            } else {
                assert(usable_frames(regions)[k] == usable_frames(tail)[k - hl]);
            }
        }
    }
}

/// Allocation is a function of the memory map and the cursor alone: two
/// allocators over the same map with the same cursor are about to issue
/// the same frame.
pub proof fn lemma_allocation_deterministic(a: PopFrameAllocator, b: PopFrameAllocator)
    requires
        a.regions_view() == b.regions_view(),
        a.issued() == b.issued(),
    ensures
        a.spec_next_frame() == b.spec_next_frame(),
{
}

/// A frame allocator over the boot memory map: `next` counts the frames
/// already issued and only ever grows.
pub struct PopFrameAllocator {
    pub regions: Vec<MemoryRegion>,
    pub next: usize,
}

impl PopFrameAllocator {
    /// The memory map this allocator draws from.
    pub open spec fn regions_view(&self) -> Seq<MemoryRegion> {
        self.regions@
    }

    /// How many frames have been issued so far.
    pub open spec fn issued(&self) -> int {
        self.next as int
    }

    /// The frame the next call to `allocate_frame` returns, if any.
    pub open spec fn spec_next_frame(&self) -> Option<u64> {
        if self.next < usable_frames(self.regions@).len() {
            Some(usable_frames(self.regions@)[self.next as int])
        } else {
            None
        }
    }

    /// Creates an allocator over the given memory map with no frame issued.
    pub fn init(memory_map: Vec<MemoryRegion>) -> (r: Self)
        ensures
            r.regions_view() == memory_map@,
            r.issued() == 0,
    {
        PopFrameAllocator { regions: memory_map, next: 0 }
    }

    /// Issues the next usable frame: the `next`-th element of the map's
    /// usable frame sequence, or `None` once the map is exhausted. The
    /// cursor advances either way.
    pub fn allocate_frame(&mut self) -> (r: Option<u64>)
        requires
            old(self).issued() < usize::MAX,
        ensures
            final(self).regions_view() == old(self).regions_view(),
            final(self).issued() == old(self).issued() + 1,
            r == old(self).spec_next_frame(),
    {
        let frame = self.nth_usable_frame(self.next);
        self.next = self.next + 1;
        frame
    }

    /// Walks the map and returns the `n`-th usable frame, if the map has
    /// that many.
    fn nth_usable_frame(&self, n: usize) -> (r: Option<u64>)
        ensures
            n < usable_frames(self.regions@).len() ==> r == Some(
                usable_frames(self.regions@)[n as int],
            ),
            n >= usable_frames(self.regions@).len() ==> r is None,
    {
        let ghost all = usable_frames(self.regions@);
        let mut i: usize = 0;
        let mut rem: usize = n;
        proof {
            assert(self.regions@.skip(0) =~= self.regions@);
        }
        while i < self.regions.len()
            invariant
                i <= self.regions@.len(),
                rem <= n,
                all == usable_frames(self.regions@),
                usable_frames(self.regions@.skip(i as int)).len() > rem as int ==> n < all.len()
                    && all[n as int] == usable_frames(self.regions@.skip(i as int))[rem as int],
                usable_frames(self.regions@.skip(i as int)).len() <= rem as int ==> all.len()
                    <= n - rem + usable_frames(self.regions@.skip(i as int)).len(),
            decreases self.regions@.len() - i,
        {
            let region = self.regions[i];
            proof {
                assert(self.regions@.skip(i as int)[0] == region);
                assert(self.regions@.skip(i as int).skip(1) =~= self.regions@.skip(i + 1));
            }
            if matches!(region.kind, RegionKind::Usable) && region.start < region.end {
                let count = (region.end - region.start - 1) / 4096 + 1;
                proof {
                    lemma_frame_count(region.start, region.end);
                }
                if (rem as u64) < count {
                    proof {
                        lemma_frame_addr_in_range(region.start, region.end, rem as u64);
                        assert(region_frames(region)[rem as int] == region_frame(
                            region,
                            rem as int,
                        ));
                    }
                    return Some(align_down(region.start + 4096 * (rem as u64)));
                } else {
                    rem = rem - (count as usize);
                }
            } else {
                proof {
                    assert(region_frames(region) =~= Seq::<u64>::empty());
                }
            }
            i = i + 1;
        }
        proof {
            assert(self.regions@.skip(i as int) =~= Seq::<MemoryRegion>::empty());
        }
        None
    }
}

/// A frame allocator that never yields a frame.
pub struct EmptyFrameAllocator;

impl EmptyFrameAllocator {
    /// Always fails: this allocator owns no memory.
    pub fn allocate_frame(&mut self) -> (r: Option<u64>)
        ensures
            r is None,
    {
        None
    }
}

} // verus!
