//! Hands out the usable frames of the boot memory map, each of them once.

use vstd::prelude::*;
use crate::memory::{PhysFrame, MAX_FRAMES};

verus! {

/// Who owns a region of the boot memory map.
#[derive(Debug, Clone, Copy, PartialEq, Eq, Structural)]
pub enum RegionKind {
    /// Free for the kernel to use.
    Usable,
    /// Claimed by firmware or not backed by memory.
    Reserved,
    /// Holds the kernel image or its stack.
    Kernel,
    /// Holds the bootloader, its page tables or the boot information.
    Bootloader,
}

/// A run of frames `start_frame .. end_frame` with one owner.
#[derive(Debug, Clone, Copy, PartialEq, Eq, Structural)]
pub struct MemoryRegion {
    pub start_frame: u64,
    pub end_frame: u64,
    pub kind: RegionKind,
}

impl MemoryRegion {
    /// Whether the allocator may hand out frame number `frame` from this
    /// region.
    pub open spec fn offers(self, frame: int) -> bool {
        self.kind == RegionKind::Usable && self.start_frame <= frame < self.end_frame
    }

    /// How many frames the allocator may hand out from this region.
    pub open spec fn frame_count(self) -> nat {
        if self.kind == RegionKind::Usable && self.start_frame < self.end_frame {
            (self.end_frame - self.start_frame) as nat
        } else {
            0
        }
    }

    /// The frame numbers the region offers, in ascending order.
    pub open spec fn frames(self) -> Seq<int> {
        Seq::new(self.frame_count(), |i: int| self.start_frame + i)
    }

    /// No frame is offered by both regions.
    pub open spec fn disjoint_from(self, other: MemoryRegion) -> bool {
        ||| self.frame_count() == 0
        ||| other.frame_count() == 0
        ||| self.end_frame <= other.start_frame
        ||| other.end_frame <= self.start_frame
    }
}

/// The frames offered by the regions from index `from` on, region by region.
pub open spec fn usable_from(regions: Seq<MemoryRegion>, from: int) -> Seq<int>
    decreases regions.len() - from,
{
    if from < 0 || from >= regions.len() {
        Seq::empty()
    } else {
        regions[from].frames() + usable_from(regions, from + 1)
    }
}

/// Every frame the memory map offers, in the order the allocator hands them
/// out.
pub open spec fn usable_frames(regions: Seq<MemoryRegion>) -> Seq<int> {
    usable_from(regions, 0)
}

/// A memory map is valid when its usable regions lie below the physical
/// address limit and no two of them share a frame.
pub open spec fn valid_memory_map(regions: Seq<MemoryRegion>) -> bool {
    &&& forall|i: int|
        0 <= i < regions.len() && (#[trigger] regions[i]).frame_count() > 0
            ==> regions[i].end_frame <= MAX_FRAMES
    &&& forall|i: int, j: int|
        0 <= i < j < regions.len() ==> (#[trigger] regions[i]).disjoint_from(#[trigger] regions[j])
}

/// Every frame in `usable_from(regions, from)` is offered by a region at
/// index `from` or later.
pub proof fn lemma_usable_from_offered(regions: Seq<MemoryRegion>, from: int, k: int)
    requires
        0 <= from,
        0 <= k < usable_from(regions, from).len(),
    ensures
        exists|q: int|
            from <= q < regions.len() && (#[trigger] regions[q]).offers(
                usable_from(regions, from)[k],
            ),
    decreases regions.len() - from,
{
    let head = regions[from].frames();
    if k < head.len() {
        assert(regions[from].offers(usable_from(regions, from)[k]));
    } else {
        lemma_usable_from_offered(regions, from + 1, k - head.len());
        let q = choose|q: int|
            from + 1 <= q < regions.len() && (#[trigger] regions[q]).offers(
                usable_from(regions, from + 1)[k - head.len()],
            );
        assert(regions[q].offers(usable_from(regions, from)[k]));
    }
}

/// Every frame a region offers stands in `usable_from(regions, from)` when
/// the region's index is `from` or later.
pub proof fn lemma_offered_in_usable_from(regions: Seq<MemoryRegion>, from: int, q: int, f: int)
    requires
        0 <= from <= q < regions.len(),
        regions[q].offers(f),
    ensures
        exists|k: int|
            0 <= k < usable_from(regions, from).len() && #[trigger] usable_from(regions, from)[k]
                == f,
    decreases q - from,
{
    let head = regions[from].frames();
    let all = usable_from(regions, from);
    if q == from {
        assert(all[f - regions[q].start_frame] == f);
    } else {
        lemma_offered_in_usable_from(regions, from + 1, q, f);
        let tail = usable_from(regions, from + 1);
        let k = choose|k: int| 0 <= k < tail.len() && #[trigger] tail[k] == f;
        assert(all[head.len() + k] == f);
    }
}

proof fn lemma_usable_from_distinct(regions: Seq<MemoryRegion>, from: int, i: int, j: int)
    requires
        valid_memory_map(regions),
        0 <= from,
        0 <= i < j < usable_from(regions, from).len(),
    ensures
        usable_from(regions, from)[i] != usable_from(regions, from)[j],
    decreases regions.len() - from,
{
    let head = regions[from].frames();
    if j < head.len() {
    } else if i < head.len() {
        lemma_usable_from_offered(regions, from + 1, j - head.len());
        let q = choose|q: int|
            from + 1 <= q < regions.len() && (#[trigger] regions[q]).offers(
                usable_from(regions, from + 1)[j - head.len()],
            );
        assert(regions[from].disjoint_from(regions[q]));
    } else {
        lemma_usable_from_distinct(regions, from + 1, i - head.len(), j - head.len());
    }
}

/// The frames a valid memory map offers are pairwise distinct and lie below
/// the physical address limit, so the 4 KiB byte ranges they name are
/// aligned and do not overlap.
pub proof fn lemma_usable_frames_distinct(regions: Seq<MemoryRegion>, i: int, j: int)
    requires
        valid_memory_map(regions),
        0 <= i < usable_frames(regions).len(),
        0 <= j < usable_frames(regions).len(),
        i != j,
    ensures
        usable_frames(regions)[i] != usable_frames(regions)[j],
        0 <= usable_frames(regions)[i] < MAX_FRAMES,
        usable_frames(regions)[i] * 4096 + 4096 <= usable_frames(regions)[j] * 4096
            || usable_frames(regions)[j] * 4096 + 4096 <= usable_frames(regions)[i] * 4096,
{
    if i < j {
        lemma_usable_from_distinct(regions, 0, i, j);
    } else {
        lemma_usable_from_distinct(regions, 0, j, i);
    }
    lemma_usable_frames_in_range(regions, i);
}

/// Every frame a valid memory map offers lies below the physical address
/// limit.
pub proof fn lemma_usable_frames_in_range(regions: Seq<MemoryRegion>, k: int)
    requires
        valid_memory_map(regions),
        0 <= k < usable_frames(regions).len(),
    ensures
        0 <= usable_frames(regions)[k] < MAX_FRAMES,
{
    lemma_usable_from_offered(regions, 0, k);
    let q = choose|q: int|
        0 <= q < regions.len() && (#[trigger] regions[q]).offers(usable_from(regions, 0)[k]);
    assert(regions[q].frame_count() > 0);
}

/// Decides whether `regions` is a valid memory map.
pub fn is_valid_memory_map(regions: &Vec<MemoryRegion>) -> (valid: bool)
    ensures
        valid == valid_memory_map(regions@),
{
    let n = regions.len();
    let mut i: usize = 0;
    while i < n
        invariant
            n == regions@.len(),
            i <= n,
            forall|a: int|
                0 <= a < i && (#[trigger] regions@[a]).frame_count() > 0 ==> regions@[a].end_frame
                    <= MAX_FRAMES,
            forall|a: int, b: int|
                0 <= a < b < n && a < i ==> (#[trigger] regions@[a]).disjoint_from(
                    #[trigger] regions@[b],
                ),
        decreases n - i,
    {
        let r = regions[i];
        let r_offers = r.kind == RegionKind::Usable && r.start_frame < r.end_frame;
        assert(r_offers == (r.frame_count() > 0));
        if r_offers && r.end_frame > MAX_FRAMES {
            return false;
        }
        let mut j: usize = i + 1;
        while j < n
            invariant
                n == regions@.len(),
                i < j <= n,
                r == regions@[i as int],
                r_offers == (r.frame_count() > 0),
                forall|b: int| i < b < j ==> r.disjoint_from(#[trigger] regions@[b]),
            decreases n - j,
        {
            let s = regions[j];
            let s_offers = s.kind == RegionKind::Usable && s.start_frame < s.end_frame;
            assert(s_offers == (s.frame_count() > 0));
            if r_offers && s_offers && !(r.end_frame <= s.start_frame || s.end_frame
                <= r.start_frame) {
                assert(!regions@[i as int].disjoint_from(regions@[j as int]));
                return false;
            }
            j = j + 1;
        }
        i = i + 1;
    }
    true
}

/// Cursor over the usable frames of a boot memory map.
///
/// Frames are handed out in map order and never taken back.
pub struct FrameAllocator {
    regions: Vec<MemoryRegion>,
    /// Index of the region the cursor stands in.
    region: usize,
    /// Next frame of that region to hand out.
    next: u64,
    handed_out: Ghost<nat>,
}

impl FrameAllocator {
    /// The memory map the allocator was made from.
    pub closed spec fn regions(&self) -> Seq<MemoryRegion> {
        self.regions@
    }

    /// How many frames have been handed out so far.
    pub closed spec fn allocated(&self) -> nat {
        self.handed_out@
    }

    /// All frames of the map, in the order in which they are handed out.
    pub open spec fn frames(&self) -> Seq<int> {
        usable_frames(self.regions())
    }

    /// How many frames are still to be handed out.
    pub open spec fn remaining(&self) -> int {
        self.frames().len() - self.allocated()
    }

    /// What is left of the region under the cursor.
    spec fn current_rest(&self) -> Seq<int> {
        let r = self.regions@[self.region as int];
        if r.kind == RegionKind::Usable && self.next < r.end_frame {
            Seq::new((r.end_frame - self.next) as nat, |i: int| self.next + i)
        } else {
            Seq::empty()
        }
    }

    /// The frames from the cursor on.
    spec fn rest(&self) -> Seq<int> {
        if self.region >= self.regions@.len() {
            Seq::empty()
        } else {
            self.current_rest() + usable_from(self.regions@, self.region + 1)
        }
    }

    /// The cursor stands exactly behind the frames handed out so far.
    pub closed spec fn wf(&self) -> bool {
        &&& valid_memory_map(self.regions@)
        &&& self.region <= self.regions@.len()
        &&& self.handed_out@ <= usable_frames(self.regions@).len()
        &&& usable_frames(self.regions@).skip(self.handed_out@ as int) == self.rest()
    }

    /// A well-formed allocator stands on a valid memory map and has handed
    /// out no more frames than the map offers.
    pub proof fn lemma_wf(&self)
        requires
            self.wf(),
        ensures
            valid_memory_map(self.regions()),
            self.allocated() <= self.frames().len(),
    {
    }

    /// An allocator over `regions` that has handed out nothing yet, or `None`
    /// when `regions` is not a valid memory map.
    pub fn init(regions: Vec<MemoryRegion>) -> (allocator: Option<FrameAllocator>)
        ensures
            allocator is Some <==> valid_memory_map(regions@),
            allocator matches Some(a) ==> a.wf() && a.regions() == regions@ && a.allocated() == 0,
    {
        if !is_valid_memory_map(&regions) {
            return None;
        }
        let next: u64 = if regions.len() > 0 {
            regions[0].start_frame
        } else {
            0
        };
        let allocator = FrameAllocator { regions, region: 0, next, handed_out: Ghost(0) };
        proof {
            if allocator.regions@.len() > 0 {
                assert(allocator.current_rest() =~= allocator.regions@[0].frames());
            }
            assert(usable_frames(allocator.regions@).skip(0) =~= allocator.rest());
        }
        Some(allocator)
    }

    /// Whether every frame of the map lies below frame number `limit`.
    pub fn fits_within(&self, limit: u64) -> (fits: bool)
        requires
            self.wf(),
        ensures
            fits == (forall|k: int|
                0 <= k < self.frames().len() ==> #[trigger] self.frames()[k] < limit),
    {
        let n = self.regions.len();
        let mut i: usize = 0;
        while i < n
            invariant
                n == self.regions@.len(),
                i <= n,
                forall|q: int|
                    0 <= q < i && (#[trigger] self.regions@[q]).frame_count() > 0
                        ==> self.regions@[q].end_frame <= limit,
            decreases n - i,
        {
            let r = self.regions[i];
            if r.kind == RegionKind::Usable && r.start_frame < r.end_frame && r.end_frame > limit {
                proof {
                    let f = r.end_frame - 1;
                    assert(self.regions@[i as int].offers(f));
                    lemma_offered_in_usable_from(self.regions@, 0, i as int, f);
                    let all = usable_frames(self.regions@);
                    let k = choose|k: int| 0 <= k < all.len() && #[trigger] all[k] == f;
                    assert(!(self.frames()[k] < limit));
                }
                return false;
            }
            i = i + 1;
        }
        proof {
            assert forall|k: int| 0 <= k < self.frames().len() implies #[trigger] self.frames()[k]
                < limit by {
                lemma_usable_from_offered(self.regions@, 0, k);
                let q = choose|q: int|
                    0 <= q < self.regions@.len() && (#[trigger] self.regions@[q]).offers(
                        usable_from(self.regions@, 0)[k],
                    );
                assert(self.regions@[q].frame_count() > 0);
            }
        }
        true
    }

    /// Hands out the next unused frame of the map, or `None` once every
    /// usable frame has been handed out.
    pub fn allocate_frame(&mut self) -> (frame: Option<PhysFrame>)
        requires
            old(self).wf(),
        ensures
            final(self).wf(),
            final(self).regions() == old(self).regions(),
            match frame {
                Some(f) => {
                    &&& old(self).allocated() < old(self).frames().len()
                    &&& f.index() == old(self).frames()[old(self).allocated() as int]
                    &&& final(self).allocated() == old(self).allocated() + 1
                },
                None => {
                    &&& old(self).allocated() == old(self).frames().len()
                    &&& final(self).allocated() == old(self).allocated()
                },
            },
    {
        let ghost all = usable_frames(self.regions@);
        let ghost count = self.handed_out@;
        while self.region < self.regions.len()
            invariant
                self.wf(),
                self.regions@ == old(self).regions@,
                self.handed_out@ == count,
                count == old(self).handed_out@,
                all == usable_frames(self.regions@),
            decreases self.regions@.len() - self.region,
        {
            let r = self.regions[self.region];
            if r.kind == RegionKind::Usable && self.next < r.end_frame {
                let n = self.next;
                proof {
                    let rest = self.rest();
                    assert(self.current_rest().len() > 0);
                    assert(rest[0] == n);
                    assert(all.skip(count as int).len() == rest.len());
                    assert(count < all.len());
                    assert(all.skip(count as int)[0] == all[count as int]);
                    lemma_usable_frames_in_range(self.regions@, count as int);
                }
                let ghost before = self.rest();
                self.next = n + 1;
                self.handed_out = Ghost((count + 1) as nat);
                proof {
                    assert(self.rest() =~= before.skip(1));
                    assert(all.skip(count as int).skip(1) =~= all.skip(count as int + 1));
                }
                return PhysFrame::from_number(n);
            }
            let ghost before = self.rest();
            self.region = self.region + 1;
            if self.region < self.regions.len() {
                self.next = self.regions[self.region].start_frame;
            }
            proof {
                if self.region < self.regions@.len() {
                    assert(self.current_rest() =~= self.regions@[self.region as int].frames());
                }
                assert(self.rest() =~= before);
            }
        }
        proof {
            assert(all.skip(count as int).len() == 0);
        }
        None
    }
}

} // verus!
