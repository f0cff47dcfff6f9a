//! The kernel heap: a size-class allocator over a fixed virtual range.
//!
//! Requests of up to 2048 bytes are served from one of nine power-of-two
//! size classes, each with its own last-in first-out list of free blocks, so
//! that the common case takes constant time and wastes less than half of a
//! block. A class whose list is empty, and every larger request, takes the
//! first hole that fits in a linear scan of the list of free holes; that
//! scan costs time in proportion to the number of holes, and freed blocks
//! are never merged, which keeps the code small at the price of
//! fragmentation under mixed sizes.

use vstd::prelude::*;
use vstd::arithmetic::power2::is_pow2;
use crate::memory::{is_canonical, Page, LOWER_HALF_END, PAGE_SIZE};
use crate::memory::address_space::{absent_tables, path_positions, AddressSpace, Mapping};
use crate::memory::frame_allocator::{
    lemma_usable_frames_distinct, usable_frames, valid_memory_map, MemoryRegion,
};
use crate::memory::PhysFrame;
use crate::memory::page_table::PageFlags;

verus! {

/// First address of the kernel heap.
pub const HEAP_START: u64 = 0x4444_4444_0000;

/// Length of the kernel heap in bytes.
pub const HEAP_SIZE: u64 = 102400;

/// Number of size classes.
pub const CLASS_COUNT: usize = 9;

/// Largest block size a size class serves.
pub const MAX_CLASS_SIZE: u64 = 2048;

/// Block size of size class `class`: 8 bytes for class 0, doubling up to
/// 2048 bytes for class 8.
pub open spec fn class_size(class: int) -> int {
    if class <= 0 {
        8
    } else if class == 1 {
        16
    } else if class == 2 {
        32
    } else if class == 3 {
        64
    } else if class == 4 {
        128
    } else if class == 5 {
        256
    } else if class == 6 {
        512
    } else if class == 7 {
        1024
    } else {
        2048
    }
}

/// Whether `align` is a power of two.
pub open spec fn is_power_of_two(align: u64) -> bool {
    is_pow2(align as int)
}

/// A number is a power of two exactly when it is not zero and shares no bit
/// with its predecessor.
pub proof fn lemma_power_of_two_bits(align: u64)
    ensures
        is_power_of_two(align) <==> align != 0 && align & ((align - 1) as u64) == 0,
    decreases align,
{
    let n = align as int;
    reveal(is_pow2);
    assert(is_pow2(n) == if n <= 0 {
        false
    } else if n == 1 {
        true
    } else {
        n % 2 == 0 && is_pow2(n / 2)
    });
    if align > 1 {
        let half = align / 2;
        if align % 2 == 0 {
            lemma_power_of_two_bits(half);
            assert((align & ((align - 1) as u64) == 0) <==> (half & ((half - 1) as u64) == 0))
                by (bit_vector)
                requires
                    align > 1,
                    align % 2 == 0,
                    half == align / 2,
            ;
        } else {
            assert(align & ((align - 1) as u64) != 0) by (bit_vector)
                requires
                    align > 1,
                    align % 2 != 0,
            ;
        }
    } else if align == 1 {
        assert(1u64 & ((1u64 - 1) as u64) == 0) by (bit_vector);
    }
}

/// The size class that serves a request: the smallest class whose blocks
/// hold `size` bytes and are aligned to `align`; `None` when the request is
/// larger than every class.
pub open spec fn class_of(size: u64, align: u64) -> Option<int> {
    let need = if size >= align {
        size
    } else {
        align
    };
    if need > 2048 {
        None
    } else if need <= 8 {
        Some(0)
    } else if need <= 16 {
        Some(1)
    } else if need <= 32 {
        Some(2)
    } else if need <= 64 {
        Some(3)
    } else if need <= 128 {
        Some(4)
    } else if need <= 256 {
        Some(5)
    } else if need <= 512 {
        Some(6)
    } else if need <= 1024 {
        Some(7)
    } else {
        Some(8)
    }
}

/// A size class wastes less than half of a block: its blocks hold what the
/// request needs, and are smaller than twice that unless they are the
/// smallest there are.
pub proof fn lemma_class_waste(size: u64, align: u64)
    requires
        class_of(size, align) is Some,
    ensures
        size <= class_size(class_of(size, align).unwrap()),
        align <= class_size(class_of(size, align).unwrap()),
        class_size(class_of(size, align).unwrap()) == 8 || class_size(
            class_of(size, align).unwrap(),
        ) < 2 * size || class_size(class_of(size, align).unwrap()) < 2 * align,
        0 <= class_of(size, align).unwrap() < CLASS_COUNT,
{
}

/// Number of bytes the heap sets aside for a request.
pub open spec fn reserved_len(size: u64, align: u64) -> int {
    match class_of(size, align) {
        Some(c) => class_size(c),
        None => size as int,
    }
}

/// Alignment the heap gives the block of a request.
pub open spec fn reserved_align(size: u64, align: u64) -> int {
    match class_of(size, align) {
        Some(c) => class_size(c),
        None => align as int,
    }
}

/// The least multiple of `align` that is not below `addr`.
pub open spec fn align_up(addr: int, align: int) -> int {
    if addr % align == 0 {
        addr
    } else {
        addr + align - addr % align
    }
}

/// Whether `align` is a power of two.
pub fn power_of_two(align: u64) -> (yes: bool)
    ensures
        yes == is_power_of_two(align),
{
    proof {
        lemma_power_of_two_bits(align);
    }
    align != 0 && align & (align - 1) == 0
}

/// The size class that serves a request, with its block size.
pub fn size_class(size: u64, align: u64) -> (class: Option<(usize, u64)>)
    ensures
        class is Some <==> class_of(size, align) is Some,
        class matches Some((c, block)) ==> class_of(size, align) == Some(c as int) && block
            == class_size(c as int) && c < CLASS_COUNT,
{
    let need = if size >= align {
        size
    } else {
        align
    };
    if need > MAX_CLASS_SIZE {
        return None;
    }
    let mut c: usize = 0;
    let mut block: u64 = 8;
    while block < need
        invariant
            c < CLASS_COUNT,
            block == class_size(c as int),
            need <= 2048,
            c > 0 ==> class_size(c - 1) < need,
        decreases CLASS_COUNT - c,
    {
        block = block * 2;
        c = c + 1;
    }
    Some((c, block))
}

/// A run of free bytes outside the size classes.
#[derive(Debug, Clone, Copy, PartialEq, Eq, Structural)]
pub struct Hole {
    pub start: u64,
    pub size: u64,
}

impl Hole {
    /// Whether a block of `len` bytes aligned to `align` fits in the hole.
    pub open spec fn fits(self, len: int, align: int) -> bool {
        align_up(self.start as int, align) + len <= self.start + self.size
    }
}

/// Two byte ranges that share no byte.
pub open spec fn disjoint(a: int, a_len: int, b: int, b_len: int) -> bool {
    a + a_len <= b || b + b_len <= a
}

/// Index of the first hole from `from` on in which a block of `len` bytes
/// aligned to `align` fits.
pub open spec fn first_fit(holes: Seq<Hole>, from: int, len: int, align: int) -> Option<int>
    decreases holes.len() - from,
{
    if from < 0 || from >= holes.len() {
        None
    } else if holes[from].fits(len, align) {
        Some(from)
    } else {
        first_fit(holes, from + 1, len, align)
    }
}

/// What is left of the holes when a block of `len` bytes aligned to `align`
/// is cut out of hole `h`: the part behind the block stays in the hole's
/// place, the part before it goes to the end of the list, and a part of no
/// bytes is dropped.
pub open spec fn carve(holes: Seq<Hole>, h: int, len: int, align: int) -> Seq<Hole> {
    let hole = holes[h];
    let at = align_up(hole.start as int, align);
    let front = Hole { start: hole.start, size: (at - hole.start) as u64 };
    let back = Hole { start: (at + len) as u64, size: (hole.start + hole.size - at - len) as u64 };
    if back.size > 0 {
        if front.size > 0 {
            holes.update(h, back).push(front)
        } else {
            holes.update(h, back)
        }
    } else if front.size > 0 {
        holes.update(h, front)
    } else {
        holes.remove(h)
    }
}

/// A list of holes in which some hole from `from` on fits has a first fit.
pub proof fn lemma_first_fit_exists(holes: Seq<Hole>, from: int, h: int, len: int, align: int)
    requires
        0 <= from <= h < holes.len(),
        holes[h].fits(len, align),
    ensures
        first_fit(holes, from, len, align) is Some,
    decreases h - from,
{
    if !holes[from].fits(len, align) {
        lemma_first_fit_exists(holes, from + 1, h, len, align);
    }
}

/// The first fit is a hole that fits, and no hole before it does.
pub proof fn lemma_first_fit(holes: Seq<Hole>, from: int, len: int, align: int)
    requires
        0 <= from,
    ensures
        match first_fit(holes, from, len, align) {
            Some(h) => from <= h < holes.len() && holes[h].fits(len, align) && forall|j: int|
                from <= j < h ==> !(#[trigger] holes[j]).fits(len, align),
            None => forall|j: int| from <= j < holes.len() ==> !(#[trigger] holes[j]).fits(len, align),
        },
    decreases holes.len() - from,
{
    if from < holes.len() && !holes[from].fits(len, align) {
        lemma_first_fit(holes, from + 1, len, align);
    }
}

/// A multiple of `2 * a` is a multiple of `a`.
proof fn lemma_half_aligned(x: int, a: int)
    requires
        0 < a,
        x % (a * 2) == 0,
    ensures
        x % a == 0,
{
    vstd::arithmetic::div_mod::lemma_mod_mod(x, a, 2);
}

/// An address aligned to a size class is aligned to every power of two up
/// to the class's block size.
proof fn lemma_class_aligned(block: u64, class: int, align: u64)
    requires
        0 <= class < 9,
        block % (class_size(class) as u64) == 0,
        is_power_of_two(align),
        align <= class_size(class),
    ensures
        block % align == 0,
{
    lemma_power_of_two_bits(align);
    assert(align == 1 || align == 2 || align == 4 || align == 8 || align == 16 || align == 32
        || align == 64 || align == 128 || align == 256 || align == 512 || align == 1024 || align
        == 2048) by (bit_vector)
        requires
            align != 0 && align & ((align - 1) as u64) == 0,
            align <= 2048,
    ;
    let x = block as int;
    if class > 7 {
        lemma_half_aligned(x, 1024);
    }
    if class > 6 {
        lemma_half_aligned(x, 512);
    }
    if class > 5 {
        lemma_half_aligned(x, 256);
    }
    if class > 4 {
        lemma_half_aligned(x, 128);
    }
    if class > 3 {
        lemma_half_aligned(x, 64);
    }
    if class > 2 {
        lemma_half_aligned(x, 32);
    }
    if class > 1 {
        lemma_half_aligned(x, 16);
    }
    if class > 0 {
        lemma_half_aligned(x, 8);
    }
    lemma_half_aligned(x, 4);
    lemma_half_aligned(x, 2);
}

/// `align_up` gives the least multiple of `align` at or above `addr`.
pub proof fn lemma_align_up(addr: int, align: int)
    requires
        0 <= addr,
        0 < align,
    ensures
        align_up(addr, align) % align == 0,
        addr <= align_up(addr, align) < addr + align,
{
    let r = addr % align;
    if r != 0 {
        assert((addr + align - r) % align == 0) by (nonlinear_arith)
            requires
                r == addr % align,
                0 < align,
                0 <= addr,
        ;
    }
}

/// The kernel heap over the virtual range `start .. start + size`.
pub struct Heap {
    start: u64,
    size: u64,
    free_lists: Vec<Vec<u64>>,
    holes: Vec<Hole>,
    live: Ghost<Map<int, (u64, u64)>>,
}

impl Heap {
    /// First address of the heap.
    pub closed spec fn start(&self) -> int {
        self.start as int
    }

    /// Length of the heap in bytes.
    pub closed spec fn size(&self) -> int {
        self.size as int
    }

    /// The free blocks of size class `class`; the last one is handed out
    /// first.
    pub closed spec fn free_list(&self, class: int) -> Seq<u64> {
        self.free_lists@[class]@
    }

    /// The holes, in the order in which they are scanned.
    pub closed spec fn holes(&self) -> Seq<Hole> {
        self.holes@
    }

    /// The blocks that are handed out, by address, each with the size and
    /// the alignment it was asked for.
    pub closed spec fn live(&self) -> Map<int, (u64, u64)> {
        self.live@
    }

    /// Whether the bytes `at .. at + len` lie inside the heap.
    pub open spec fn in_heap(&self, at: int, len: int) -> bool {
        self.start() <= at && at + len <= self.start() + self.size()
    }

    /// Whether the bytes `at .. at + len` lie inside the heap and belong to
    /// no free block, no hole and no block that is handed out.
    spec fn unused(&self, at: int, len: int) -> bool {
        &&& self.in_heap(at, len)
        &&& forall|c: int, k: int|
            0 <= c < 9 && 0 <= k < self.free_lists@[c]@.len() ==> disjoint(
                #[trigger] self.free_lists@[c]@[k] as int,
                class_size(c),
                at,
                len,
            )
        &&& forall|h: int|
            0 <= h < self.holes@.len() ==> disjoint(
                (#[trigger] self.holes@[h]).start as int,
                self.holes@[h].size as int,
                at,
                len,
            )
        &&& forall|p: int| #[trigger]
            self.live@.contains_key(p) ==> disjoint(
                p,
                reserved_len(self.live@[p].0, self.live@[p].1),
                at,
                len,
            )
    }

    /// Free blocks, holes and blocks handed out lie inside the heap and no
    /// two of them share a byte; blocks are aligned as their class and their
    /// request demand.
    pub closed spec fn wf(&self) -> bool {
        &&& self.start + self.size <= u64::MAX
        &&& self.free_lists@.len() == 9
        &&& forall|c: int, k: int|
            0 <= c < 9 && 0 <= k < self.free_lists@[c]@.len() ==> {
                &&& (#[trigger] self.free_lists@[c]@[k]) % (class_size(c) as u64) == 0
                &&& self.in_heap(self.free_lists@[c]@[k] as int, class_size(c))
            }
        &&& forall|h: int|
            0 <= h < self.holes@.len() ==> {
                &&& (#[trigger] self.holes@[h]).size > 0
                &&& self.in_heap(self.holes@[h].start as int, self.holes@[h].size as int)
            }
        &&& forall|p: int| #[trigger]
            self.live@.contains_key(p) ==> {
                &&& self.live@[p].0 > 0
                &&& is_power_of_two(self.live@[p].1)
                &&& p % (self.live@[p].1 as int) == 0
                &&& p % reserved_align(self.live@[p].0, self.live@[p].1) == 0
                &&& self.in_heap(p, reserved_len(self.live@[p].0, self.live@[p].1))
            }
        &&& forall|c: int, k: int, d: int, j: int|
            0 <= c < 9 && 0 <= k < self.free_lists@[c]@.len() && 0 <= d < 9 && 0 <= j
                < self.free_lists@[d]@.len() && (c != d || k != j) ==> disjoint(
                #[trigger] self.free_lists@[c]@[k] as int,
                class_size(c),
                #[trigger] self.free_lists@[d]@[j] as int,
                class_size(d),
            )
        &&& forall|c: int, k: int, h: int|
            0 <= c < 9 && 0 <= k < self.free_lists@[c]@.len() && 0 <= h < self.holes@.len()
                ==> disjoint(
                #[trigger] self.free_lists@[c]@[k] as int,
                class_size(c),
                (#[trigger] self.holes@[h]).start as int,
                self.holes@[h].size as int,
            )
        &&& forall|c: int, k: int, p: int|
            0 <= c < 9 && 0 <= k < self.free_lists@[c]@.len() && #[trigger] self.live@.contains_key(
                p,
            ) ==> disjoint(
                #[trigger] self.free_lists@[c]@[k] as int,
                class_size(c),
                p,
                reserved_len(self.live@[p].0, self.live@[p].1),
            )
        &&& forall|h: int, g: int|
            0 <= h < self.holes@.len() && 0 <= g < self.holes@.len() && h != g ==> disjoint(
                (#[trigger] self.holes@[h]).start as int,
                self.holes@[h].size as int,
                (#[trigger] self.holes@[g]).start as int,
                self.holes@[g].size as int,
            )
        &&& forall|h: int, p: int|
            0 <= h < self.holes@.len() && #[trigger] self.live@.contains_key(p) ==> disjoint(
                (#[trigger] self.holes@[h]).start as int,
                self.holes@[h].size as int,
                p,
                reserved_len(self.live@[p].0, self.live@[p].1),
            )
        &&& forall|p: int, q: int|
            #[trigger] self.live@.contains_key(p) && #[trigger] self.live@.contains_key(q) && p
                != q ==> disjoint(
                p,
                reserved_len(self.live@[p].0, self.live@[p].1),
                q,
                reserved_len(self.live@[q].0, self.live@[q].1),
            )
    }

    /// The address `allocate` hands out for a request, or `None` when it has
    /// none: a request of no bytes or with an alignment that is no power of
    /// two gets none; a request that a size class serves gets the last block
    /// of the class's free list; every other request, and a class whose list
    /// is empty, gets the first hole that fits, at its first aligned address.
    pub open spec fn next_block(&self, size: u64, align: u64) -> Option<u64> {
        if size == 0 || !is_power_of_two(align) {
            None
        } else if class_of(size, align) is Some && self.free_list(
            class_of(size, align).unwrap(),
        ).len() > 0 {
            Some(self.free_list(class_of(size, align).unwrap()).last())
        } else {
            match first_fit(
                self.holes(),
                0,
                reserved_len(size, align),
                reserved_align(size, align),
            ) {
                Some(h) => Some(
                    align_up(self.holes()[h].start as int, reserved_align(size, align)) as u64,
                ),
                None => None,
            }
        }
    }

    /// A heap over `start .. start + size` with every byte free, or `None`
    /// when the range does not end within the address space.
    pub fn new(start: u64, size: u64) -> (heap: Option<Heap>)
        ensures
            heap is Some <==> start + size <= u64::MAX,
            heap matches Some(h) ==> {
                &&& h.wf()
                &&& h.start() == start
                &&& h.size() == size
                &&& h.live() == Map::<int, (u64, u64)>::empty()
                &&& forall|c: int| 0 <= c < 9 ==> #[trigger] h.free_list(c) == Seq::<u64>::empty()
                &&& h.holes() == if size > 0 {
                    seq![Hole { start, size }]
                } else {
                    Seq::<Hole>::empty()
                }
            },
    {
        if size > u64::MAX - start {
            return None;
        }
        Some(Heap::over(start, size))
    }

    /// A heap over a range that ends within the address space, with every
    /// byte free.
    fn over(start: u64, size: u64) -> (h: Heap)
        requires
            start + size <= u64::MAX,
        ensures
            h.wf(),
            h.start() == start,
            h.size() == size,
            h.live() == Map::<int, (u64, u64)>::empty(),
            forall|c: int| 0 <= c < 9 ==> #[trigger] h.free_list(c) == Seq::<u64>::empty(),
            h.holes() == if size > 0 {
                seq![Hole { start, size }]
            } else {
                Seq::<Hole>::empty()
            },
    {
        let mut free_lists: Vec<Vec<u64>> = Vec::new();
        let mut c: usize = 0;
        while c < CLASS_COUNT
            invariant
                c <= CLASS_COUNT,
                free_lists@.len() == c,
                forall|d: int| 0 <= d < c ==> (#[trigger] free_lists@[d])@ == Seq::<u64>::empty(),
            decreases CLASS_COUNT - c,
        {
            free_lists.push(Vec::new());
            c = c + 1;
        }
        let mut holes: Vec<Hole> = Vec::new();
        if size > 0 {
            holes.push(Hole { start, size });
        }
        let heap = Heap { start, size, free_lists, holes, live: Ghost(Map::empty()) };
        proof {
            assert(heap.holes@ =~= if size > 0 {
                seq![Hole { start, size }]
            } else {
                Seq::<Hole>::empty()
            });
        }
        heap
    }

    /// Cuts a block of `len` bytes aligned to `align` out of the first hole
    /// that fits.
    fn take_from_holes(&mut self, len: u64, align: u64) -> (at: Option<u64>)
        requires
            old(self).wf(),
            len > 0,
            align > 0,
        ensures
            final(self).wf(),
            final(self).start == old(self).start,
            final(self).size == old(self).size,
            final(self).free_lists == old(self).free_lists,
            final(self).live == old(self).live,
            match first_fit(old(self).holes@, 0, len as int, align as int) {
                Some(h) => {
                    &&& at == Some(align_up(old(self).holes@[h].start as int, align as int) as u64)
                    &&& align_up(old(self).holes@[h].start as int, align as int) <= u64::MAX
                    &&& final(self).holes@ == carve(old(self).holes@, h, len as int, align as int)
                },
                None => at is None && final(self).holes@ == old(self).holes@,
            },
            at matches Some(a) ==> a % align == 0 && final(self).unused(a as int, len as int),
    {
        let n = self.holes.len();
        let mut h: usize = 0;
        while h < n
            invariant
                self.wf(),
                *self == *old(self),
                n == self.holes@.len(),
                h <= n,
                len > 0,
                align > 0,
                first_fit(self.holes@, 0, len as int, align as int) == first_fit(
                    self.holes@,
                    h as int,
                    len as int,
                    align as int,
                ),
            decreases n - h,
        {
            let hole = self.holes[h];
            let r = hole.start % align;
            let pad: u64 = if r == 0 {
                0
            } else {
                align - r
            };
            proof {
                lemma_align_up(hole.start as int, align as int);
                assert(align_up(hole.start as int, align as int) == hole.start + pad);
            }
            if pad <= hole.size && hole.size - pad >= len {
                let at: u64 = hole.start + pad;
                let back: u64 = hole.size - pad - len;
                let ghost before = self.holes@;
                if back > 0 {
                    self.holes[h] = Hole { start: at + len, size: back };
                    if pad > 0 {
                        self.holes.push(Hole { start: hole.start, size: pad });
                    }
                } else if pad > 0 {
                    self.holes[h] = Hole { start: hole.start, size: pad };
                } else {
                    self.holes.remove(h);
                }
                proof {
                    assert(self.holes@ =~= carve(before, h as int, len as int, align as int));
                    assert forall|g: int| 0 <= g < self.holes@.len() implies {
                        let x = #[trigger] self.holes@[g];
                        ||| (exists|o: int|
                            0 <= o < before.len() && o != h && x == #[trigger] before[o])
                        ||| (x.size > 0 && hole.start <= x.start && x.start + x.size <= hole.start
                            + hole.size && disjoint(
                            x.start as int,
                            x.size as int,
                            at as int,
                            len as int,
                        ))
                    } by {
                        let x = self.holes@[g];
                        if back > 0 {
                            if g == h {
                            } else if g < before.len() {
                                assert(x == before[g]);
                            } else {
                            }
                        } else if pad > 0 {
                            if g != h {
                                assert(x == before[g]);
                            }
                        } else {
                            if g < h {
                                assert(x == before[g]);
                            } else {
                                assert(x == before[g + 1]);
                            }
                        }
                    }
                }
                return Some(at);
            }
            h = h + 1;
        }
        None
    }

    /// Takes the last block off the free list of `class`.
    fn pop_free(&mut self, class: usize) -> (block: Option<u64>)
        requires
            old(self).wf(),
            class < CLASS_COUNT,
        ensures
            final(self).wf(),
            final(self).start == old(self).start,
            final(self).size == old(self).size,
            final(self).holes == old(self).holes,
            final(self).live == old(self).live,
            forall|d: int|
                0 <= d < 9 && d != class ==> #[trigger] final(self).free_lists@[d] == old(
                    self,
                ).free_lists@[d],
            match block {
                Some(b) => {
                    &&& old(self).free_lists@[class as int]@.len() > 0
                    &&& b == old(self).free_lists@[class as int]@.last()
                    &&& final(self).free_lists@[class as int]@ == old(
                        self,
                    ).free_lists@[class as int]@.drop_last()
                    &&& b % (class_size(class as int) as u64) == 0
                    &&& final(self).unused(b as int, class_size(class as int))
                },
                None => {
                    &&& old(self).free_lists@[class as int]@.len() == 0
                    &&& final(self).free_lists@[class as int]@ == old(
                        self,
                    ).free_lists@[class as int]@
                },
            },
    {
        let ghost lists = self.free_lists@;
        let ghost last = lists[class as int]@.len() - 1;
        let block = self.free_lists[class].pop();
        proof {
            assert forall|c: int, k: int|
                0 <= c < 9 && 0 <= k < self.free_lists@[c]@.len() implies #[trigger] self.free_lists@[c]@[k]
                == lists[c]@[k] && k < lists[c]@.len() && (c == class ==> k != last) by {
                if c != class {
                    assert(self.free_lists@[c] == lists[c]);
                }
            }
        }
        block
    }

    /// Hands out a block of at least `size` bytes whose address is a
    /// multiple of `align`, or `None` when the heap has none.
    pub fn allocate(&mut self, size: u64, align: u64) -> (ptr: Option<u64>)
        requires
            old(self).wf(),
        ensures
            final(self).wf(),
            final(self).start() == old(self).start(),
            final(self).size() == old(self).size(),
            ptr == old(self).next_block(size, align),
            match ptr {
                Some(p) => {
                    &&& final(self).live() == old(self).live().insert(p as int, (size, align))
                    &&& !old(self).live().contains_key(p as int)
                    &&& p % align == 0
                    &&& old(self).in_heap(p as int, size as int)
                    &&& forall|q: int| #[trigger]
                        old(self).live().contains_key(q) ==> disjoint(
                            p as int,
                            size as int,
                            q,
                            old(self).live()[q].0 as int,
                        )
                    &&& if class_of(size, align) is Some && old(self).free_list(
                        class_of(size, align).unwrap(),
                    ).len() > 0 {
                        &&& final(self).holes() == old(self).holes()
                        &&& forall|c: int|
                            0 <= c < 9 ==> #[trigger] final(self).free_list(c) == if Some(c)
                                == class_of(size, align) {
                                old(self).free_list(c).drop_last()
                            } else {
                                old(self).free_list(c)
                            }
                    } else {
                        &&& forall|c: int|
                            0 <= c < 9 ==> #[trigger] final(self).free_list(c) == old(
                                self,
                            ).free_list(c)
                        &&& final(self).holes() == carve(
                            old(self).holes(),
                            first_fit(
                                old(self).holes(),
                                0,
                                reserved_len(size, align),
                                reserved_align(size, align),
                            ).unwrap(),
                            reserved_len(size, align),
                            reserved_align(size, align),
                        )
                    }
                },
                None => {
                    &&& final(self).live() == old(self).live()
                    &&& final(self).holes() == old(self).holes()
                    &&& forall|c: int|
                        0 <= c < 9 ==> #[trigger] final(self).free_list(c) == old(self).free_list(
                            c,
                        )
                },
            },
    {
        if size == 0 || !power_of_two(align) {
            return None;
        }
        proof {
            lemma_power_of_two_bits(align);
        }
        let at = match size_class(size, align) {
            Some((class, block)) => {
                match self.pop_free(class) {
                    Some(b) => {
                        proof {
                            lemma_class_aligned(b, class as int, align);
                        }
                        b
                    },
                    None => {
                        match self.take_from_holes(block, block) {
                            Some(a) => {
                                proof {
                                    lemma_class_aligned(a, class as int, align);
                                }
                                a
                            },
                            None => {
                                return None;
                            },
                        }
                    },
                }
            },
            None => {
                match self.take_from_holes(size, align) {
                    Some(a) => a,
                    None => {
                        return None;
                    },
                }
            },
        };
        proof {
            assert(self.unused(at as int, reserved_len(size, align)));
            assert(!self.live@.contains_key(at as int));
        }
        self.live = Ghost(self.live@.insert(at as int, (size, align)));
        Some(at)
    }

    /// Takes back the block at `ptr` that `allocate` handed out for `size` and
    /// `align`, so that its bytes can be handed out again.
    pub fn dealloc(&mut self, ptr: u64, size: u64, align: u64)
        requires
            old(self).wf(),
            old(self).live().contains_key(ptr as int),
            old(self).live()[ptr as int] == (size, align),
        ensures
            final(self).wf(),
            final(self).start() == old(self).start(),
            final(self).size() == old(self).size(),
            final(self).live() == old(self).live().remove(ptr as int),
            match class_of(size, align) {
                Some(class) => {
                    &&& final(self).holes() == old(self).holes()
                    &&& forall|c: int|
                        0 <= c < 9 ==> #[trigger] final(self).free_list(c) == if c == class {
                            old(self).free_list(c).push(ptr)
                        } else {
                            old(self).free_list(c)
                        }
                    &&& final(self).next_block(size, align) == Some(ptr)
                },
                None => {
                    &&& final(self).holes() == old(self).holes().push(Hole { start: ptr, size })
                    &&& forall|c: int|
                        0 <= c < 9 ==> #[trigger] final(self).free_list(c) == old(self).free_list(
                            c,
                        )
                    &&& final(self).next_block(size, align) is Some
                },
            },
    {
        let ghost lists = self.free_lists@;
        let ghost holes = self.holes@;
        let ghost len = reserved_len(size, align);
        self.live = Ghost(self.live@.remove(ptr as int));
        proof {
            assert(old(self).live@.contains_key(ptr as int));
            assert(self.unused(ptr as int, len));
        }
        match size_class(size, align) {
            Some((class, block)) => {
                self.free_lists[class].push(ptr);
                proof {
                    assert forall|c: int, k: int|
                        0 <= c < 9 && 0 <= k < self.free_lists@[c]@.len() implies (c == class && k
                        == lists[c]@.len() && #[trigger] self.free_lists@[c]@[k] == ptr) || (k
                        < lists[c]@.len() && self.free_lists@[c]@[k] == lists[c]@[k]) by {
                        if c != class {
                            assert(self.free_lists@[c] == lists[c]);
                        }
                    }
                }
            },
            None => {
                self.holes.push(Hole { start: ptr, size });
                proof {
                    assert forall|h: int| 0 <= h < self.holes@.len() implies (h == holes.len()
                        && #[trigger] self.holes@[h] == Hole { start: ptr, size }) || (h
                        < holes.len() && self.holes@[h] == holes[h]) by {}
                    assert(self.holes@[holes.len() as int].fits(size as int, align as int));
                    lemma_first_fit_exists(
                        self.holes@,
                        0,
                        holes.len() as int,
                        size as int,
                        align as int,
                    );
                }
            },
        }
    }
}

/// Why the heap could not be set up.
#[derive(Debug, Clone, Copy, PartialEq, Eq, Structural)]
pub enum HeapError {
    /// The range is empty, wraps around the address space or leaves its
    /// canonical half.
    InvalidRange,
    /// The frame allocator ran out of frames before every page was mapped.
    OutOfFrames,
}

/// Permissions of the heap's pages: present and writable, kernel only.
pub open spec fn heap_flags() -> PageFlags {
    PageFlags { writable: true, user_accessible: false, no_execute: false }
}

/// A heap range holds at least one byte, ends within the address space and
/// lies in one canonical half.
pub open spec fn valid_heap_range(start: u64, size: u64) -> bool {
    &&& size > 0
    &&& start + size <= u64::MAX
    &&& is_canonical(start)
    &&& is_canonical((start + size - 1) as u64)
    &&& (start < LOWER_HALF_END <==> start + size - 1 < LOWER_HALF_END)
}

/// Number of pages that hold a byte of `start .. start + size`.
pub open spec fn heap_pages(start: u64, size: u64) -> int {
    ((start + size - 1) / 4096 - start / 4096) + 1
}

/// Base of the page that holds `addr`.
pub open spec fn page_base(addr: u64) -> u64 {
    (addr - addr % 4096) as u64
}

/// Start of page `j` of the pages in a row from the page at `first` on.
pub open spec fn page_start(first: u64, j: int) -> u64 {
    (first + j * 4096) as u64
}

/// The places in which page tables stand once the first `pages` pages from
/// `first` on are mapped, when they stood in `positions` before.
pub open spec fn positions_after(positions: Set<(int, int)>, first: u64, pages: nat) -> Set<
    (int, int),
>
    decreases pages,
{
    if pages == 0 {
        positions
    } else {
        positions_after(positions, first, (pages - 1) as nat).union(
            path_positions(page_start(first, pages - 1)),
        )
    }
}

/// Number of frames it takes to map the first `pages` pages from `first`
/// on, each to a frame of its own, when the page tables stand in
/// `positions`: one frame for each page, and one for each table that is
/// missing when the page's turn has come.
pub open spec fn frames_needed(positions: Set<(int, int)>, first: u64, pages: nat) -> int
    decreases pages,
{
    if pages == 0 {
        0
    } else {
        frames_needed(positions, first, (pages - 1) as nat) + 1 + absent_tables(
            positions_after(positions, first, (pages - 1) as nat),
            page_start(first, pages - 1),
        )
    }
}

/// Mapping `pages` pages takes at least one frame for each page and at most
/// four.
pub proof fn lemma_frames_needed_range(positions: Set<(int, int)>, first: u64, pages: nat)
    ensures
        pages <= frames_needed(positions, first, pages) <= 4 * pages,
    decreases pages,
{
    if pages > 0 {
        lemma_frames_needed_range(positions, first, (pages - 1) as nat);
    }
}

/// Every further page takes at least one further frame.
pub proof fn lemma_frames_needed_rises(positions: Set<(int, int)>, first: u64, i: nat, j: nat)
    requires
        i <= j,
    ensures
        frames_needed(positions, first, i) + (j - i) <= frames_needed(positions, first, j),
    decreases j,
{
    if i < j {
        lemma_frames_needed_rises(positions, first, i, (j - 1) as nat);
    }
}

/// The frames that two pages of the heap are mapped to are not the same.
pub proof fn lemma_heap_frames_apart(
    regions: Seq<MemoryRegion>,
    allocated: int,
    positions: Set<(int, int)>,
    first: u64,
    i: nat,
    j: nat,
)
    requires
        valid_memory_map(regions),
        0 <= allocated,
        i < j,
        allocated + frames_needed(positions, first, j) < usable_frames(regions).len(),
    ensures
        usable_frames(regions)[allocated + frames_needed(positions, first, i)] != usable_frames(
            regions,
        )[allocated + frames_needed(positions, first, j)],
{
    lemma_frames_needed_rises(positions, first, i, j);
    lemma_frames_needed_range(positions, first, i);
    lemma_usable_frames_distinct(
        regions,
        allocated + frames_needed(positions, first, i),
        allocated + frames_needed(positions, first, j),
    );
}

/// No page that lies wholly outside `start .. start + size` is mapped
/// otherwise in `after` than in `before`.
pub open spec fn outside_unchanged(
    before: Map<Page, Mapping>,
    after: Map<Page, Mapping>,
    start: u64,
    size: u64,
) -> bool {
    forall|p: Page|
        p.base() + 4096 <= start || start + size <= p.base() ==> (#[trigger] after.contains_key(p)
            == before.contains_key(p) && (before.contains_key(p) ==> after[p] == before[p]))
}

/// Every address of `start .. start + size` is mapped with the heap's flags:
/// the page that is number `j` of the range's pages to the frame that
/// `frames` holds at `allocated + frames_needed(positions, first, j)`, which
/// is the frame handed out when the page's turn had come.
pub open spec fn heap_range_mapped(
    view: Map<Page, Mapping>,
    frames: Seq<int>,
    allocated: int,
    positions: Set<(int, int)>,
    start: u64,
    size: u64,
) -> bool {
    forall|addr: u64|
        start <= addr < start + size ==> {
            &&& is_canonical(addr)
            &&& #[trigger] view.contains_key(Page::containing(addr))
            &&& view[Page::containing(addr)].flags == heap_flags()
            &&& view[Page::containing(addr)].frame.index() == frames[allocated + frames_needed(
                positions,
                page_base(start),
                ((addr - page_base(start)) / 4096) as nat,
            )]
        }
}

/// Page `j` of the pages in a row from the page at `first` on.
spec fn page_at(first: u64, j: int) -> Page {
    Page::containing(page_start(first, j))
}

/// The first `done` pages from `first` on are mapped with the heap's flags,
/// page `j` to the frame at `allocated + frames_needed(positions, first, j)`.
#[verifier::opaque]
spec fn pages_mapped(
    view: Map<Page, Mapping>,
    frames: Seq<int>,
    allocated: int,
    positions: Set<(int, int)>,
    first: u64,
    done: int,
) -> bool {
    forall|j: int|
        0 <= j < done ==> {
            &&& view.contains_key(#[trigger] page_at(first, j))
            &&& view[page_at(first, j)].flags == heap_flags()
            &&& view[page_at(first, j)].frame.index() == frames[allocated + frames_needed(
                positions,
                first,
                j as nat,
            )]
        }
}

/// No page is mapped before the first.
proof fn lemma_no_page_mapped(
    view: Map<Page, Mapping>,
    frames: Seq<int>,
    allocated: int,
    positions: Set<(int, int)>,
    first: u64,
)
    ensures
        pages_mapped(view, frames, allocated, positions, first, 0),
{
    reveal(pages_mapped);
}

/// Mapping the next page to the frame whose turn it is keeps the pages
/// before it mapped.
proof fn lemma_next_page_mapped(
    before: Map<Page, Mapping>,
    after: Map<Page, Mapping>,
    frames: Seq<int>,
    allocated: int,
    positions: Set<(int, int)>,
    first: u64,
    done: int,
    page: Page,
    frame: PhysFrame,
)
    requires
        pages_mapped(before, frames, allocated, positions, first, done),
        0 <= done,
        first % 4096 == 0,
        first + done * 4096 <= u64::MAX,
        page == page_at(first, done),
        after == before.insert(page, Mapping { frame, flags: heap_flags() }),
        frame.index() == frames[allocated + frames_needed(positions, first, done as nat)],
    ensures
        pages_mapped(after, frames, allocated, positions, first, done + 1),
{
    reveal(pages_mapped);
    Page::lemma_containing(page_start(first, done));
    assert forall|j: int| 0 <= j < done + 1 implies {
        &&& after.contains_key(#[trigger] page_at(first, j))
        &&& after[page_at(first, j)].flags == heap_flags()
        &&& after[page_at(first, j)].frame.index() == frames[allocated + frames_needed(
            positions,
            first,
            j as nat,
        )]
    } by {
        if j < done {
            Page::lemma_containing(page_start(first, j));
            assert(page_at(first, j).base() != page.base());
            assert(before.contains_key(page_at(first, j)));
        }
    }
}

/// Page `done` of the heap range starts at a canonical address that fits
/// in 64 bits, and holds a byte of the range.
proof fn lemma_heap_page_base(start: u64, size: u64, done: int)
    requires
        valid_heap_range(start, size),
        0 <= done < heap_pages(start, size),
    ensures
        page_base(start) + done * 4096 <= start + size - 1,
        start < page_base(start) + done * 4096 + 4096,
        page_start(page_base(start), done) == page_base(start) + done * 4096,
        page_start(page_base(start), done) % 4096 == 0,
        is_canonical(page_start(page_base(start), done)),
        page_at(page_base(start), done).wf(),
        page_at(page_base(start), done).base() == page_base(start) + done * 4096,
{
    let first = page_base(start);
    let end = start + size - 1;
    assert(first == 4096 * (start / 4096));
    assert(first + done * 4096 <= 4096 * (end / 4096));
    let base = page_start(first, done);
    assert(base >= first);
    Page::lemma_containing(base);
}

/// An address of the heap range is canonical and lies in one of the pages
/// that hold the range.
proof fn lemma_heap_address(start: u64, size: u64, addr: u64)
    requires
        valid_heap_range(start, size),
        start <= addr < start + size,
    ensures
        is_canonical(addr),
        0 <= (addr - page_base(start)) / 4096 < heap_pages(start, size),
        Page::containing(addr) == page_at(page_base(start), (addr - page_base(start)) / 4096),
{
    let first = page_base(start);
    let j = (addr - first) / 4096;
    assert(first == 4096 * (start / 4096));
    assert(addr / 4096 <= (start + size - 1) / 4096);
    assert(j == addr / 4096 - start / 4096);
    let base = page_start(first, j);
    assert(base == 4096 * (addr / 4096));
    Page::lemma_containing(base);
    page_at(first, j).lemma_contains(addr);
}

/// Once every page of the range is mapped, every address of the range is.
proof fn lemma_heap_range_mapped(
    view: Map<Page, Mapping>,
    frames: Seq<int>,
    allocated: int,
    positions: Set<(int, int)>,
    start: u64,
    size: u64,
)
    requires
        valid_heap_range(start, size),
        pages_mapped(view, frames, allocated, positions, page_base(start), heap_pages(start, size)),
    ensures
        heap_range_mapped(view, frames, allocated, positions, start, size),
{
    reveal(pages_mapped);
    let first = page_base(start);
    assert forall|addr: u64| start <= addr < start + size implies {
        &&& is_canonical(addr)
        &&& #[trigger] view.contains_key(Page::containing(addr))
        &&& view[Page::containing(addr)].flags == heap_flags()
        &&& view[Page::containing(addr)].frame.index() == frames[allocated + frames_needed(
            positions,
            page_base(start),
            ((addr - page_base(start)) / 4096) as nat,
        )]
    } by {
        lemma_heap_address(start, size, addr);
        let j = (addr - first) / 4096;
        assert(view.contains_key(page_at(first, j)));
    }
}

/// Two pages of a mapped heap range lie in frames apart: each page has a
/// frame of its own.
pub proof fn lemma_heap_pages_apart(
    view: Map<Page, Mapping>,
    regions: Seq<MemoryRegion>,
    allocated: int,
    positions: Set<(int, int)>,
    start: u64,
    size: u64,
    a: u64,
    b: u64,
)
    requires
        valid_heap_range(start, size),
        valid_memory_map(regions),
        0 <= allocated,
        heap_range_mapped(view, usable_frames(regions), allocated, positions, start, size),
        allocated + frames_needed(positions, page_base(start), heap_pages(start, size) as nat)
            <= usable_frames(regions).len(),
        start <= a < start + size,
        start <= b < start + size,
        Page::containing(a) != Page::containing(b),
    ensures
        view[Page::containing(a)].frame != view[Page::containing(b)].frame,
{
    let first = page_base(start);
    let pages = heap_pages(start, size) as nat;
    let i = ((a - first) / 4096) as nat;
    let j = ((b - first) / 4096) as nat;
    lemma_heap_address(start, size, a);
    lemma_heap_address(start, size, b);
    assert(view.contains_key(Page::containing(a)));
    assert(view.contains_key(Page::containing(b)));
    if i < j {
        lemma_frames_needed_rises(positions, first, j, pages);
        lemma_heap_frames_apart(regions, allocated, positions, first, i, j);
    } else {
        lemma_frames_needed_rises(positions, first, i, pages);
        lemma_heap_frames_apart(regions, allocated, positions, first, j, i);
    }
}

/// Nothing is changed where nothing is done.
proof fn lemma_outside_unchanged_start(view: Map<Page, Mapping>, start: u64, size: u64)
    ensures
        outside_unchanged(view, view, start, size),
{
}

/// Mapping a page that holds a byte of the range changes no page outside
/// the range.
proof fn lemma_outside_unchanged_step(
    before: Map<Page, Mapping>,
    middle: Map<Page, Mapping>,
    after: Map<Page, Mapping>,
    start: u64,
    size: u64,
    page: Page,
    mapping: Mapping,
)
    requires
        outside_unchanged(before, middle, start, size),
        after == middle.insert(page, mapping),
        start < page.base() + 4096,
        page.base() < start + size,
    ensures
        outside_unchanged(before, after, start, size),
{
    assert forall|p: Page| p.base() + 4096 <= start || start + size <= p.base() implies (
    #[trigger] after.contains_key(p) == before.contains_key(p) && (before.contains_key(p)
        ==> after[p] == before[p])) by {
        assert(p.base() != page.base());
        assert(middle.contains_key(p) == before.contains_key(p));
    }
}

/// Reserves `start .. start + size` for the heap: maps every page of the
/// range to a frame of its own, writable and for the kernel only, and returns
/// the heap over the range with every byte free.
pub fn init_heap(space: &mut AddressSpace, start: u64, size: u64) -> (heap: Result<Heap, HeapError>)
    requires
        old(space).wf(),
    ensures
        final(space).wf(),
        final(space).allocator().regions() == old(space).allocator().regions(),
        heap == Err::<Heap, HeapError>(HeapError::InvalidRange) <==> !valid_heap_range(start, size),
        heap == Err::<Heap, HeapError>(HeapError::OutOfFrames) <==> valid_heap_range(start, size)
            && old(space).allocator().remaining() < frames_needed(
            old(space).table_positions(),
            page_base(start),
            heap_pages(start, size) as nat,
        ),
        outside_unchanged(old(space)@, final(space)@, start, size),
        match heap {
            Ok(h) => {
                &&& final(space).allocator().allocated() == old(space).allocator().allocated()
                    + frames_needed(
                    old(space).table_positions(),
                    page_base(start),
                    heap_pages(start, size) as nat,
                )
                &&& final(space).table_positions() == positions_after(
                    old(space).table_positions(),
                    page_base(start),
                    heap_pages(start, size) as nat,
                )
                &&& heap_range_mapped(
                    final(space)@,
                    old(space).allocator().frames(),
                    old(space).allocator().allocated() as int,
                    old(space).table_positions(),
                    start,
                    size,
                )
                &&& h.wf()
                &&& h.start() == start
                &&& h.size() == size
                &&& h.live() == Map::<int, (u64, u64)>::empty()
                &&& forall|c: int| 0 <= c < 9 ==> #[trigger] h.free_list(c) == Seq::<u64>::empty()
                &&& h.holes() == seq![Hole { start, size }]
            },
            Err(HeapError::OutOfFrames) => final(space).allocator().remaining() == 0,
            Err(HeapError::InvalidRange) => final(space)@ == old(space)@ && final(space).allocator().allocated() == old(space).allocator().allocated(),
        },
{
    if size == 0 || size > u64::MAX - start {
        return Err(HeapError::InvalidRange);
    }
    let end: u64 = start + (size - 1);
    let start_low = start < LOWER_HALF_END;
    let end_low = end < LOWER_HALF_END;
    if !(start_low || start >= crate::memory::UPPER_HALF_START) || !(end_low || end
        >= crate::memory::UPPER_HALF_START) || start_low != end_low {
        return Err(HeapError::InvalidRange);
    }
    let first: u64 = start - start % PAGE_SIZE;
    let count: u64 = (end / PAGE_SIZE - start / PAGE_SIZE) + 1;
    let flags = PageFlags { writable: true, user_accessible: false, no_execute: false };
    let ghost frames = space.allocator().frames();
    let ghost allocated = space.allocator().allocated() as int;
    let ghost positions = space.table_positions();
    proof {
        lemma_no_page_mapped(space@, frames, allocated, positions, first);
        lemma_outside_unchanged_start(space@, start, size);
    }
    let mut done: u64 = 0;
    while done < count
        invariant
            space.wf(),
            space.allocator().regions() == old(space).allocator().regions(),
            frames == old(space).allocator().frames(),
            allocated == old(space).allocator().allocated(),
            positions == old(space).table_positions(),
            valid_heap_range(start, size),
            first == page_base(start),
            count == heap_pages(start, size),
            flags == heap_flags(),
            done <= count,
            space.table_positions() == positions_after(positions, first, done as nat),
            space.allocator().allocated() == allocated + frames_needed(
                positions,
                first,
                done as nat,
            ),
            outside_unchanged(old(space)@, space@, start, size),
            pages_mapped(space@, frames, allocated, positions, first, done as int),
        decreases count - done,
    {
        proof {
            lemma_heap_page_base(start, size, done as int);
            lemma_frames_needed_rises(positions, first, (done + 1) as nat, count as nat);
        }
        let base: u64 = first + done * PAGE_SIZE;
        let page = Page::starting_at(base);
        let ghost before = *space;
        proof {
            before.lemma_wf();
            before.allocator().lemma_wf();
        }
        let frame = match space.allocate_frame() {
            Some(f) => f,
            None => {
                return Err(HeapError::OutOfFrames);
            },
        };
        match space.map_page(page, frame, flags) {
            Ok(_) => {},
            Err(_) => {
                return Err(HeapError::OutOfFrames);
            },
        }
        proof {
            let mapping = Mapping { frame, flags };
            lemma_outside_unchanged_step(old(space)@, before@, space@, start, size, page, mapping);
            lemma_next_page_mapped(
                before@,
                space@,
                frames,
                allocated,
                positions,
                first,
                done as int,
                page,
                frame,
            );
        }
        done = done + 1;
    }
    proof {
        space.lemma_wf();
        space.allocator().lemma_wf();
        lemma_heap_range_mapped(space@, frames, allocated, positions, start, size);
    }
    let heap = Heap::over(start, size);
    Ok(heap)
}

} // verus!
