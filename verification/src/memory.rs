//! Physical frames, virtual pages, and the structures built from them.

use vstd::prelude::*;

pub mod address_space;
pub mod frame_allocator;
pub mod page_table;
pub mod paging;

verus! {

/// Size in bytes of a page and of a frame.
pub const PAGE_SIZE: u64 = 4096;

/// Number of frames a 52-bit physical address can name.
pub const MAX_FRAMES: u64 = 0x100_0000_0000;

/// First address of the upper canonical half.
pub const UPPER_HALF_START: u64 = 0xffff_8000_0000_0000;

/// End (exclusive) of the lower canonical half.
pub const LOWER_HALF_END: u64 = 0x0000_8000_0000_0000;

/// A virtual address is canonical when bits 47 to 63 are all equal.
pub open spec fn is_canonical(addr: u64) -> bool {
    addr < LOWER_HALF_END || addr >= UPPER_HALF_START
}

/// A 4 KiB frame of physical memory, named by its number.
#[derive(Debug, Clone, Copy, PartialEq, Eq, Structural)]
pub struct PhysFrame {
    number: u64,
}

impl PhysFrame {
    /// The frame's position counted in frames from physical address zero.
    pub closed spec fn index(self) -> int {
        self.number as int
    }

    /// Holds of every frame a program can construct: the frame lies below
    /// the physical address limit.
    #[verifier::type_invariant]
    pub open spec fn wf(self) -> bool {
        0 <= self.index() < MAX_FRAMES
    }

    /// Physical address of the frame's first byte.
    pub open spec fn base(self) -> int {
        self.index() * 4096
    }

    /// The frame with the given number, if the number is below `MAX_FRAMES`.
    pub fn from_number(number: u64) -> (frame: Option<PhysFrame>)
        ensures
            frame is Some <==> number < MAX_FRAMES,
            frame matches Some(f) ==> f.index() == number,
    {
        if number < MAX_FRAMES {
            Some(PhysFrame { number })
        } else {
            None
        }
    }

    /// The frame that holds physical address `addr`, if the address has at
    /// most 52 bits.
    pub fn containing_address(addr: u64) -> (frame: Option<PhysFrame>)
        ensures
            frame is Some <==> addr < MAX_FRAMES * 4096,
            frame matches Some(f) ==> f.index() == addr as int / 4096,
    {
        let number: u64 = addr / PAGE_SIZE;
        if number < MAX_FRAMES {
            Some(PhysFrame { number })
        } else {
            None
        }
    }

    pub fn number(self) -> (n: u64)
        ensures
            n == self.index(),
            n < MAX_FRAMES,
    {
        proof {
            use_type_invariant(&self);
        }
        self.number
    }

    pub fn start_address(self) -> (addr: u64)
        ensures
            addr == self.base(),
            addr % 4096 == 0,
    {
        proof {
            use_type_invariant(&self);
        }
        self.number * PAGE_SIZE
    }
}

/// A 4 KiB page of virtual memory, named by its canonical start address.
#[derive(Debug, Clone, Copy, PartialEq, Eq, Structural)]
pub struct Page {
    start: u64,
}

impl Page {
    /// Virtual address of the page's first byte.
    pub closed spec fn base(self) -> u64 {
        self.start
    }

    /// Holds of every page a program can construct: the page starts at an
    /// aligned canonical address.
    #[verifier::type_invariant]
    pub open spec fn wf(self) -> bool {
        self.base() % 4096 == 0 && is_canonical(self.base())
    }

    /// Whether virtual address `addr` lies in this page.
    pub open spec fn contains(self, addr: u64) -> bool {
        self.base() <= addr < self.base() + 4096
    }

    /// The page that holds virtual address `addr`.
    pub closed spec fn containing(addr: u64) -> Page {
        Page { start: (addr - addr % 4096) as u64 }
    }

    /// `containing(addr)` is the page whose 4096 bytes include `addr`.
    pub proof fn lemma_containing(addr: u64)
        ensures
            Page::containing(addr).base() == addr - addr % 4096,
            Page::containing(addr).contains(addr),
            is_canonical(addr) ==> Page::containing(addr).wf(),
    {
    }

    /// A page is the page that holds each of its addresses, and no other
    /// page holds them.
    pub proof fn lemma_contains(self, addr: u64)
        requires
            self.wf(),
        ensures
            self.contains(addr) <==> Page::containing(addr) == self,
    {
    }

    /// The page that starts at the aligned canonical address `base`.
    pub(crate) fn starting_at(base: u64) -> (page: Page)
        requires
            base % 4096 == 0,
            is_canonical(base),
        ensures
            page == Page::containing(base),
            page.base() == base,
    {
        Page { start: base }
    }

    /// The page that holds virtual address `addr`, if the address is
    /// canonical.
    pub fn containing_address(addr: u64) -> (page: Option<Page>)
        ensures
            page is Some <==> is_canonical(addr),
            page matches Some(p) ==> p == Page::containing(addr),
    {
        if addr < LOWER_HALF_END || addr >= UPPER_HALF_START {
            Some(Page { start: addr - addr % PAGE_SIZE })
        } else {
            None
        }
    }

    pub fn start_address(self) -> (addr: u64)
        ensures
            addr == self.base(),
            addr % 4096 == 0,
            is_canonical(addr),
    {
        proof {
            use_type_invariant(&self);
        }
        self.start
    }
}

} // verus!
