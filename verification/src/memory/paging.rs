//! Physical memory as a sequence of 64-bit words, and the four-level walk
//! that turns a virtual address into a physical one.

use vstd::prelude::*;
use crate::memory::{is_canonical, PhysFrame, LOWER_HALF_END, UPPER_HALF_START};
use crate::memory::page_table::{index_at, table_index, PageTableEntry, ADDRESS_MASK, ENTRY_COUNT};

verus! {

/// Bits 30 to 51: the address field of an entry that maps a 1 GiB page.
pub const HUGE_1G_ADDRESS_MASK: u64 = 0x000f_ffff_c000_0000;

/// Bits 21 to 51: the address field of an entry that maps a 2 MiB page.
pub const HUGE_2M_ADDRESS_MASK: u64 = 0x000f_ffff_ffe0_0000;

/// Whether the table in frame `table` lies wholly inside a memory of `mem`
/// words.
pub open spec fn in_memory(mem: Seq<u64>, table: int) -> bool {
    0 <= table && (table + 1) * 512 <= mem.len()
}

/// Entry `index` of the table in frame `table`.
pub open spec fn entry_at(mem: Seq<u64>, table: int, index: int) -> PageTableEntry {
    PageTableEntry { bits: mem[table * 512 + index] }
}

/// The entry at which the hardware walk for `addr` ends, with the level of
/// its table, when the walk starts in the table of `level` in frame `table`.
///
/// The walk ends at the first entry that is not present (nothing is mapped),
/// that maps a huge page, or that stands in a level-1 table.
pub open spec fn walk(mem: Seq<u64>, table: int, level: int, addr: u64) -> Option<
    (PageTableEntry, int),
>
    decreases level,
{
    if level < 1 || level > 4 || !in_memory(mem, table) {
        None
    } else {
        let e = entry_at(mem, table, table_index(addr, level));
        if !e.spec_is_present() {
            None
        } else if level == 1 {
            Some((e, 1))
        } else if e.spec_is_huge() {
            if level == 4 {
                None
            } else {
                Some((e, level))
            }
        } else {
            walk(mem, e.frame_index() as int, level - 1, addr)
        }
    }
}

/// The physical address that `addr` has under an entry found at `level`.
pub open spec fn mapped_address(entry: PageTableEntry, level: int, addr: u64) -> u64 {
    if level == 1 {
        (entry.bits & ADDRESS_MASK) | (addr & 0xfff)
    } else if level == 2 {
        (entry.bits & HUGE_2M_ADDRESS_MASK) | (addr & 0x1f_ffff)
    } else {
        (entry.bits & HUGE_1G_ADDRESS_MASK) | (addr & 0x3fff_ffff)
    }
}

/// The physical address the page tables rooted in frame `root` give to
/// virtual address `addr`; `None` when nothing is mapped there or the
/// address is not canonical.
pub open spec fn translation(mem: Seq<u64>, root: int, addr: u64) -> Option<u64> {
    if !is_canonical(addr) {
        None
    } else {
        match walk(mem, root, 4, addr) {
            Some((entry, level)) => Some(mapped_address(entry, level, addr)),
            None => None,
        }
    }
}

/// What the walk does once it has read an entry.
#[derive(Debug, Clone, Copy, PartialEq, Eq, Structural)]
pub enum WalkStep {
    /// The walk ends: nothing is mapped at the address.
    Unmapped,
    /// The walk ends: the address is mapped to this physical address.
    Mapped(u64),
    /// The walk goes on in the table that this frame holds, one level down.
    Descend(PhysFrame),
}

/// The physical address that `addr` has under `entry`, found in a table of
/// `level`.
pub fn address_under(entry: PageTableEntry, level: u8, addr: u64) -> (phys: u64)
    ensures
        phys == mapped_address(entry, level as int, addr),
{
    if level == 1 {
        (entry.bits & ADDRESS_MASK) | (addr & 0xfff)
    } else if level == 2 {
        (entry.bits & HUGE_2M_ADDRESS_MASK) | (addr & 0x1f_ffff)
    } else {
        (entry.bits & HUGE_1G_ADDRESS_MASK) | (addr & 0x3fff_ffff)
    }
}

/// Decides how the walk for `addr` goes on after it read `entry` in a table
/// of `level`.
pub fn walk_step(entry: PageTableEntry, level: u8, addr: u64) -> (step: WalkStep)
    requires
        1 <= level <= 4,
    ensures
        step == WalkStep::Unmapped <==> !entry.spec_is_present() || (level == 4
            && entry.spec_is_huge()),
        step matches WalkStep::Mapped(phys) ==> phys == mapped_address(entry, level as int, addr),
        step is Mapped <==> entry.spec_is_present() && (level == 1 || (level < 4
            && entry.spec_is_huge())),
        step matches WalkStep::Descend(table) ==> table.index() == entry.frame_index(),
        step is Descend <==> entry.spec_is_present() && level > 1 && !entry.spec_is_huge(),
{
    if !entry.is_present() {
        WalkStep::Unmapped
    } else if level == 1 {
        WalkStep::Mapped(address_under(entry, level, addr))
    } else if !entry.is_huge() {
        WalkStep::Descend(entry.frame())
    } else if level < 4 {
        WalkStep::Mapped(address_under(entry, level, addr))
    } else {
        WalkStep::Unmapped
    }
}

/// Where entry `index` of the table in `table` stands in a view of all
/// physical memory that starts at virtual address `offset`; `None` when the
/// table has no such entry or the address would leave the address space.
pub fn entry_address(offset: u64, table: PhysFrame, index: usize) -> (addr: Option<u64>)
    ensures
        addr is Some <==> index < ENTRY_COUNT && offset + table.base() + 8 * index <= u64::MAX,
        addr matches Some(a) ==> a == offset + table.base() + 8 * index,
{
    if index >= ENTRY_COUNT {
        return None;
    }
    let within: u64 = table.start_address() + 8 * (index as u64);
    if within > u64::MAX - offset {
        None
    } else {
        Some(offset + within)
    }
}

/// All of physical memory, seen as 64-bit words: word `i` holds the eight
/// bytes at physical address `8 * i`, so frame `f` is words `512 * f` to
/// `512 * f + 511`.
pub struct PhysicalMemory {
    words: Vec<u64>,
}

impl View for PhysicalMemory {
    type V = Seq<u64>;

    closed spec fn view(&self) -> Seq<u64> {
        self.words@
    }
}

impl PhysicalMemory {
    /// Number of whole frames the memory holds.
    pub open spec fn frames(&self) -> int {
        self@.len() as int / 512
    }

    /// A memory of `frames` frames, all bytes zero.
    pub fn new(frames: usize) -> (memory: PhysicalMemory)
        requires
            frames * 512 <= usize::MAX,
        ensures
            memory@.len() == frames * 512,
            forall|i: int| 0 <= i < memory@.len() ==> memory@[i] == 0,
    {
        let words: Vec<u64> = vec![0u64; frames * ENTRY_COUNT];
        PhysicalMemory { words }
    }

    pub fn frame_count(&self) -> (count: usize)
        ensures
            count == self.frames(),
    {
        self.words.len() / ENTRY_COUNT
    }

    /// Whether the memory holds the whole of `frame`.
    pub fn holds(&self, frame: PhysFrame) -> (held: bool)
        ensures
            held == in_memory(self@, frame.index()),
    {
        frame.number() < (self.words.len() / ENTRY_COUNT) as u64
    }

    /// Position of the first word of `frame`.
    fn first_word(&self, frame: PhysFrame) -> (at: usize)
        requires
            in_memory(self@, frame.index()),
        ensures
            at == frame.index() * 512,
            at + 512 <= self@.len(),
    {
        let n = frame.number();
        let len = self.words.len();
        assert((n + 1) * 512 <= len);
        n as usize * ENTRY_COUNT
    }

    /// Entry `index` of a table the memory is known to hold.
    pub(crate) fn entry(&self, frame: PhysFrame, index: usize) -> (entry: PageTableEntry)
        requires
            in_memory(self@, frame.index()),
            index < ENTRY_COUNT,
        ensures
            entry == entry_at(self@, frame.index(), index as int),
    {
        let at: usize = self.first_word(frame) + index;
        PageTableEntry { bits: self.words[at] }
    }

    /// Stores `entry` at `index` of a table the memory is known to hold.
    pub(crate) fn set_entry(&mut self, frame: PhysFrame, index: usize, entry: PageTableEntry)
        requires
            in_memory(old(self)@, frame.index()),
            index < ENTRY_COUNT,
        ensures
            final(self)@ == old(self)@.update(frame.index() * 512 + index, entry.bits),
    {
        let at: usize = self.first_word(frame) + index;
        self.words[at] = entry.bits;
    }

    /// Entry `index` of the table in `frame`, or `None` when the memory does
    /// not hold that entry.
    pub fn read(&self, frame: PhysFrame, index: usize) -> (entry: Option<PageTableEntry>)
        ensures
            entry is Some <==> in_memory(self@, frame.index()) && index < ENTRY_COUNT,
            entry matches Some(e) ==> e == entry_at(self@, frame.index(), index as int),
    {
        if self.holds(frame) && index < ENTRY_COUNT {
            Some(self.entry(frame, index))
        } else {
            None
        }
    }

    /// Stores `entry` at `index` of the table in `frame`. Returns `false`,
    /// and changes nothing, when the memory does not hold that entry.
    pub fn write(&mut self, frame: PhysFrame, index: usize, entry: PageTableEntry) -> (stored:
        bool)
        ensures
            stored == (in_memory(old(self)@, frame.index()) && index < ENTRY_COUNT),
            stored ==> final(self)@ == old(self)@.update(
                frame.index() * 512 + index,
                entry.bits,
            ),
            !stored ==> final(self)@ == old(self)@,
    {
        if self.holds(frame) && index < ENTRY_COUNT {
            self.set_entry(frame, index, entry);
            true
        } else {
            false
        }
    }

    /// Clears every word of `frame`. Returns `false`, and changes nothing,
    /// when the memory does not hold the frame.
    pub fn zero_frame(&mut self, frame: PhysFrame) -> (cleared: bool)
        ensures
            cleared == in_memory(old(self)@, frame.index()),
            final(self)@.len() == old(self)@.len(),
            forall|i: int|
                0 <= i < old(self)@.len() ==> #[trigger] final(self)@[i] == if cleared
                    && frame.index() * 512 <= i < frame.index() * 512 + 512 {
                    0
                } else {
                    old(self)@[i]
                },
    {
        if !self.holds(frame) {
            return false;
        }
        let base: usize = self.first_word(frame);
        let mut k: usize = 0;
        while k < ENTRY_COUNT
            invariant
                k <= ENTRY_COUNT,
                base == frame.index() * 512,
                base + 512 <= self.words@.len(),
                self.words@.len() == old(self).words@.len(),
                forall|i: int|
                    0 <= i < self.words@.len() ==> #[trigger] self.words@[i] == if base <= i < base
                        + k {
                        0
                    } else {
                        old(self).words@[i]
                    },
            decreases ENTRY_COUNT - k,
        {
            self.words[base + k] = 0;
            k = k + 1;
        }
        true
    }

    /// Walks the page tables rooted in `root` for `addr` and returns the
    /// entry that maps it, with the level of the entry's table, or `None`
    /// when nothing is mapped at `addr`.
    pub fn resolve(&self, root: PhysFrame, addr: u64) -> (found: Option<(PageTableEntry, u8)>)
        ensures
            match found {
                Some((entry, level)) => walk(self@, root.index(), 4, addr) == Some(
                    (entry, level as int),
                ),
                None => walk(self@, root.index(), 4, addr) is None,
            },
    {
        let mut table = root;
        let mut level: u8 = 4;
        loop
            invariant
                1 <= level <= 4,
                walk(self@, root.index(), 4, addr) == walk(self@, table.index(), level as int, addr),
            decreases level,
        {
            let entry = match self.read(table, index_at(addr, level)) {
                Some(e) => e,
                None => {
                    return None;
                },
            };
            match walk_step(entry, level, addr) {
                WalkStep::Unmapped => {
                    return None;
                },
                WalkStep::Mapped(_) => {
                    return Some((entry, level));
                },
                WalkStep::Descend(next) => {
                    table = next;
                    level = level - 1;
                },
            }
        }
    }

    /// Walks the page tables rooted in `root` and returns the physical
    /// address mapped at `addr`, or `None` when `addr` is unmapped.
    pub fn translate(&self, root: PhysFrame, addr: u64) -> (phys: Option<u64>)
        ensures
            phys == translation(self@, root.index(), addr),
    {
        if !(addr < LOWER_HALF_END || addr >= UPPER_HALF_START) {
            return None;
        }
        match self.resolve(root, addr) {
            Some((entry, level)) => Some(address_under(entry, level, addr)),
            None => None,
        }
    }
}

} // verus!
