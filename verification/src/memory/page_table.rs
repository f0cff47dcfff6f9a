//! Bit-exact layout of page-table entries and of the indices a virtual
//! address holds.

use vstd::prelude::*;
use crate::memory::{PhysFrame, MAX_FRAMES};

verus! {

/// Number of entries in a page table of any level.
pub const ENTRY_COUNT: usize = 512;

/// Bit 0: the entry maps something.
pub const FLAG_PRESENT: u64 = 0x1;

/// Bit 1: writes are allowed.
pub const FLAG_WRITABLE: u64 = 0x2;

/// Bit 2: user-mode accesses are allowed.
pub const FLAG_USER_ACCESSIBLE: u64 = 0x4;

/// Bit 7: the entry maps a huge page instead of naming a table.
pub const FLAG_HUGE_PAGE: u64 = 0x80;

/// Bit 63: instruction fetches are forbidden.
pub const FLAG_NO_EXECUTE: u64 = 0x8000_0000_0000_0000;

/// Bits 12 to 51: the physical address of the frame or table.
pub const ADDRESS_MASK: u64 = 0x000f_ffff_ffff_f000;

/// Flags of an intermediate entry: present, writable and user-accessible, so
/// that the leaf entry alone decides what an access may do.
pub const TABLE_FLAGS: u64 = 0x7;

/// Permissions of a mapping. The present bit is always set.
#[derive(Debug, Clone, Copy, PartialEq, Eq, Structural)]
pub struct PageFlags {
    pub writable: bool,
    pub user_accessible: bool,
    pub no_execute: bool,
}

impl PageFlags {
    pub open spec fn spec_bits(self) -> u64 {
        FLAG_PRESENT | (if self.writable {
            FLAG_WRITABLE
        } else {
            0
        }) | (if self.user_accessible {
            FLAG_USER_ACCESSIBLE
        } else {
            0
        }) | (if self.no_execute {
            FLAG_NO_EXECUTE
        } else {
            0
        })
    }

    /// The flag bits as they stand in an entry.
    #[verifier::when_used_as_spec(spec_bits)]
    pub fn bits(self) -> (bits: u64)
        ensures
            bits == self.spec_bits(),
    {
        let w: u64 = if self.writable {
            FLAG_WRITABLE
        } else {
            0
        };
        let u: u64 = if self.user_accessible {
            FLAG_USER_ACCESSIBLE
        } else {
            0
        };
        let x: u64 = if self.no_execute {
            FLAG_NO_EXECUTE
        } else {
            0
        };
        FLAG_PRESENT | w | u | x
    }
}

/// One 64-bit entry of a page table.
#[derive(Debug, Clone, Copy, PartialEq, Eq, Structural)]
pub struct PageTableEntry {
    pub bits: u64,
}

impl PageTableEntry {
    pub open spec fn spec_is_present(self) -> bool {
        self.bits & FLAG_PRESENT == FLAG_PRESENT
    }

    pub open spec fn spec_is_huge(self) -> bool {
        self.bits & FLAG_HUGE_PAGE == FLAG_HUGE_PAGE
    }

    /// Number of the frame the entry names.
    pub open spec fn frame_index(self) -> u64 {
        (self.bits & ADDRESS_MASK) >> 12
    }

    pub open spec fn spec_flags(self) -> PageFlags {
        PageFlags {
            writable: self.bits & FLAG_WRITABLE == FLAG_WRITABLE,
            user_accessible: self.bits & FLAG_USER_ACCESSIBLE == FLAG_USER_ACCESSIBLE,
            no_execute: self.bits & FLAG_NO_EXECUTE == FLAG_NO_EXECUTE,
        }
    }

    /// The entry that maps nothing.
    pub fn unused() -> (entry: PageTableEntry)
        ensures
            entry.bits == 0,
            !entry.spec_is_present(),
    {
        assert(0u64 & 0x1 != 0x1) by (bit_vector);
        PageTableEntry { bits: 0 }
    }

    /// The leaf entry that maps a page to `frame` with `flags`.
    pub fn leaf(frame: PhysFrame, flags: PageFlags) -> (entry: PageTableEntry)
        ensures
            entry.bits == (frame.index() as u64) << 12 | flags.spec_bits(),
            entry.spec_is_present(),
            !entry.spec_is_huge(),
            entry.frame_index() == frame.index(),
            entry.spec_flags() == flags,
    {
        let n = frame.number();
        let b = flags.bits();
        let bits = n << 12 | b;
        proof {
            lemma_flag_bits(flags);
            lemma_entry_fields(n, b);
        }
        PageTableEntry { bits }
    }

    /// The intermediate entry that names the table in `frame`.
    pub fn table(frame: PhysFrame) -> (entry: PageTableEntry)
        ensures
            entry.bits == (frame.index() as u64) << 12 | TABLE_FLAGS,
            entry.spec_is_present(),
            !entry.spec_is_huge(),
            entry.frame_index() == frame.index(),
    {
        let n = frame.number();
        let bits = n << 12 | TABLE_FLAGS;
        proof {
            assert(0x7u64 & 0x000f_ffff_ffff_ff80 == 0 && 0x7u64 & 1 == 1) by (bit_vector);
            lemma_entry_fields(n, TABLE_FLAGS);
        }
        PageTableEntry { bits }
    }

    #[verifier::when_used_as_spec(spec_is_present)]
    pub fn is_present(self) -> (present: bool)
        ensures
            present == self.spec_is_present(),
    {
        self.bits & FLAG_PRESENT == FLAG_PRESENT
    }

    #[verifier::when_used_as_spec(spec_is_huge)]
    pub fn is_huge(self) -> (huge: bool)
        ensures
            huge == self.spec_is_huge(),
    {
        self.bits & FLAG_HUGE_PAGE == FLAG_HUGE_PAGE
    }

    /// The frame the entry names.
    pub fn frame(self) -> (frame: PhysFrame)
        ensures
            frame.index() == self.frame_index(),
    {
        let bits = self.bits;
        let n: u64 = (bits & ADDRESS_MASK) >> 12;
        assert((bits & 0x000f_ffff_ffff_f000) >> 12 < 0x100_0000_0000) by (bit_vector);
        PhysFrame { number: n }
    }

    #[verifier::when_used_as_spec(spec_flags)]
    pub fn flags(self) -> (flags: PageFlags)
        ensures
            flags == self.spec_flags(),
    {
        PageFlags {
            writable: self.bits & FLAG_WRITABLE == FLAG_WRITABLE,
            user_accessible: self.bits & FLAG_USER_ACCESSIBLE == FLAG_USER_ACCESSIBLE,
            no_execute: self.bits & FLAG_NO_EXECUTE == FLAG_NO_EXECUTE,
        }
    }
}

/// The flag bits of a mapping lie outside the address field and bit 7, and
/// hold the present bit.
pub proof fn lemma_flag_bits(flags: PageFlags)
    ensures
        flags.spec_bits() & 0x000f_ffff_ffff_ff80 == 0,
        flags.spec_bits() & 1 == 1,
        (flags.spec_bits() & FLAG_WRITABLE == FLAG_WRITABLE) == flags.writable,
        (flags.spec_bits() & FLAG_USER_ACCESSIBLE == FLAG_USER_ACCESSIBLE)
            == flags.user_accessible,
        (flags.spec_bits() & FLAG_NO_EXECUTE == FLAG_NO_EXECUTE) == flags.no_execute,
{
    let w: u64 = if flags.writable {
        FLAG_WRITABLE
    } else {
        0
    };
    let u: u64 = if flags.user_accessible {
        FLAG_USER_ACCESSIBLE
    } else {
        0
    };
    let x: u64 = if flags.no_execute {
        FLAG_NO_EXECUTE
    } else {
        0
    };
    let b = 1u64 | w | u | x;
    assert(b & 0x000f_ffff_ffff_ff80 == 0 && b & 1 == 1 && (b & 2 == 2) == (w == 2) && (b & 4 == 4)
        == (u == 4) && (b & 0x8000_0000_0000_0000 == 0x8000_0000_0000_0000) == (x
        == 0x8000_0000_0000_0000)) by (bit_vector)
        requires
            b == 1u64 | w | u | x,
            w == 0 || w == 2,
            u == 0 || u == 4,
            x == 0 || x == 0x8000_0000_0000_0000,
    ;
}

/// An entry put together from a frame number and flag bits gives both back.
pub proof fn lemma_entry_fields(n: u64, b: u64)
    requires
        n < MAX_FRAMES,
        b & 0x000f_ffff_ffff_ff80 == 0,
    ensures
        ((n << 12 | b) & ADDRESS_MASK) >> 12 == n,
        (n << 12 | b) & ADDRESS_MASK == n * 4096,
        (n << 12 | b) & FLAG_HUGE_PAGE == 0,
        (n << 12 | b) & FLAG_PRESENT == b & FLAG_PRESENT,
        (n << 12 | b) & FLAG_WRITABLE == b & FLAG_WRITABLE,
        (n << 12 | b) & FLAG_USER_ACCESSIBLE == b & FLAG_USER_ACCESSIBLE,
        (n << 12 | b) & FLAG_NO_EXECUTE == b & FLAG_NO_EXECUTE,
{
    assert(((n << 12 | b) & 0x000f_ffff_ffff_f000) >> 12 == n && (n << 12 | b)
        & 0x000f_ffff_ffff_f000 == n * 4096 && (n << 12 | b) & 0x80 == 0 && (n << 12 | b) & 1 == b
        & 1 && (n << 12 | b) & 2 == b & 2 && (n << 12 | b) & 4 == b & 4 && (n << 12 | b)
        & 0x8000_0000_0000_0000 == b & 0x8000_0000_0000_0000) by (bit_vector)
        requires
            n < 0x100_0000_0000,
            b & 0x000f_ffff_ffff_ff80 == 0,
    ;
}

/// The 9-bit index that `addr` holds for the table of `level` (4 is the
/// root, 1 the table of leaf entries).
pub open spec fn table_index(addr: u64, level: int) -> int {
    if level == 1 {
        ((addr >> 12) & 0x1ff) as int
    } else if level == 2 {
        ((addr >> 21) & 0x1ff) as int
    } else if level == 3 {
        ((addr >> 30) & 0x1ff) as int
    } else {
        ((addr >> 39) & 0x1ff) as int
    }
}

/// The index for `level` is the digit of weight `512^(level - 1)` of the
/// page number `addr / 4096`, written in base 512.
pub proof fn lemma_table_index(addr: u64)
    ensures
        table_index(addr, 1) == addr / 0x1000 % 512,
        table_index(addr, 2) == addr / 0x20_0000 % 512,
        table_index(addr, 3) == addr / 0x4000_0000 % 512,
        table_index(addr, 4) == addr / 0x80_0000_0000 % 512,
{
    assert(((addr >> 12) & 0x1ff) == addr / 0x1000 % 512 && ((addr >> 21) & 0x1ff) == addr
        / 0x20_0000 % 512 && ((addr >> 30) & 0x1ff) == addr / 0x4000_0000 % 512 && ((addr >> 39)
        & 0x1ff) == addr / 0x80_0000_0000 % 512) by (bit_vector);
}

/// The index that `addr` holds for the table of `level`.
pub fn index_at(addr: u64, level: u8) -> (index: usize)
    requires
        1 <= level <= 4,
    ensures
        index == table_index(addr, level as int),
        index < ENTRY_COUNT,
{
    assert(((addr >> 12) & 0x1ff) < 512 && ((addr >> 21) & 0x1ff) < 512 && ((addr >> 30) & 0x1ff)
        < 512 && ((addr >> 39) & 0x1ff) < 512) by (bit_vector);
    if level == 1 {
        ((addr >> 12) & 0x1ff) as usize
    } else if level == 2 {
        ((addr >> 21) & 0x1ff) as usize
    } else if level == 3 {
        ((addr >> 30) & 0x1ff) as usize
    } else {
        ((addr >> 39) & 0x1ff) as usize
    }
}

} // verus!
