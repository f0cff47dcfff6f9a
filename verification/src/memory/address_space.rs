//! The kernel's virtual address space: a tree of page tables in physical
//! memory, grown with frames from the frame allocator.

use vstd::prelude::*;
use crate::memory::{is_canonical, Page, PhysFrame, MAX_FRAMES};
use crate::memory::frame_allocator::{
    lemma_usable_frames_distinct, lemma_usable_frames_in_range, FrameAllocator,
};
use crate::memory::page_table::{
    index_at, lemma_flag_bits, table_index, PageFlags, PageTableEntry, ADDRESS_MASK,
};
use crate::memory::paging::{entry_at, in_memory, walk, PhysicalMemory};

verus! {

/// What a virtual page is mapped to.
#[derive(Debug, Clone, Copy, PartialEq, Eq, Structural)]
pub struct Mapping {
    pub frame: PhysFrame,
    pub flags: PageFlags,
}

impl Mapping {
    /// The leaf entry that stands for this mapping in a level-1 table.
    pub open spec fn entry(self) -> PageTableEntry {
        PageTableEntry { bits: (self.frame.index() as u64) << 12 | self.flags.spec_bits() }
    }
}

/// Why a mapping could not be installed.
#[derive(Debug, Clone, Copy, PartialEq, Eq, Structural)]
pub enum MapError {
    /// A page table was missing and the frame allocator had no frame left
    /// for it.
    FrameAllocationFailed,
}

/// What the caller owes the translation cache after a mapping changed.
#[derive(Debug, Clone, Copy, PartialEq, Eq, Structural)]
pub enum TlbFlush {
    /// The page was unmapped before: no stale translation can be cached.
    NotNeeded,
    /// The page had a mapping: its cached translation must be invalidated.
    Page(Page),
}

/// Why an address space could not be set up.
#[derive(Debug, Clone, Copy, PartialEq, Eq, Structural)]
pub enum SpaceError {
    /// The memory map offers a frame that physical memory does not hold.
    RegionOutsideMemory,
    /// No frame was left for the root table.
    OutOfFrames,
}

/// Where a page table stands in the tree.
struct TableInfo {
    /// 4 for the root, 1 for a table of leaf entries.
    pub level: int,
    /// The indices that lead from the root to this table, read as one number
    /// in base 512.
    pub prefix: int,
    /// Frame of the table whose entry names this table.
    pub parent: int,
    /// Index of that entry.
    pub slot: int,
}

/// The indices of `addr` above `level`, read as one number in base 512.
pub open spec fn table_prefix(addr: u64, level: int) -> int {
    if level >= 4 {
        0
    } else if level == 3 {
        table_index(addr, 4)
    } else if level == 2 {
        table_index(addr, 4) * 512 + table_index(addr, 3)
    } else {
        (table_index(addr, 4) * 512 + table_index(addr, 3)) * 512 + table_index(addr, 2)
    }
}

spec fn is_table(tables: Map<int, TableInfo>, t: int) -> bool {
    tables.contains_key(t)
}

/// The tables form a tree below `root`: every table but the root is named by
/// exactly the entry of its parent that its position calls for, and every
/// present entry of a table above level 1 names a table of the tree.
spec fn tree_wf(mem: Seq<u64>, root: int, tables: Map<int, TableInfo>) -> bool {
    &&& tables.contains_key(root)
    &&& tables[root].level == 4
    &&& tables[root].prefix == 0
    &&& forall|t: int| #[trigger]
        is_table(tables, t) ==> {
            &&& 1 <= tables[t].level <= 4
            &&& in_memory(mem, t)
            &&& (tables[t].level == 4 ==> t == root)
            &&& (tables[t].level < 4 ==> {
                let p = tables[t].parent;
                let s = tables[t].slot;
                &&& tables.contains_key(p)
                &&& tables[p].level == tables[t].level + 1
                &&& 0 <= s < 512
                &&& tables[t].prefix == tables[p].prefix * 512 + s
                &&& entry_at(mem, p, s).spec_is_present()
                &&& !entry_at(mem, p, s).spec_is_huge()
                &&& entry_at(mem, p, s).frame_index() == t
            })
        }
    &&& forall|t: int, i: int|
        tables.contains_key(t) && 0 <= i < 512 && tables[t].level >= 2 && (#[trigger] entry_at(
            mem,
            t,
            i,
        )).spec_is_present() ==> {
            let c = entry_at(mem, t, i).frame_index() as int;
            &&& !entry_at(mem, t, i).spec_is_huge()
            &&& tables.contains_key(c)
            &&& tables[c] == TableInfo {
                level: tables[t].level - 1,
                prefix: tables[t].prefix * 512 + i,
                parent: t,
                slot: i,
            }
        }
}

/// The four indices of an address are below 512.
pub proof fn lemma_table_index_range(addr: u64)
    ensures
        forall|level: int| 0 <= #[trigger] table_index(addr, level) < 512,
{
    assert(((addr >> 12) & 0x1ff) < 512 && ((addr >> 21) & 0x1ff) < 512 && ((addr >> 30) & 0x1ff)
        < 512 && ((addr >> 39) & 0x1ff) < 512) by (bit_vector);
}

/// The walk from the root for `addr` passes through every table of the tree
/// whose position `addr` calls for.
proof fn lemma_walk_through(mem: Seq<u64>, root: int, tables: Map<int, TableInfo>, t: int, addr: u64)
    requires
        tree_wf(mem, root, tables),
        tables.contains_key(t),
        tables[t].prefix == table_prefix(addr, tables[t].level),
    ensures
        walk(mem, root, 4, addr) == walk(mem, t, tables[t].level, addr),
    decreases 4 - tables[t].level,
{
    assert(is_table(tables, t));
    lemma_table_index_range(addr);
    let level = tables[t].level;
    if level < 4 {
        let p = tables[t].parent;
        assert(is_table(tables, p));
        assert(table_prefix(addr, level) == table_prefix(addr, level + 1) * 512 + table_index(
            addr,
            level + 1,
        ));
        assert(tables[p].prefix == table_prefix(addr, level + 1));
        assert(tables[t].slot == table_index(addr, level + 1));
        lemma_walk_through(mem, root, tables, p, addr);
        assert(walk(mem, p, level + 1, addr) == walk(mem, t, level, addr));
    }
}

/// Two memories give `addr` the same walk from a table of the tree when
/// every entry in which they differ stands at a position that `addr` does
/// not call for.
proof fn lemma_walk_unchanged(
    m1: Seq<u64>,
    m2: Seq<u64>,
    root: int,
    tables: Map<int, TableInfo>,
    t: int,
    addr: u64,
    wl: int,
    wp: int,
    wi: int,
)
    requires
        tree_wf(m1, root, tables),
        m1.len() == m2.len(),
        tables.contains_key(t),
        tables[t].prefix == table_prefix(addr, tables[t].level),
        forall|u: int, i: int|
            tables.contains_key(u) && 0 <= i < 512 && #[trigger] entry_at(m1, u, i) != entry_at(
                m2,
                u,
                i,
            ) ==> tables[u].level == wl && tables[u].prefix == wp && i == wi,
        !(table_prefix(addr, wl) == wp && table_index(addr, wl) == wi),
    ensures
        walk(m1, t, tables[t].level, addr) == walk(m2, t, tables[t].level, addr),
    decreases tables[t].level,
{
    assert(is_table(tables, t));
    lemma_table_index_range(addr);
    let level = tables[t].level;
    let i = table_index(addr, level);
    let e = entry_at(m1, t, i);
    assert(e == entry_at(m2, t, i));
    if e.spec_is_present() && level >= 2 {
        let c = e.frame_index() as int;
        assert(tables[c].prefix == table_prefix(addr, level - 1));
        lemma_walk_unchanged(m1, m2, root, tables, c, addr, wl, wp, wi);
    }
}

/// The tree stays a tree in a memory that holds the same entries in the
/// tables above level 1.
proof fn lemma_tree_same_entries(m1: Seq<u64>, m2: Seq<u64>, root: int, tables: Map<int, TableInfo>)
    requires
        tree_wf(m1, root, tables),
        m1.len() == m2.len(),
        forall|u: int, i: int|
            tables.contains_key(u) && tables[u].level >= 2 && 0 <= i < 512 ==> #[trigger] entry_at(
                m2,
                u,
                i,
            ) == entry_at(m1, u, i),
    ensures
        tree_wf(m2, root, tables),
{
    assert forall|t: int| #[trigger] is_table(tables, t) implies {
        &&& 1 <= tables[t].level <= 4
        &&& in_memory(m2, t)
        &&& (tables[t].level == 4 ==> t == root)
        &&& (tables[t].level < 4 ==> {
            let p = tables[t].parent;
            let s = tables[t].slot;
            &&& tables.contains_key(p)
            &&& tables[p].level == tables[t].level + 1
            &&& 0 <= s < 512
            &&& tables[t].prefix == tables[p].prefix * 512 + s
            &&& entry_at(m2, p, s).spec_is_present()
            &&& !entry_at(m2, p, s).spec_is_huge()
            &&& entry_at(m2, p, s).frame_index() == t
        })
    } by {
        if tables[t].level < 4 {
            assert(entry_at(m2, tables[t].parent, tables[t].slot) == entry_at(
                m1,
                tables[t].parent,
                tables[t].slot,
            ));
        }
    }
}

/// The tree stays a tree when an entry that was not present is made to name
/// a table in a frame that was outside the tree and holds no present entry.
proof fn lemma_tree_link(
    m1: Seq<u64>,
    m2: Seq<u64>,
    root: int,
    tables: Map<int, TableInfo>,
    t: int,
    i: int,
    f: int,
)
    requires
        tree_wf(m1, root, tables),
        m1.len() == m2.len(),
        tables.contains_key(t),
        tables[t].level >= 2,
        0 <= i < 512,
        !entry_at(m1, t, i).spec_is_present(),
        !tables.contains_key(f),
        in_memory(m1, f),
        forall|u: int, j: int|
            tables.contains_key(u) && 0 <= j < 512 && !(u == t && j == i) ==> #[trigger] entry_at(
                m2,
                u,
                j,
            ) == entry_at(m1, u, j),
        entry_at(m2, t, i).spec_is_present(),
        !entry_at(m2, t, i).spec_is_huge(),
        entry_at(m2, t, i).frame_index() == f,
        forall|j: int| 0 <= j < 512 ==> !(#[trigger] entry_at(m2, f, j)).spec_is_present(),
    ensures
        tree_wf(
            m2,
            root,
            tables.insert(
                f,
                TableInfo {
                    level: tables[t].level - 1,
                    prefix: tables[t].prefix * 512 + i,
                    parent: t,
                    slot: i,
                },
            ),
        ),
{
    let info = TableInfo {
        level: tables[t].level - 1,
        prefix: tables[t].prefix * 512 + i,
        parent: t,
        slot: i,
    };
    let grown = tables.insert(f, info);
    assert(is_table(tables, t));
    assert(is_table(tables, root));
    assert forall|u: int| #[trigger] is_table(grown, u) implies {
        &&& 1 <= grown[u].level <= 4
        &&& in_memory(m2, u)
        &&& (grown[u].level == 4 ==> u == root)
        &&& (grown[u].level < 4 ==> {
            let p = grown[u].parent;
            let s = grown[u].slot;
            &&& grown.contains_key(p)
            &&& grown[p].level == grown[u].level + 1
            &&& 0 <= s < 512
            &&& grown[u].prefix == grown[p].prefix * 512 + s
            &&& entry_at(m2, p, s).spec_is_present()
            &&& !entry_at(m2, p, s).spec_is_huge()
            &&& entry_at(m2, p, s).frame_index() == u
        })
    } by {
        if u != f {
            assert(is_table(tables, u));
            if tables[u].level < 4 {
                let p = tables[u].parent;
                let s = tables[u].slot;
                assert(entry_at(m1, p, s).spec_is_present());
                assert(!(p == t && s == i));
                assert(entry_at(m2, p, s) == entry_at(m1, p, s));
            }
        }
    }
    assert forall|u: int, j: int|
        grown.contains_key(u) && 0 <= j < 512 && grown[u].level >= 2 && (#[trigger] entry_at(
            m2,
            u,
            j,
        )).spec_is_present() implies {
        let c = entry_at(m2, u, j).frame_index() as int;
        &&& !entry_at(m2, u, j).spec_is_huge()
        &&& grown.contains_key(c)
        &&& grown[c] == TableInfo {
            level: grown[u].level - 1,
            prefix: grown[u].prefix * 512 + j,
            parent: u,
            slot: j,
        }
    } by {
        if u == f {
        } else if u == t && j == i {
        } else {
            assert(entry_at(m2, u, j) == entry_at(m1, u, j));
        }
    }
}

/// Whether the tree holds a table of `level` whose place is `prefix`.
spec fn table_at(tables: Map<int, TableInfo>, level: int, prefix: int) -> bool {
    exists|t: int| #[trigger] is_table(tables, t) && tables[t].level == level && tables[t].prefix
        == prefix
}

/// The places of the three tables below the root that the walk for `addr`
/// passes through: for each level from 3 down to 1, the level and the
/// indices of `addr` above it.
pub open spec fn path_positions(addr: u64) -> Set<(int, int)> {
    set![(3int, table_prefix(addr, 3)), (2int, table_prefix(addr, 2)), (1int, table_prefix(addr, 1))]
}

/// How many of the three tables on the walk for `addr` have no place among
/// `positions` yet.
pub open spec fn absent_tables(positions: Set<(int, int)>, addr: u64) -> int {
    (if positions.contains((3int, table_prefix(addr, 3))) {
        0int
    } else {
        1int
    }) + (if positions.contains((2int, table_prefix(addr, 2))) {
        0int
    } else {
        1int
    }) + (if positions.contains((1int, table_prefix(addr, 1))) {
        0int
    } else {
        1int
    })
}

/// How many of the tables below `level` on the walk for `addr` the tree
/// lacks.
spec fn absent_below(tables: Map<int, TableInfo>, addr: u64, level: int) -> int
    decreases level,
{
    if level <= 1 {
        0
    } else {
        absent_below(tables, addr, level - 1) + if table_at(
            tables,
            level - 1,
            table_prefix(addr, level - 1),
        ) {
            0int
        } else {
            1int
        }
    }
}

/// No two tables of the tree stand in the same place.
proof fn lemma_position_unique(
    mem: Seq<u64>,
    root: int,
    tables: Map<int, TableInfo>,
    t1: int,
    t2: int,
)
    requires
        tree_wf(mem, root, tables),
        tables.contains_key(t1),
        tables.contains_key(t2),
        tables[t1].level == tables[t2].level,
        tables[t1].prefix == tables[t2].prefix,
    ensures
        t1 == t2,
    decreases 4 - tables[t1].level,
{
    assert(is_table(tables, t1));
    assert(is_table(tables, t2));
    if tables[t1].level < 4 {
        let upper1 = tables[t1].parent;
        let upper2 = tables[t2].parent;
        assert(is_table(tables, upper1));
        assert(is_table(tables, upper2));
        lemma_position_unique(mem, root, tables, upper1, upper2);
    }
}

/// Where the tree lacks a table on the walk for `addr`, it lacks every
/// table further down that walk.
proof fn lemma_absent_below(
    mem: Seq<u64>,
    root: int,
    tables: Map<int, TableInfo>,
    addr: u64,
    level: int,
)
    requires
        tree_wf(mem, root, tables),
        1 <= level <= 3,
        !table_at(tables, level, table_prefix(addr, level)),
    ensures
        absent_below(tables, addr, level + 1) == level,
    decreases level,
{
    lemma_table_index_range(addr);
    assert(absent_below(tables, addr, 1) == 0);
    assert(absent_below(tables, addr, level + 1) == absent_below(tables, addr, level) + 1);
    if level > 1 {
        if table_at(tables, level - 1, table_prefix(addr, level - 1)) {
            let t = choose|t: int| #[trigger]
                is_table(tables, t) && tables[t].level == level - 1 && tables[t].prefix
                    == table_prefix(addr, level - 1);
            let p = tables[t].parent;
            assert(is_table(tables, p));
            assert(tables[p].prefix == table_prefix(addr, level));
            assert(false);
        }
        lemma_absent_below(mem, root, tables, addr, level - 1);
    }
}

/// The tables missing on the rest of the walk for `addr` are the tables
/// that the tree lacks below the table the walk has reached.
proof fn lemma_missing_is_absent(
    mem: Seq<u64>,
    root: int,
    tables: Map<int, TableInfo>,
    t: int,
    addr: u64,
)
    requires
        tree_wf(mem, root, tables),
        tables.contains_key(t),
        tables[t].prefix == table_prefix(addr, tables[t].level),
    ensures
        missing_tables(mem, t, tables[t].level, addr) == absent_below(tables, addr, tables[t].level),
    decreases tables[t].level,
{
    assert(is_table(tables, t));
    lemma_table_index_range(addr);
    let level = tables[t].level;
    if level > 1 {
        let i = table_index(addr, level);
        let e = entry_at(mem, t, i);
        if e.spec_is_present() {
            let c = e.frame_index() as int;
            assert(is_table(tables, c));
            lemma_missing_is_absent(mem, root, tables, c, addr);
        } else {
            if table_at(tables, level - 1, table_prefix(addr, level - 1)) {
                let c = choose|c: int| #[trigger]
                    is_table(tables, c) && tables[c].level == level - 1 && tables[c].prefix
                        == table_prefix(addr, level - 1);
                let p = tables[c].parent;
                assert(is_table(tables, p));
                lemma_position_unique(mem, root, tables, p, t);
                assert(false);
            }
            lemma_absent_below(mem, root, tables, addr, level - 1);
        }
    }
}

/// How many tables are missing on the walk for `addr` from the table of
/// `level` in frame `table` down to level 1.
spec fn missing_tables(mem: Seq<u64>, table: int, level: int, addr: u64) -> int
    decreases level,
{
    if level <= 1 || !in_memory(mem, table) {
        0
    } else {
        let e = entry_at(mem, table, table_index(addr, level));
        if !e.spec_is_present() {
            level - 1
        } else {
            missing_tables(mem, e.frame_index() as int, level - 1, addr)
        }
    }
}

/// The physical address under a leaf entry is the frame's base plus the
/// offset in the page.
proof fn lemma_leaf_address(n: u64, b: u64, addr: u64)
    requires
        n < MAX_FRAMES,
        b & 0x000f_ffff_ffff_ff80 == 0,
    ensures
        ((n << 12 | b) & ADDRESS_MASK) | (addr & 0xfff) == n * 4096 + addr % 4096,
{
    assert(((n << 12 | b) & 0x000f_ffff_ffff_f000) | (addr & 0xfff) == n * 4096 + addr % 4096)
        by (bit_vector)
        requires
            n < 0x100_0000_0000,
            b & 0x000f_ffff_ffff_ff80 == 0,
    ;
}

/// Two canonical addresses lie in the same page exactly when they hold the
/// same four table indices.
proof fn lemma_same_page(a: u64, b: u64)
    requires
        is_canonical(a),
        is_canonical(b),
    ensures
        (a - a % 4096 == b - b % 4096) <==> (table_prefix(a, 1) == table_prefix(b, 1)
            && table_index(a, 1) == table_index(b, 1)),
{
    lemma_table_index_range(a);
    lemma_table_index_range(b);
    assert((a - a % 4096 == b - b % 4096) <==> ((a >> 12) & 0x1ff) == ((b >> 12) & 0x1ff) && ((a
        >> 21) & 0x1ff) == ((b >> 21) & 0x1ff) && ((a >> 30) & 0x1ff) == ((b >> 30) & 0x1ff) && ((a
        >> 39) & 0x1ff) == ((b >> 39) & 0x1ff)) by (bit_vector)
        requires
            a < 0x0000_8000_0000_0000 || a >= 0xffff_8000_0000_0000,
            b < 0x0000_8000_0000_0000 || b >= 0xffff_8000_0000_0000,
    ;
}

/// A virtual address space over a physical memory.
///
/// Its value is the set of mappings it holds, from page to frame and flags.
pub struct AddressSpace {
    memory: PhysicalMemory,
    root: PhysFrame,
    allocator: FrameAllocator,
    tables: Ghost<Map<int, TableInfo>>,
    mappings: Ghost<Map<Page, Mapping>>,
}

impl View for AddressSpace {
    type V = Map<Page, Mapping>;

    closed spec fn view(&self) -> Map<Page, Mapping> {
        self.mappings@
    }
}

impl AddressSpace {
    /// The frame allocator the address space draws its tables from.
    pub closed spec fn allocator(&self) -> FrameAllocator {
        self.allocator
    }

    /// The leaf entry the mappings hold for `addr`.
    spec fn leaf_of(&self, addr: u64) -> Option<(PageTableEntry, int)> {
        match self.mappings@.get(Page::containing(addr)) {
            Some(m) => Some((m.entry(), 1)),
            None => None,
        }
    }

    /// The page tables in memory say exactly what the mappings say, and no
    /// frame the allocator may still hand out holds a page table.
    pub closed spec fn wf(&self) -> bool {
        &&& self.allocator.wf()
        &&& self.root.wf()
        &&& forall|k: int|
            0 <= k < self.allocator.frames().len() ==> in_memory(
                self.memory@,
                #[trigger] self.allocator.frames()[k],
            )
        &&& forall|k: int|
            self.allocator.allocated() <= k < self.allocator.frames().len()
                ==> !self.tables@.contains_key(#[trigger] self.allocator.frames()[k])
        &&& tree_wf(self.memory@, self.root.index(), self.tables@)
        &&& forall|p: Page| #[trigger]
            self.mappings@.contains_key(p) ==> p.wf() && self.mappings@[p].frame.wf()
        &&& forall|addr: u64|
            is_canonical(addr) ==> #[trigger] walk(self.memory@, self.root.index(), 4, addr)
                == self.leaf_of(addr)
    }

    /// The physical address that the mappings give to `addr`: the base of
    /// the frame its page is mapped to plus the offset in the page, or
    /// `None` when the page is unmapped or the address is not canonical.
    pub open spec fn translation(&self, addr: u64) -> Option<u64> {
        if is_canonical(addr) && self@.contains_key(Page::containing(addr)) {
            Some((self@[Page::containing(addr)].frame.base() + addr % 4096) as u64)
        } else {
            None
        }
    }

    /// A well-formed address space has a well-formed allocator, and maps
    /// well-formed pages to well-formed frames.
    pub proof fn lemma_wf(&self)
        requires
            self.wf(),
        ensures
            self.allocator().wf(),
            forall|p: Page| #[trigger] self@.contains_key(p) ==> p.wf() && self@[p].frame.wf(),
    {
    }

    /// The places in which the tree has a page table: the level of each
    /// table with the indices that lead to it from the root.
    pub closed spec fn table_positions(&self) -> Set<(int, int)> {
        Set::new(|pos: (int, int)| table_at(self.tables@, pos.0, pos.1))
    }

    /// How many page tables `map_page` has to create for `page`.
    pub open spec fn tables_needed(&self, page: Page) -> int {
        absent_tables(self.table_positions(), page.base())
    }

    /// A mapping needs at most three new tables.
    pub proof fn lemma_tables_needed_range(&self, page: Page)
        ensures
            0 <= self.tables_needed(page) <= 3,
    {
    }

    /// The tables that `map_page` has to create for a page are the tables
    /// that are missing on the walk from the root.
    proof fn lemma_tables_needed(&self, addr: u64)
        requires
            self.wf(),
        ensures
            missing_tables(self.memory@, self.root.index(), 4, addr) == absent_tables(
                self.table_positions(),
                addr,
            ),
    {
        let tables = self.tables@;
        lemma_missing_is_absent(self.memory@, self.root.index(), tables, self.root.index(), addr);
        assert(absent_below(tables, addr, 4) == absent_below(tables, addr, 3) + if table_at(
            tables,
            3,
            table_prefix(addr, 3),
        ) {
            0int
        } else {
            1int
        });
        assert(absent_below(tables, addr, 3) == absent_below(tables, addr, 2) + if table_at(
            tables,
            2,
            table_prefix(addr, 2),
        ) {
            0int
        } else {
            1int
        });
        assert(absent_below(tables, addr, 2) == absent_below(tables, addr, 1) + if table_at(
            tables,
            1,
            table_prefix(addr, 1),
        ) {
            0int
        } else {
            1int
        });
    }

    /// An empty address space in `memory`, with a zeroed root table in a
    /// frame taken from `allocator`.
    pub fn new(memory: PhysicalMemory, allocator: FrameAllocator) -> (space: Result<
        AddressSpace,
        SpaceError,
    >)
        requires
            allocator.wf(),
        ensures
            space is Err <==> (exists|k: int|
                0 <= k < allocator.frames().len() && !in_memory(
                    memory@,
                    #[trigger] allocator.frames()[k],
                )) || allocator.remaining() == 0,
            space matches Err(e) ==> (e == SpaceError::OutOfFrames <==> forall|k: int|
                0 <= k < allocator.frames().len() ==> in_memory(
                    memory@,
                    #[trigger] allocator.frames()[k],
                )),
            space matches Ok(s) ==> {
                &&& s.wf()
                &&& s@ == Map::<Page, Mapping>::empty()
                &&& s.table_positions() == set![(4int, 0int)]
                &&& s.allocator().regions() == allocator.regions()
                &&& s.allocator().allocated() == allocator.allocated() + 1
            },
    {
        let mut memory = memory;
        let mut allocator = allocator;
        let limit = memory.frame_count() as u64;
        proof {
            allocator.lemma_wf();
            assert forall|k: int| 0 <= k < allocator.frames().len() implies (in_memory(
                memory@,
                #[trigger] allocator.frames()[k],
            ) <==> allocator.frames()[k] < limit) by {
                lemma_usable_frames_in_range(allocator.regions(), k);
            }
        }
        if !allocator.fits_within(limit) {
            return Err(SpaceError::RegionOutsideMemory);
        }
        let root = match allocator.allocate_frame() {
            Some(f) => f,
            None => {
                return Err(SpaceError::OutOfFrames);
            },
        };
        let ghost r = root.index();
        proof {
            use_type_invariant(&root);
        }
        let cleared = memory.zero_frame(root);
        let ghost tables = Map::<int, TableInfo>::empty().insert(
            r,
            TableInfo { level: 4, prefix: 0, parent: r, slot: 0 },
        );
        let space = AddressSpace {
            memory,
            root,
            allocator,
            tables: Ghost(tables),
            mappings: Ghost(Map::empty()),
        };
        proof {
            let mem = space.memory@;
            space.allocator.lemma_wf();
            assert(in_memory(mem, r));
            assert(forall|i: int| 0 <= i < 512 ==> !(#[trigger] entry_at(mem, r, i)).spec_is_present())
                by {
                assert(0u64 & 0x1 != 0x1) by (bit_vector);
            }
            assert(tree_wf(mem, r, tables));
            assert forall|k: int|
                space.allocator.allocated() <= k < space.allocator.frames().len()
                    implies !tables.contains_key(#[trigger] space.allocator.frames()[k]) by {
                lemma_usable_frames_distinct(
                    space.allocator.regions(),
                    k,
                    space.allocator.allocated() - 1,
                );
            }
            lemma_table_index_range(0);
            assert forall|addr: u64| is_canonical(addr) implies #[trigger] walk(mem, r, 4, addr)
                == space.leaf_of(addr) by {
                lemma_table_index_range(addr);
            }
            assert(is_table(tables, r));
            assert(space.table_positions() =~= set![(4int, 0int)]);
        }
        Ok(space)
    }

    /// Walks the page tables and returns the physical address mapped at
    /// `addr`, or `None` when `addr` is unmapped.
    pub fn translate(&self, addr: u64) -> (phys: Option<u64>)
        requires
            self.wf(),
        ensures
            phys == self.translation(addr),
    {
        let phys = self.memory.translate(self.root, addr);
        proof {
            if is_canonical(addr) {
                assert(walk(self.memory@, self.root.index(), 4, addr) == self.leaf_of(addr));
                let p = Page::containing(addr);
                if self.mappings@.contains_key(p) {
                    let m = self.mappings@[p];
                    lemma_flag_bits(m.flags);
                    lemma_leaf_address(m.frame.index() as u64, m.flags.spec_bits(), addr);
                }
            }
        }
        phys
    }

    /// What `page` is mapped to, read off the page tables, or `None` when
    /// the page is unmapped.
    pub fn lookup(&self, page: Page) -> (mapping: Option<Mapping>)
        requires
            self.wf(),
        ensures
            mapping == self@.get(page),
    {
        proof {
            use_type_invariant(&page);
        }
        let addr = page.start_address();
        proof {
            page.lemma_contains(addr);
            assert(walk(self.memory@, self.root.index(), 4, addr) == self.leaf_of(addr));
            if self.mappings@.contains_key(page) {
                let m = self.mappings@[page];
                lemma_flag_bits(m.flags);
                crate::memory::page_table::lemma_entry_fields(
                    m.frame.index() as u64,
                    m.flags.spec_bits(),
                );
                assert(m.entry().spec_flags() == m.flags);
            }
        }
        match self.memory.resolve(self.root, addr) {
            Some((entry, _)) => Some(Mapping { frame: entry.frame(), flags: entry.flags() }),
            None => None,
        }
    }

    /// Takes the next unused frame from the allocator, for the caller's own
    /// use.
    pub fn allocate_frame(&mut self) -> (frame: Option<PhysFrame>)
        requires
            old(self).wf(),
        ensures
            final(self).wf(),
            final(self)@ == old(self)@,
            final(self).allocator().regions() == old(self).allocator().regions(),
            final(self).table_positions() == old(self).table_positions(),
            match frame {
                Some(f) => {
                    &&& old(self).allocator().remaining() > 0
                    &&& f.index() == old(self).allocator().frames()[old(
                        self,
                    ).allocator().allocated() as int]
                    &&& final(self).allocator().allocated() == old(self).allocator().allocated()
                        + 1
                },
                None => {
                    &&& old(self).allocator().remaining() == 0
                    &&& final(self).allocator().allocated() == old(self).allocator().allocated()
                },
            },
    {
        self.allocator.allocate_frame()
    }

    /// Whether `table` is the table of `level` that the walk for `addr`
    /// passes through.
    spec fn on_path(&self, table: PhysFrame, level: int, addr: u64) -> bool {
        &&& self.tables@.contains_key(table.index())
        &&& self.tables@[table.index()].level == level
        &&& self.tables@[table.index()].prefix == table_prefix(addr, level)
    }

    /// One step down the walk for `addr`: the table that the entry of
    /// `table` names, created from a fresh zeroed frame when the entry is
    /// not present. `None` when a table is missing and no frame is left.
    fn next_table(&mut self, table: PhysFrame, level: u8, addr: u64) -> (child: Option<PhysFrame>)
        requires
            old(self).wf(),
            2 <= level <= 4,
            old(self).on_path(table, level as int, addr),
        ensures
            final(self).wf(),
            final(self).root == old(self).root,
            final(self).mappings@ == old(self).mappings@,
            final(self).allocator.regions() == old(self).allocator.regions(),
            match child {
                Some(c) => {
                    &&& final(self).on_path(c, level - 1, addr)
                    &&& final(self).table_positions() == old(self).table_positions().insert(
                        (level - 1, table_prefix(addr, level - 1)),
                    )
                    &&& final(self).allocator.allocated() + missing_tables(
                        final(self).memory@,
                        c.index(),
                        level - 1,
                        addr,
                    ) == old(self).allocator.allocated() + missing_tables(
                        old(self).memory@,
                        table.index(),
                        level as int,
                        addr,
                    )
                },
                None => {
                    &&& final(self).table_positions() == old(self).table_positions()
                    &&& final(self).allocator.allocated() == old(self).allocator.allocated()
                    &&& old(self).allocator.remaining() == 0
                    &&& missing_tables(old(self).memory@, table.index(), level as int, addr)
                        == level - 1
                },
            },
    {
        let ghost t = table.index();
        let ghost m0 = self.memory@;
        let ghost tables0 = self.tables@;
        let ghost root = self.root.index();
        proof {
            assert(is_table(tables0, t));
            lemma_table_index_range(addr);
        }
        let index = index_at(addr, level);
        let entry = self.memory.entry(table, index);
        if entry.is_present() {
            proof {
                let c = entry.frame_index() as int;
                assert(is_table(tables0, c));
                assert(table_at(tables0, level - 1, table_prefix(addr, level - 1)));
                assert(self.table_positions() =~= self.table_positions().insert(
                    (level - 1, table_prefix(addr, level - 1)),
                ));
            }
            return Some(entry.frame());
        }
        let frame = match self.allocator.allocate_frame() {
            Some(f) => f,
            None => {
                return None;
            },
        };
        let ghost f = frame.index();
        let ghost i = index as int;
        proof {
            use_type_invariant(&frame);
            self.allocator.lemma_wf();
            assert(f == self.allocator.frames()[self.allocator.allocated() - 1]);
            assert(in_memory(m0, f));
            assert(!tables0.contains_key(f));
        }
        self.memory.zero_frame(frame);
        let ghost m1 = self.memory@;
        self.memory.set_entry(table, index, PageTableEntry::table(frame));
        let ghost m2 = self.memory@;
        let ghost info = TableInfo {
            level: level - 1,
            prefix: tables0[t].prefix * 512 + i,
            parent: t,
            slot: i,
        };
        self.tables = Ghost(tables0.insert(f, info));
        proof {
            assert(0u64 & 0x1 != 0x1) by (bit_vector);
            assert forall|u: int, j: int|
                tables0.contains_key(u) && 0 <= j < 512 && !(u == t
                    && j == i) implies #[trigger] entry_at(m2, u, j) == entry_at(m0, u, j) by {
                assert(is_table(tables0, u));
                assert(m1[u * 512 + j] == m0[u * 512 + j]);
            }
            assert forall|j: int| 0 <= j < 512 implies !(#[trigger] entry_at(
                m2,
                f,
                j,
            )).spec_is_present() by {
                assert(m1[f * 512 + j] == 0);
            }
            lemma_tree_link(m0, m2, root, tables0, t, i, f);
            assert forall|k: int|
                self.allocator.allocated() <= k < self.allocator.frames().len()
                    implies !self.tables@.contains_key(#[trigger] self.allocator.frames()[k]) by {
                lemma_usable_frames_distinct(
                    self.allocator.regions(),
                    k,
                    self.allocator.allocated() - 1,
                );
            }
            assert forall|a: u64| is_canonical(a) implies #[trigger] walk(m2, root, 4, a)
                == self.leaf_of(a) by {
                lemma_table_index_range(a);
                assert(walk(m0, root, 4, a) == old(self).leaf_of(a));
                if table_prefix(a, level as int) == tables0[t].prefix && table_index(
                    a,
                    level as int,
                ) == i {
                    lemma_walk_through(m0, root, tables0, t, a);
                    lemma_walk_through(m2, root, self.tables@, t, a);
                    assert(walk(m2, t, level as int, a) == walk(m2, f, level - 1, a));
                    assert(!entry_at(m2, f, table_index(a, level - 1)).spec_is_present());
                } else {
                    lemma_walk_unchanged(
                        m0,
                        m2,
                        root,
                        tables0,
                        root,
                        a,
                        level as int,
                        tables0[t].prefix,
                        i,
                    );
                }
            }
            assert(!entry_at(m2, f, table_index(addr, level - 1)).spec_is_present());
            let grown = self.tables@;
            assert(is_table(grown, f));
            assert forall|pos: (int, int)|
                self.table_positions().contains(pos) == old(self).table_positions().insert(
                    (level - 1, table_prefix(addr, level - 1)),
                ).contains(pos) by {
                if table_at(grown, pos.0, pos.1) {
                    let u = choose|u: int| #[trigger]
                        is_table(grown, u) && grown[u].level == pos.0 && grown[u].prefix == pos.1;
                    if u != f {
                        assert(is_table(tables0, u));
                    }
                }
                if table_at(tables0, pos.0, pos.1) {
                    let u = choose|u: int| #[trigger]
                        is_table(tables0, u) && tables0[u].level == pos.0 && tables0[u].prefix
                            == pos.1;
                    assert(is_table(grown, u));
                }
            }
            assert(self.table_positions() =~= old(self).table_positions().insert(
                (level - 1, table_prefix(addr, level - 1)),
            ));
        }
        Some(frame)
    }

    /// Maps `page` to `frame` with `flags`, creating the page tables that
    /// are missing on the way from zeroed frames of the allocator. A mapping
    /// that `page` already had is replaced.
    pub fn map_page(&mut self, page: Page, frame: PhysFrame, flags: PageFlags) -> (result: Result<
        TlbFlush,
        MapError,
    >)
        requires
            old(self).wf(),
        ensures
            final(self).wf(),
            final(self).allocator().regions() == old(self).allocator().regions(),
            result is Ok <==> old(self).tables_needed(page) <= old(self).allocator().remaining(),
            match result {
                Ok(flush) => {
                    &&& final(self)@ == old(self)@.insert(page, Mapping { frame, flags })
                    &&& final(self).table_positions() == old(self).table_positions().union(
                        path_positions(page.base()),
                    )
                    &&& final(self).allocator().allocated() == old(self).allocator().allocated()
                        + old(self).tables_needed(page)
                    &&& flush == if old(self)@.contains_key(page) {
                        TlbFlush::Page(page)
                    } else {
                        TlbFlush::NotNeeded
                    }
                    &&& forall|addr: u64|
                        page.contains(addr) ==> #[trigger] final(self).translation(addr) == Some(
                            (frame.base() + (addr - page.base())) as u64,
                        )
                    &&& forall|addr: u64|
                        !page.contains(addr) ==> #[trigger] final(self).translation(addr) == old(
                            self,
                        ).translation(addr)
                },
                Err(_) => {
                    &&& final(self)@ == old(self)@
                    &&& final(self).allocator().remaining() == 0
                    &&& old(self).table_positions().subset_of(final(self).table_positions())
                    &&& final(self).table_positions().subset_of(
                        old(self).table_positions().union(path_positions(page.base())),
                    )
                },
            },
    {
        proof {
            use_type_invariant(&page);
            use_type_invariant(&frame);
            assert(is_table(self.tables@, self.root.index()));
            old(self).allocator.lemma_wf();
            old(self).lemma_tables_needed(page.base());
        }
        let addr = page.start_address();
        let mut table = self.root;
        let mut level: u8 = 4;
        while level > 1
            invariant
                1 <= level <= 4,
                addr == page.base(),
                self.wf(),
                self.root == old(self).root,
                self.mappings@ == old(self).mappings@,
                self.allocator.regions() == old(self).allocator.regions(),
                self.on_path(table, level as int, addr),
                missing_tables(old(self).memory@, old(self).root.index(), 4, addr)
                    == absent_tables(old(self).table_positions(), addr),
                old(self).table_positions().subset_of(self.table_positions()),
                self.table_positions().subset_of(
                    old(self).table_positions().union(path_positions(addr)),
                ),
                forall|l: int|
                    level <= l <= 3 ==> self.table_positions().contains(
                        (l, #[trigger] table_prefix(addr, l)),
                    ),
                self.allocator.allocated() + missing_tables(
                    self.memory@,
                    table.index(),
                    level as int,
                    addr,
                ) == old(self).allocator.allocated() + missing_tables(
                    old(self).memory@,
                    old(self).root.index(),
                    4,
                    addr,
                ),
            decreases level,
        {
            match self.next_table(table, level, addr) {
                Some(c) => {
                    table = c;
                    level = level - 1;
                },
                None => {
                    return Err(MapError::FrameAllocationFailed);
                },
            }
        }
        let ghost t = table.index();
        let ghost m0 = self.memory@;
        let ghost root = self.root.index();
        let ghost before = self.mappings@;
        proof {
            assert(is_table(self.tables@, t));
            lemma_table_index_range(addr);
            self.allocator.lemma_wf();
        }
        let index = index_at(addr, 1);
        let old_leaf = self.memory.entry(table, index);
        let leaf = PageTableEntry::leaf(frame, flags);
        self.memory.set_entry(table, index, leaf);
        let ghost mapping = Mapping { frame, flags };
        self.mappings = Ghost(before.insert(page, mapping));
        proof {
            let m2 = self.memory@;
            let tables = self.tables@;
            let i = index as int;
            assert forall|u: int, j: int|
                tables.contains_key(u) && tables[u].level >= 2 && 0 <= j
                    < 512 implies #[trigger] entry_at(m2, u, j) == entry_at(m0, u, j) by {
                assert(is_table(tables, u));
            }
            lemma_tree_same_entries(m0, m2, root, tables);
            page.lemma_contains(addr);
            lemma_walk_through(m0, root, tables, t, addr);
            assert(walk(m0, root, 4, addr) == old(self).leaf_of(addr));
            assert(old_leaf.spec_is_present() == before.contains_key(page));
            assert forall|a: u64| is_canonical(a) implies #[trigger] walk(m2, root, 4, a)
                == self.leaf_of(a) by {
                lemma_table_index_range(a);
                lemma_same_page(a, addr);
                Page::lemma_containing(a);
                page.lemma_contains(a);
                assert(walk(m0, root, 4, a) == old(self).leaf_of(a));
                if Page::containing(a) == page {
                    lemma_walk_through(m2, root, tables, t, a);
                    assert(entry_at(m2, t, table_index(a, 1)) == leaf);
                    assert(mapping.entry() == leaf);
                } else {
                    assert forall|u: int, j: int|
                        tables.contains_key(u) && 0 <= j < 512 && #[trigger] entry_at(m0, u, j)
                            != entry_at(m2, u, j) implies tables[u].level == 1 && tables[u].prefix
                        == tables[t].prefix && j == i by {
                        assert(is_table(tables, u));
                    }
                    lemma_walk_unchanged(m0, m2, root, tables, root, a, 1, tables[t].prefix, i);
                }
            }
            assert(self.table_positions() =~= old(self).table_positions().union(
                path_positions(addr),
            )) by {
                assert(self.table_positions().contains((3int, table_prefix(addr, 3))));
                assert(self.table_positions().contains((2int, table_prefix(addr, 2))));
                assert(self.table_positions().contains((1int, table_prefix(addr, 1))));
            }
            assert forall|a: u64| page.contains(a) implies #[trigger] self.translation(a) == Some(
                (frame.base() + (a - page.base())) as u64,
            ) by {
                page.lemma_contains(a);
            }
            assert forall|a: u64| !page.contains(a) implies #[trigger] self.translation(a) == old(
                self,
            ).translation(a) by {
                page.lemma_contains(a);
            }
        }
        if old_leaf.is_present() {
            Ok(TlbFlush::Page(page))
        } else {
            Ok(TlbFlush::NotNeeded)
        }
    }
}

} // verus!
