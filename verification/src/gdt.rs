//! Segment descriptors, the global descriptor table, and the task state
//! segment with the stack reserved for double faults.

use vstd::prelude::*;

verus! {

/// Number of 8-byte slots in the global descriptor table.
pub const GDT_CAPACITY: usize = 8;

/// Slot of the interrupt stack table that holds the double-fault stack.
pub const DOUBLE_FAULT_IST_INDEX: u16 = 0;

/// Size in bytes of the double-fault stack.
pub const DOUBLE_FAULT_STACK_SIZE: u64 = 20480;

/// Size in bytes of the task state segment.
pub const TSS_SIZE: usize = 104;

/// The 8-byte descriptor of the 64-bit kernel code segment.
pub const KERNEL_CODE64: u64 = 0x00af_9b00_0000_ffff;

/// Access byte: the segment was accessed.
pub const ACCESS_ACCESSED: u8 = 0x01;

/// Access byte: readable code or writable data.
pub const ACCESS_WRITABLE: u8 = 0x02;

/// Access byte: code segment.
pub const ACCESS_EXECUTABLE: u8 = 0x08;

/// Access byte: code or data segment, not a system segment.
pub const ACCESS_USER_SEGMENT: u8 = 0x10;

/// Access byte: the segment is present.
pub const ACCESS_PRESENT: u8 = 0x80;

/// Access byte of an available 64-bit task state segment that is present.
pub const ACCESS_TSS: u8 = 0x89;

/// Flag nibble: 64-bit code segment.
pub const FLAG_LONG_MODE: u8 = 0x2;

/// Flag nibble: the limit counts 4 KiB units.
pub const FLAG_GRANULARITY: u8 = 0x8;

/// The fields of a code or data segment descriptor.
#[derive(Debug, Clone, Copy, PartialEq, Eq, Structural)]
pub struct SegmentDescriptor {
    /// Linear address where the segment starts.
    pub base: u32,
    /// Highest offset in the segment; 20 bits.
    pub limit: u32,
    /// Access byte: type, descriptor privilege level and present bit.
    pub access: u8,
    /// Flag nibble: available, long mode, default size, granularity.
    pub flags: u8,
}

impl SegmentDescriptor {
    /// The limit has at most 20 bits and the flags at most 4.
    pub open spec fn wf(self) -> bool {
        self.limit <= 0xf_ffff && self.flags <= 0xf
    }

    /// The descriptor as the processor reads it: limit bits 0 to 15 in bits
    /// 0 to 15, base bits 0 to 23 in bits 16 to 39, the access byte in bits
    /// 40 to 47, limit bits 16 to 19 in bits 48 to 51, the flags in bits 52
    /// to 55 and base bits 24 to 31 in bits 56 to 63.
    pub open spec fn spec_encode(self) -> u64 {
        (self.limit as u64 & 0xffff) | (self.base as u64 & 0xff_ffff) << 16 | (self.access as u64)
            << 40 | (self.limit as u64 >> 16 & 0xf) << 48 | (self.flags as u64 & 0xf) << 52 | (
        self.base as u64 >> 24 & 0xff) << 56
    }

    #[verifier::when_used_as_spec(spec_encode)]
    pub fn encode(self) -> (bits: u64)
        ensures
            bits == self.spec_encode(),
    {
        (self.limit as u64 & 0xffff) | (self.base as u64 & 0xff_ffff) << 16 | (self.access as u64)
            << 40 | (self.limit as u64 >> 16 & 0xf) << 48 | (self.flags as u64 & 0xf) << 52 | (
        self.base as u64 >> 24 & 0xff) << 56
    }

    /// The fields that the 8 bytes `bits` hold.
    pub fn decode(bits: u64) -> (descriptor: SegmentDescriptor)
        ensures
            descriptor.wf(),
            descriptor.spec_encode() == bits,
    {
        let base: u32 = ((bits >> 16 & 0xff_ffff) | (bits >> 56 & 0xff) << 24) as u32;
        let limit: u32 = ((bits & 0xffff) | (bits >> 48 & 0xf) << 16) as u32;
        let access: u8 = (bits >> 40 & 0xff) as u8;
        let flags: u8 = (bits >> 52 & 0xf) as u8;
        assert(limit <= 0xf_ffff && flags <= 0xf && (limit as u64 & 0xffff) | (base as u64
            & 0xff_ffff) << 16 | (access as u64) << 40 | (limit as u64 >> 16 & 0xf) << 48 | (
        flags as u64 & 0xf) << 52 | (base as u64 >> 24 & 0xff) << 56 == bits) by (bit_vector)
            requires
                base == ((bits >> 16 & 0xff_ffff) | (bits >> 56 & 0xff) << 24) as u32,
                limit == ((bits & 0xffff) | (bits >> 48 & 0xf) << 16) as u32,
                access == (bits >> 40 & 0xff) as u8,
                flags == (bits >> 52 & 0xf) as u8,
        ;
        SegmentDescriptor { base, limit, access, flags }
    }

    /// The flat 64-bit code segment of the kernel.
    pub fn kernel_code_segment() -> (descriptor: SegmentDescriptor)
        ensures
            descriptor == (SegmentDescriptor {
                base: 0,
                limit: 0xf_ffff,
                access: 0x9b,
                flags: 0xa,
            }),
            descriptor.wf(),
            descriptor.spec_encode() == KERNEL_CODE64,
    {
        assert((0xf_ffffu32 as u64 & 0xffff) | (0u32 as u64 & 0xff_ffff) << 16 | (0x9bu8 as u64)
            << 40 | (0xf_ffffu32 as u64 >> 16 & 0xf) << 48 | (0xau8 as u64 & 0xf) << 52 | (
        0u32 as u64 >> 24 & 0xff) << 56 == 0x00af_9b00_0000_ffffu64 && 0x80u8 | 0x10u8 | 0x08u8
            | 0x02u8 | 0x01u8 == 0x9bu8 && 0x8u8 | 0x2u8 == 0xau8) by (bit_vector);
        SegmentDescriptor {
            base: 0,
            limit: 0xf_ffff,
            access: ACCESS_PRESENT | ACCESS_USER_SEGMENT | ACCESS_EXECUTABLE | ACCESS_WRITABLE
                | ACCESS_ACCESSED,
            flags: FLAG_GRANULARITY | FLAG_LONG_MODE,
        }
    }
}

/// Encoding and decoding a descriptor gives the descriptor back.
pub proof fn lemma_descriptor_round_trip(d: SegmentDescriptor)
    requires
        d.wf(),
    ensures
        ((d.spec_encode() >> 16 & 0xff_ffff) | (d.spec_encode() >> 56 & 0xff) << 24) == d.base,
        ((d.spec_encode() & 0xffff) | (d.spec_encode() >> 48 & 0xf) << 16) == d.limit,
        (d.spec_encode() >> 40 & 0xff) == d.access,
        (d.spec_encode() >> 52 & 0xf) == d.flags,
{
    let base = d.base;
    let limit = d.limit;
    let access = d.access;
    let flags = d.flags;
    let bits = d.spec_encode();
    assert(((bits >> 16 & 0xff_ffff) | (bits >> 56 & 0xff) << 24) == base && ((bits & 0xffff) | (
    bits >> 48 & 0xf) << 16) == limit && (bits >> 40 & 0xff) == access && (bits >> 52 & 0xf)
        == flags) by (bit_vector)
        requires
            limit <= 0xf_ffff,
            flags <= 0xf,
            bits == (limit as u64 & 0xffff) | (base as u64 & 0xff_ffff) << 16 | (access as u64)
                << 40 | (limit as u64 >> 16 & 0xf) << 48 | (flags as u64 & 0xf) << 52 | (
            base as u64 >> 24 & 0xff) << 56,
    ;
}

/// An entry for the global descriptor table.
#[derive(Debug, Clone, Copy, PartialEq, Eq, Structural)]
pub enum Descriptor {
    /// A code or data segment: one slot.
    UserSegment(u64),
    /// A system segment such as the task state segment: two slots.
    SystemSegment(u64, u64),
}

/// Low 8 bytes of the descriptor of a task state segment at address `base`:
/// limit 103, base bits 0 to 23 in bits 16 to 39, the type of an available
/// 64-bit task state segment with the present bit, and base bits 24 to 31 in
/// bits 56 to 63.
pub open spec fn tss_descriptor_low(base: u64) -> u64 {
    0x67 | (base & 0xff_ffff) << 16 | 0x89u64 << 40 | (base >> 24 & 0xff) << 56
}

/// High 8 bytes of that descriptor: base bits 32 to 63.
pub open spec fn tss_descriptor_high(base: u64) -> u64 {
    base >> 32
}

/// The two words of the descriptor of a task state segment hold the
/// segment's address, the limit 103, and the access byte of an available
/// 64-bit task state segment that is present; every other bit is zero.
pub proof fn lemma_tss_descriptor_fields(base: u64)
    ensures
        (tss_descriptor_low(base) >> 16 & 0xff_ffff) | (tss_descriptor_low(base) >> 56 & 0xff)
            << 24 | tss_descriptor_high(base) << 32 == base,
        tss_descriptor_low(base) & 0xffff == 0x67,
        tss_descriptor_low(base) >> 40 & 0xff == ACCESS_TSS,
        tss_descriptor_low(base) >> 48 & 0xff == 0,
        tss_descriptor_high(base) >> 32 == 0,
{
    let low = tss_descriptor_low(base);
    let high = tss_descriptor_high(base);
    assert((low >> 16 & 0xff_ffff) | (low >> 56 & 0xff) << 24 | high << 32 == base && low & 0xffff
        == 0x67 && low >> 40 & 0xff == 0x89 && low >> 48 & 0xff == 0 && high >> 32 == 0)
        by (bit_vector)
        requires
            low == 0x67 | (base & 0xff_ffff) << 16 | 0x89u64 << 40 | (base >> 24 & 0xff) << 56,
            high == base >> 32,
    ;
}

impl Descriptor {
    /// The first 8 bytes of the entry.
    pub open spec fn low(self) -> u64 {
        match self {
            Descriptor::UserSegment(low) => low,
            Descriptor::SystemSegment(low, _) => low,
        }
    }

    /// Number of table slots the entry takes.
    pub open spec fn slots(self) -> int {
        match self {
            Descriptor::UserSegment(_) => 1,
            Descriptor::SystemSegment(_, _) => 2,
        }
    }

    /// The words of the entry in table order.
    pub open spec fn words(self) -> Seq<u64> {
        match self {
            Descriptor::UserSegment(low) => seq![low],
            Descriptor::SystemSegment(low, high) => seq![low, high],
        }
    }

    /// Descriptor privilege level: bits 45 and 46 of the first 8 bytes.
    pub open spec fn spec_dpl(self) -> u16 {
        (self.low() >> 45 & 0x3) as u16
    }

    #[verifier::when_used_as_spec(spec_dpl)]
    pub fn dpl(self) -> (level: u16)
        ensures
            level == self.spec_dpl(),
            level <= 3,
    {
        let low = match self {
            Descriptor::UserSegment(low) => low,
            Descriptor::SystemSegment(low, _) => low,
        };
        assert((low >> 45 & 0x3) <= 3) by (bit_vector);
        (low >> 45 & 0x3) as u16
    }

    /// The entry for the kernel's 64-bit code segment.
    pub fn kernel_code_segment() -> (descriptor: Descriptor)
        ensures
            descriptor == Descriptor::UserSegment(KERNEL_CODE64),
            descriptor.spec_dpl() == 0,
    {
        assert((0x00af_9b00_0000_ffffu64 >> 45 & 0x3) as u16 == 0) by (bit_vector);
        Descriptor::UserSegment(SegmentDescriptor::kernel_code_segment().encode())
    }

    /// The entry for a task state segment that lies at address `base`.
    pub fn tss_segment(base: u64) -> (descriptor: Descriptor)
        ensures
            descriptor == Descriptor::SystemSegment(
                tss_descriptor_low(base),
                tss_descriptor_high(base),
            ),
            descriptor.spec_dpl() == 0,
    {
        let low: u64 = 0x67 | (base & 0xff_ffff) << 16 | 0x89u64 << 40 | (base >> 24 & 0xff) << 56;
        assert((low >> 45 & 0x3) as u16 == 0) by (bit_vector)
            requires
                low == 0x67 | (base & 0xff_ffff) << 16 | 0x89u64 << 40 | (base >> 24 & 0xff) << 56,
        ;
        Descriptor::SystemSegment(low, base >> 32)
    }
}

/// A segment selector: the index of a table entry in bits 3 to 15 and the
/// requested privilege level in bits 0 and 1.
#[derive(Debug, Clone, Copy, PartialEq, Eq, Structural)]
pub struct SegmentSelector(pub u16);

impl SegmentSelector {
    pub open spec fn spec_new(index: u16, rpl: u16) -> SegmentSelector {
        SegmentSelector(index << 3 | rpl)
    }

    /// The selector for entry `index` at privilege level `rpl`.
    #[verifier::when_used_as_spec(spec_new)]
    pub fn new(index: u16, rpl: u16) -> (selector: SegmentSelector)
        ensures
            selector == SegmentSelector::spec_new(index, rpl),
    {
        SegmentSelector(index << 3 | rpl)
    }

    pub open spec fn spec_index(self) -> u16 {
        self.0 >> 3
    }

    #[verifier::when_used_as_spec(spec_index)]
    pub fn index(self) -> (index: u16)
        ensures
            index == self.spec_index(),
    {
        self.0 >> 3
    }

    pub open spec fn spec_rpl(self) -> u16 {
        self.0 & 0x3
    }

    #[verifier::when_used_as_spec(spec_rpl)]
    pub fn rpl(self) -> (rpl: u16)
        ensures
            rpl == self.spec_rpl(),
    {
        self.0 & 0x3
    }
}

/// A selector gives back the index and the privilege level it was made
/// from.
pub proof fn lemma_selector_fields(index: u16, rpl: u16)
    requires
        index < 8192,
        rpl <= 3,
    ensures
        SegmentSelector::spec_new(index, rpl).spec_index() == index,
        SegmentSelector::spec_new(index, rpl).spec_rpl() == rpl,
        rpl == 0 ==> SegmentSelector::spec_new(index, rpl).0 == index * 8,
{
    assert((index << 3 | rpl) >> 3 == index && (index << 3 | rpl) & 0x3 == rpl && (rpl == 0 ==> (
    index << 3 | rpl) == index * 8)) by (bit_vector)
        requires
            index < 8192,
            rpl <= 3,
    ;
}

/// The global descriptor table: up to eight 8-byte slots, the first of
/// which is the null descriptor.
pub struct GlobalDescriptorTable {
    table: Vec<u64>,
}

impl View for GlobalDescriptorTable {
    type V = Seq<u64>;

    closed spec fn view(&self) -> Seq<u64> {
        self.table@
    }
}

impl GlobalDescriptorTable {
    /// The table holds the null descriptor and at most eight slots.
    pub closed spec fn wf(&self) -> bool {
        1 <= self.table@.len() <= GDT_CAPACITY && self.table@[0] == 0
    }

    /// A table that holds only the null descriptor.
    pub fn new() -> (gdt: GlobalDescriptorTable)
        ensures
            gdt.wf(),
            gdt@ == seq![0u64],
    {
        let mut table: Vec<u64> = Vec::new();
        table.push(0);
        GlobalDescriptorTable { table }
    }

    /// Appends `entry` to a table that has room for it and returns the
    /// selector that names it.
    fn append(&mut self, entry: Descriptor) -> (selector: SegmentSelector)
        requires
            old(self).wf(),
            old(self)@.len() + entry.slots() <= GDT_CAPACITY,
        ensures
            final(self).wf(),
            final(self)@ == old(self)@ + entry.words(),
            selector == SegmentSelector::spec_new(old(self)@.len() as u16, entry.spec_dpl()),
    {
        let index = self.table.len();
        let rpl = entry.dpl();
        match entry {
            Descriptor::UserSegment(low) => {
                self.table.push(low);
            },
            Descriptor::SystemSegment(low, high) => {
                self.table.push(low);
                self.table.push(high);
            },
        }
        proof {
            assert(self.table@ =~= old(self).table@ + entry.words());
        }
        SegmentSelector::new(index as u16, rpl)
    }

    /// Appends `entry` and returns the selector that names it, or `None`
    /// when the table has too few free slots.
    pub fn add_entry(&mut self, entry: Descriptor) -> (selector: Option<SegmentSelector>)
        requires
            old(self).wf(),
        ensures
            final(self).wf(),
            selector is Some <==> old(self)@.len() + entry.slots() <= GDT_CAPACITY,
            match selector {
                Some(s) => {
                    &&& final(self)@ == old(self)@ + entry.words()
                    &&& s == SegmentSelector::spec_new(old(self)@.len() as u16, entry.spec_dpl())
                },
                None => final(self)@ == old(self)@,
            },
    {
        let needed: usize = match entry {
            Descriptor::UserSegment(_) => 1,
            Descriptor::SystemSegment(_, _) => 2,
        };
        if self.table.len() + needed > GDT_CAPACITY {
            return None;
        }
        Some(self.append(entry))
    }

    /// The slots in table order, as the processor reads them.
    pub fn entries(&self) -> (slots: &Vec<u64>)
        ensures
            slots@ == self@,
    {
        &self.table
    }

    /// The limit to load with the table: its size in bytes less one.
    pub fn limit(&self) -> (limit: u16)
        requires
            self.wf(),
        ensures
            limit == self@.len() * 8 - 1,
    {
        (self.table.len() * 8 - 1) as u16
    }
}

/// The task state segment, used here for its interrupt stack table alone.
#[derive(Debug, Clone, Copy, PartialEq, Eq)]
pub struct TaskStateSegment {
    /// Stack pointers loaded on a change to privilege level 0, 1 or 2.
    pub privilege_stack_table: [u64; 3],
    /// Stack pointers for handlers that name an interrupt stack.
    pub interrupt_stack_table: [u64; 7],
    /// Offset of the I/O permission bitmap from the segment's start.
    pub iomap_base: u16,
}

/// Byte `i` of `value` in little-endian order.
pub open spec fn byte_of(value: u64, i: int) -> u8 {
    (value >> ((8 * i) as u64) & 0xff) as u8
}

impl TaskStateSegment {
    /// Byte `i` of the 104 bytes the processor reads: the privilege stack
    /// table at offset 4, the interrupt stack table at offset 36, the I/O
    /// map base at offset 102, and zero in every reserved byte.
    pub open spec fn spec_byte(&self, i: int) -> u8 {
        if 4 <= i < 28 {
            byte_of(self.privilege_stack_table@[(i - 4) / 8], (i - 4) % 8)
        } else if 36 <= i < 92 {
            byte_of(self.interrupt_stack_table@[(i - 36) / 8], (i - 36) % 8)
        } else if 102 <= i < 104 {
            byte_of(self.iomap_base as u64, i - 102)
        } else {
            0
        }
    }

    /// The segment as the 104 bytes the processor reads.
    pub open spec fn spec_bytes(&self) -> Seq<u8> {
        Seq::new(104, |i: int| self.spec_byte(i))
    }

    /// A segment with no stack set and no I/O permission bitmap.
    pub fn new() -> (tss: TaskStateSegment)
        ensures
            tss.privilege_stack_table@ == seq![0u64, 0, 0],
            tss.interrupt_stack_table@ == seq![0u64, 0, 0, 0, 0, 0, 0],
            tss.iomap_base == TSS_SIZE,
    {
        let tss = TaskStateSegment {
            privilege_stack_table: [0, 0, 0],
            interrupt_stack_table: [0, 0, 0, 0, 0, 0, 0],
            iomap_base: TSS_SIZE as u16,
        };
        assert(tss.privilege_stack_table@ =~= seq![0u64, 0, 0]);
        assert(tss.interrupt_stack_table@ =~= seq![0u64, 0, 0, 0, 0, 0, 0]);
        tss
    }

    /// Byte `i` of the segment's memory image.
    pub fn byte(&self, i: usize) -> (b: u8)
        requires
            i < TSS_SIZE,
        ensures
            b == self.spec_byte(i as int),
    {
        if 4 <= i && i < 28 {
            let value = self.privilege_stack_table[(i - 4) / 8];
            (value >> ((8 * ((i - 4) % 8)) as u64) & 0xff) as u8
        } else if 36 <= i && i < 92 {
            let value = self.interrupt_stack_table[(i - 36) / 8];
            (value >> ((8 * ((i - 36) % 8)) as u64) & 0xff) as u8
        } else if 102 <= i {
            (self.iomap_base as u64 >> ((8 * (i - 102)) as u64) & 0xff) as u8
        } else {
            0
        }
    }

    /// The segment's memory image.
    pub fn to_bytes(&self) -> (bytes: Vec<u8>)
        ensures
            bytes@ == self.spec_bytes(),
    {
        let mut bytes: Vec<u8> = Vec::new();
        let mut i: usize = 0;
        while i < TSS_SIZE
            invariant
                i <= TSS_SIZE,
                bytes@.len() == i,
                forall|j: int| 0 <= j < i ==> bytes@[j] == self.spec_byte(j),
            decreases TSS_SIZE - i,
        {
            bytes.push(self.byte(i));
            i = i + 1;
        }
        assert(bytes@ =~= self.spec_bytes());
        bytes
    }
}

/// The selectors of the two segments the kernel loads.
#[derive(Debug, Clone, Copy, PartialEq, Eq, Structural)]
pub struct Selectors {
    pub code_selector: SegmentSelector,
    pub tss_selector: SegmentSelector,
}

/// One step of bringing the segment tables into force.
#[derive(Debug, Clone, Copy, PartialEq, Eq, Structural)]
pub enum LoadStep {
    /// Load the table register with the global descriptor table.
    LoadGdt,
    /// Reload the code segment register with this selector.
    SetCodeSegment(SegmentSelector),
    /// Load the task register with this selector.
    LoadTaskRegister(SegmentSelector),
}

/// What `init` builds: the tables, the selectors into them, and the order in
/// which the processor is to take them up.
pub struct SegmentTables {
    pub tss: TaskStateSegment,
    pub gdt: GlobalDescriptorTable,
    pub selectors: Selectors,
    pub load_order: [LoadStep; 3],
}

/// Builds the task state segment, with the end of the double-fault stack in
/// slot `DOUBLE_FAULT_IST_INDEX` of its interrupt stack table, and a global
/// descriptor table that holds the kernel code segment and the descriptor of
/// the task state segment, which will lie at address `tss_base`.
///
/// The double-fault stack is the `DOUBLE_FAULT_STACK_SIZE` bytes from
/// `stack_start` on; it grows downwards, so the slot holds its end.
pub fn init(tss_base: u64, stack_start: u64) -> (tables: SegmentTables)
    requires
        stack_start + DOUBLE_FAULT_STACK_SIZE <= u64::MAX,
    ensures
        tables.gdt.wf(),
        tables.gdt@ == seq![
            0u64,
            KERNEL_CODE64,
            tss_descriptor_low(tss_base),
            tss_descriptor_high(tss_base),
        ],
        tables.selectors.code_selector == SegmentSelector(8),
        tables.selectors.tss_selector == SegmentSelector(16),
        tables.tss.interrupt_stack_table@ == seq![
            (stack_start + DOUBLE_FAULT_STACK_SIZE) as u64,
            0,
            0,
            0,
            0,
            0,
            0,
        ],
        tables.tss.privilege_stack_table@ == seq![0u64, 0, 0],
        tables.tss.iomap_base == TSS_SIZE,
        tables.load_order@ == seq![
            LoadStep::LoadGdt,
            LoadStep::SetCodeSegment(tables.selectors.code_selector),
            LoadStep::LoadTaskRegister(tables.selectors.tss_selector),
        ],
{
    let mut tss = TaskStateSegment::new();
    tss.interrupt_stack_table[DOUBLE_FAULT_IST_INDEX as usize] = stack_start
        + DOUBLE_FAULT_STACK_SIZE;
    let mut gdt = GlobalDescriptorTable::new();
    let code_selector = gdt.append(Descriptor::kernel_code_segment());
    let tss_selector = gdt.append(Descriptor::tss_segment(tss_base));
    proof {
        lemma_selector_fields(1, 0);
        lemma_selector_fields(2, 0);
    }
    let selectors = Selectors { code_selector, tss_selector };
    let load_order = [
        LoadStep::LoadGdt,
        LoadStep::SetCodeSegment(selectors.code_selector),
        LoadStep::LoadTaskRegister(selectors.tss_selector),
    ];
    proof {
        assert(gdt@ =~= seq![
            0u64,
            KERNEL_CODE64,
            tss_descriptor_low(tss_base),
            tss_descriptor_high(tss_base),
        ]);
        assert(tss.interrupt_stack_table@ =~= seq![
            (stack_start + DOUBLE_FAULT_STACK_SIZE) as u64,
            0,
            0,
            0,
            0,
            0,
            0,
        ]);
        assert(load_order@ =~= seq![
            LoadStep::LoadGdt,
            LoadStep::SetCodeSegment(selectors.code_selector),
            LoadStep::LoadTaskRegister(selectors.tss_selector),
        ]);
    }
    SegmentTables { tss, gdt, selectors, load_order }
}

} // verus!
