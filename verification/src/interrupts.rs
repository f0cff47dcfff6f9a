//! The interrupt descriptor table, the pair of chained interrupt
//! controllers, and what the kernel decides when an exception or a hardware
//! interrupt arrives.

use vstd::prelude::*;
use crate::gdt::{SegmentSelector, DOUBLE_FAULT_IST_INDEX};

pub mod dispatch;
pub mod handlers;
pub mod pic;

verus! {

/// Number of vectors, and of gates in the interrupt descriptor table.
pub const IDT_ENTRIES: usize = 256;

/// Vector of the breakpoint exception.
pub const BREAKPOINT_VECTOR: u8 = 3;

/// Vector of the double-fault exception.
pub const DOUBLE_FAULT_VECTOR: u8 = 8;

/// Vector of the general-protection fault.
pub const GENERAL_PROTECTION_VECTOR: u8 = 13;

/// Vector of the page fault.
pub const PAGE_FAULT_VECTOR: u8 = 14;

/// Vector of line 0 of the primary interrupt controller.
pub const PIC_1_OFFSET: u8 = 32;

/// Vector of line 0 of the secondary interrupt controller.
pub const PIC_2_OFFSET: u8 = 40;

/// Vector of the timer interrupt: line 0 of the primary controller.
pub const TIMER_VECTOR: u8 = 32;

/// What a handler asks of its gate.
#[derive(Debug, Clone, Copy, PartialEq, Eq, Structural)]
pub struct HandlerOptions {
    /// Slot of the interrupt stack table to switch to, 0 to 6, if any.
    pub stack_index: Option<u16>,
    /// Lowest privilege level that may raise the vector by instruction.
    pub privilege_level: u16,
    /// Whether hardware interrupts are masked while the handler runs.
    pub disable_interrupts: bool,
}

impl HandlerOptions {
    /// The stack index is below 7 and the privilege level at most 3.
    pub open spec fn wf(self) -> bool {
        &&& self.privilege_level <= 3
        &&& (self.stack_index matches Some(i) ==> i < 7)
    }

    pub fn is_valid(self) -> (valid: bool)
        ensures
            valid == self.wf(),
    {
        let stack_ok = match self.stack_index {
            Some(i) => i < 7,
            None => true,
        };
        self.privilege_level <= 3 && stack_ok
    }

    pub open spec fn spec_plain() -> HandlerOptions {
        HandlerOptions { stack_index: None, privilege_level: 0, disable_interrupts: true }
    }

    /// Kernel-only gate on the current stack, interrupts masked.
    #[verifier::when_used_as_spec(spec_plain)]
    pub fn plain() -> (options: HandlerOptions)
        ensures
            options == HandlerOptions::spec_plain(),
    {
        HandlerOptions { stack_index: None, privilege_level: 0, disable_interrupts: true }
    }

    pub open spec fn spec_on_stack(index: u16) -> HandlerOptions {
        HandlerOptions { stack_index: Some(index), privilege_level: 0, disable_interrupts: true }
    }

    /// Kernel-only gate that switches to slot `index` of the interrupt stack
    /// table, interrupts masked.
    #[verifier::when_used_as_spec(spec_on_stack)]
    pub fn on_stack(index: u16) -> (options: HandlerOptions)
        ensures
            options == HandlerOptions::spec_on_stack(index),
    {
        HandlerOptions { stack_index: Some(index), privilege_level: 0, disable_interrupts: true }
    }
}

/// One gate of the interrupt descriptor table.
#[derive(Debug, Clone, Copy, PartialEq, Eq, Structural)]
pub struct GateDescriptor {
    /// Address of the handler's entry point.
    pub handler: u64,
    /// Code segment the handler runs in.
    pub selector: SegmentSelector,
    /// Whether the descriptor is in use.
    pub present: bool,
    pub options: HandlerOptions,
}

impl GateDescriptor {
    /// The 16 option bits: the number of the interrupt stack, counted from
    /// 1, in bits 0 to 2 (0 for none); bit 8 set when interrupts stay
    /// enabled; bits 9 to 11 set; the privilege level in bits 13 and 14; the
    /// present bit in bit 15.
    pub open spec fn spec_option_bits(self) -> u16 {
        0x0e00u16 | (match self.options.stack_index {
            Some(i) => ((i + 1) as u16) & 0x7,
            None => 0,
        }) | (if self.options.disable_interrupts {
            0
        } else {
            0x0100
        }) | (self.options.privilege_level & 0x3) << 13 | (if self.present {
            0x8000
        } else {
            0
        })
    }

    /// The descriptor as the 16 bytes the processor reads, low 8 bytes first:
    /// handler bits 0 to 15, the selector, the option bits, handler bits 16
    /// to 31; then handler bits 32 to 63 and 4 reserved bytes of zero.
    pub open spec fn spec_encode(self) -> (u64, u64) {
        (
            (self.handler & 0xffff) | (self.selector.0 as u64) << 16 | (
            self.spec_option_bits() as u64) << 32 | (self.handler >> 16 & 0xffff) << 48,
            self.handler >> 32,
        )
    }

    pub open spec fn spec_missing() -> GateDescriptor {
        GateDescriptor {
            handler: 0,
            selector: SegmentSelector(0),
            present: false,
            options: HandlerOptions::spec_plain(),
        }
    }

    /// The descriptor of a vector that has no handler.
    #[verifier::when_used_as_spec(spec_missing)]
    pub fn missing() -> (gate: GateDescriptor)
        ensures
            gate == GateDescriptor::spec_missing(),
    {
        GateDescriptor {
            handler: 0,
            selector: SegmentSelector(0),
            present: false,
            options: HandlerOptions::plain(),
        }
    }

    pub fn option_bits(self) -> (bits: u16)
        requires
            self.options.wf(),
        ensures
            bits == self.spec_option_bits(),
    {
        let stack: u16 = match self.options.stack_index {
            Some(i) => (i + 1) & 0x7,
            None => 0,
        };
        let trap: u16 = if self.options.disable_interrupts {
            0
        } else {
            0x0100
        };
        let present: u16 = if self.present {
            0x8000
        } else {
            0
        };
        0x0e00u16 | stack | trap | (self.options.privilege_level & 0x3) << 13 | present
    }

    pub fn encode(self) -> (words: (u64, u64))
        requires
            self.options.wf(),
        ensures
            words == self.spec_encode(),
    {
        let bits = self.option_bits();
        (
            (self.handler & 0xffff) | (self.selector.0 as u64) << 16 | (bits as u64) << 32 | (
            self.handler >> 16 & 0xffff) << 48,
            self.handler >> 32,
        )
    }
}

/// The words of a gate hold the handler's address, the selector and the
/// option bits, each in its place.
pub proof fn lemma_gate_fields(gate: GateDescriptor)
    ensures
        (gate.spec_encode().0 & 0xffff) | (gate.spec_encode().0 >> 48 & 0xffff) << 16
            | gate.spec_encode().1 << 32 == gate.handler,
        gate.spec_encode().0 >> 16 & 0xffff == gate.selector.0,
        gate.spec_encode().0 >> 32 & 0xffff == gate.spec_option_bits(),
        gate.spec_encode().1 >> 32 == 0,
{
    let handler = gate.handler;
    let selector = gate.selector.0;
    let bits = gate.spec_option_bits();
    let low = gate.spec_encode().0;
    let high = gate.spec_encode().1;
    assert((low & 0xffff) | (low >> 48 & 0xffff) << 16 | high << 32 == handler && low >> 16 & 0xffff
        == selector && low >> 32 & 0xffff == bits && high >> 32 == 0) by (bit_vector)
        requires
            low == (handler & 0xffff) | (selector as u64) << 16 | (bits as u64) << 32 | (handler
                >> 16 & 0xffff) << 48,
            high == handler >> 32,
    ;
}

/// The option bits of a present kernel gate that masks interrupts: `0x8e00`
/// on the current stack, and `0x8e00` plus the stack's number, counted from
/// 1, with an interrupt stack.
pub proof fn lemma_kernel_gate_bits(gate: GateDescriptor)
    requires
        gate.present,
        gate.options.privilege_level == 0,
        gate.options.disable_interrupts,
        gate.options.wf(),
    ensures
        gate.spec_option_bits() == match gate.options.stack_index {
            Some(i) => 0x8e00 + i + 1,
            None => 0x8e00,
        },
{
    let stack: u16 = match gate.options.stack_index {
        Some(i) => (i + 1) as u16,
        None => 0,
    };
    assert(0x0e00u16 | (stack & 0x7) | 0u16 | (0u16 & 0x3) << 13 | 0x8000u16 == 0x8e00 + stack
        && 0x0e00u16 | 0u16 | 0u16 | (0u16 & 0x3) << 13 | 0x8000u16 == 0x8e00) by (bit_vector)
        requires
            stack <= 7,
    ;
}

/// The interrupt descriptor table: one gate for each of the 256 vectors.
pub struct InterruptDescriptorTable {
    entries: Vec<GateDescriptor>,
    code_selector: SegmentSelector,
}

impl View for InterruptDescriptorTable {
    type V = Seq<GateDescriptor>;

    closed spec fn view(&self) -> Seq<GateDescriptor> {
        self.entries@
    }
}

impl InterruptDescriptorTable {
    /// The code segment that every handler of the table runs in.
    pub closed spec fn code_selector(&self) -> SegmentSelector {
        self.code_selector
    }

    /// The table holds 256 gates, each with valid options.
    pub closed spec fn wf(&self) -> bool {
        &&& self.entries@.len() == IDT_ENTRIES
        &&& forall|v: int| 0 <= v < IDT_ENTRIES ==> (#[trigger] self.entries@[v]).options.wf()
    }

    /// The descriptor that `set_handler` installs.
    pub open spec fn gate(&self, handler: u64, options: HandlerOptions) -> GateDescriptor {
        GateDescriptor { handler, selector: self.code_selector(), present: true, options }
    }

    /// A table in which no vector has a handler; handlers set later run in
    /// the code segment `code_selector`.
    pub fn new(code_selector: SegmentSelector) -> (idt: InterruptDescriptorTable)
        ensures
            idt.wf(),
            idt.code_selector() == code_selector,
            idt@.len() == IDT_ENTRIES,
            forall|v: int| 0 <= v < IDT_ENTRIES ==> #[trigger] idt@[v] == GateDescriptor::missing(),
    {
        let mut entries: Vec<GateDescriptor> = Vec::new();
        let mut v: usize = 0;
        while v < IDT_ENTRIES
            invariant
                v <= IDT_ENTRIES,
                entries@.len() == v,
                forall|w: int| 0 <= w < v ==> #[trigger] entries@[w] == GateDescriptor::missing(),
            decreases IDT_ENTRIES - v,
        {
            entries.push(GateDescriptor::missing());
            v = v + 1;
        }
        InterruptDescriptorTable { entries, code_selector }
    }

    /// Makes `handler` the entry point for `vector`, with `options`.
    /// Returns `false`, and changes nothing, when `options` names a stack
    /// index above 6 or a privilege level above 3.
    pub fn set_handler(&mut self, vector: u8, handler: u64, options: HandlerOptions) -> (set: bool)
        requires
            old(self).wf(),
        ensures
            final(self).wf(),
            final(self).code_selector() == old(self).code_selector(),
            set == options.wf(),
            set ==> final(self)@ == old(self)@.update(
                vector as int,
                old(self).gate(handler, options),
            ),
            !set ==> final(self)@ == old(self)@,
    {
        if !options.is_valid() {
            return false;
        }
        let gate = GateDescriptor {
            handler,
            selector: self.code_selector,
            present: true,
            options,
        };
        self.entries[vector as usize] = gate;
        true
    }

    /// The descriptor of `vector`.
    pub fn entry(&self, vector: u8) -> (gate: GateDescriptor)
        requires
            self.wf(),
        ensures
            gate == self@[vector as int],
    {
        self.entries[vector as usize]
    }

    /// The table as the 512 words the processor reads: words `2 * v` and
    /// `2 * v + 1` are the descriptor of vector `v`.
    pub open spec fn spec_words(&self) -> Seq<u64> {
        Seq::new(
            512,
            |k: int|
                if k % 2 == 0 {
                    self@[k / 2].spec_encode().0
                } else {
                    self@[k / 2].spec_encode().1
                },
        )
    }

    /// The table's memory image.
    pub fn to_words(&self) -> (words: Vec<u64>)
        requires
            self.wf(),
        ensures
            words@ == self.spec_words(),
    {
        let mut words: Vec<u64> = Vec::new();
        let mut v: usize = 0;
        while v < IDT_ENTRIES
            invariant
                self.wf(),
                v <= IDT_ENTRIES,
                words@.len() == 2 * v,
                forall|k: int| 0 <= k < 2 * v ==> #[trigger] words@[k] == self.spec_words()[k],
            decreases IDT_ENTRIES - v,
        {
            let (low, high) = self.entries[v].encode();
            words.push(low);
            words.push(high);
            v = v + 1;
        }
        assert(words@ =~= self.spec_words());
        words
    }

    /// The limit to load with the table: its size in bytes less one.
    pub fn limit(&self) -> (limit: u16)
        ensures
            limit == 4095,
    {
        4095
    }
}

/// Entry points of the handlers the kernel installs.
#[derive(Debug, Clone, Copy, PartialEq, Eq, Structural)]
pub struct HandlerAddresses {
    pub breakpoint: u64,
    pub double_fault: u64,
    pub general_protection_fault: u64,
    pub page_fault: u64,
    pub timer: u64,
}

/// Whether the kernel installs a handler for `vector`.
pub open spec fn has_handler(vector: int) -> bool {
    vector == BREAKPOINT_VECTOR || vector == DOUBLE_FAULT_VECTOR || vector
        == GENERAL_PROTECTION_VECTOR || vector == PAGE_FAULT_VECTOR || vector == TIMER_VECTOR
}

/// Builds the kernel's interrupt descriptor table: gates for the breakpoint
/// exception, the double fault, the general-protection fault, the page fault
/// and the timer, all in the code segment `code_selector`. The double fault
/// alone runs on a stack of its own, the one in slot
/// `DOUBLE_FAULT_IST_INDEX` of the interrupt stack table.
pub fn init_idt(code_selector: SegmentSelector, handlers: HandlerAddresses) -> (idt:
    InterruptDescriptorTable)
    ensures
        idt.wf(),
        idt.code_selector() == code_selector,
        idt@.len() == IDT_ENTRIES,
        idt@[BREAKPOINT_VECTOR as int] == idt.gate(handlers.breakpoint, HandlerOptions::plain()),
        idt@[DOUBLE_FAULT_VECTOR as int] == idt.gate(
            handlers.double_fault,
            HandlerOptions::on_stack(DOUBLE_FAULT_IST_INDEX),
        ),
        idt@[GENERAL_PROTECTION_VECTOR as int] == idt.gate(
            handlers.general_protection_fault,
            HandlerOptions::plain(),
        ),
        idt@[PAGE_FAULT_VECTOR as int] == idt.gate(handlers.page_fault, HandlerOptions::plain()),
        idt@[TIMER_VECTOR as int] == idt.gate(handlers.timer, HandlerOptions::plain()),
        forall|v: int|
            0 <= v < IDT_ENTRIES ==> ((#[trigger] idt@[v]).present <==> has_handler(v)),
        forall|v: int|
            0 <= v < IDT_ENTRIES ==> ((#[trigger] idt@[v]).options.stack_index is Some <==> v
                == DOUBLE_FAULT_VECTOR),
{
    let mut idt = InterruptDescriptorTable::new(code_selector);
    idt.set_handler(BREAKPOINT_VECTOR, handlers.breakpoint, HandlerOptions::plain());
    idt.set_handler(
        DOUBLE_FAULT_VECTOR,
        handlers.double_fault,
        HandlerOptions::on_stack(DOUBLE_FAULT_IST_INDEX),
    );
    idt.set_handler(
        GENERAL_PROTECTION_VECTOR,
        handlers.general_protection_fault,
        HandlerOptions::plain(),
    );
    idt.set_handler(PAGE_FAULT_VECTOR, handlers.page_fault, HandlerOptions::plain());
    idt.set_handler(TIMER_VECTOR, handlers.timer, HandlerOptions::plain());
    idt
}

} // verus!
