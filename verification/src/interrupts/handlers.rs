//! What each handler decides: what to record, what to acknowledge, and
//! whether execution goes on.

use vstd::prelude::*;
use crate::interrupts::{
    BREAKPOINT_VECTOR, GENERAL_PROTECTION_VECTOR, PAGE_FAULT_VECTOR, TIMER_VECTOR,
};
use crate::interrupts::pic::ChainedPics;
use crate::port::PortWrite;

verus! {

/// Error-code bit 0: the fault was a protection violation on a present page,
/// not an access to a page that is not present.
pub const PF_PROTECTION_VIOLATION: u64 = 0x1;

/// Error-code bit 1: the access was a write.
pub const PF_CAUSED_BY_WRITE: u64 = 0x2;

/// Error-code bit 2: the access came from user mode.
pub const PF_USER_MODE: u64 = 0x4;

/// Error-code bit 3: a reserved bit was set in a page-table entry.
pub const PF_MALFORMED_TABLE: u64 = 0x8;

/// Error-code bit 4: the access was an instruction fetch.
pub const PF_INSTRUCTION_FETCH: u64 = 0x10;

/// Why a page fault was raised, as its error code tells.
#[derive(Debug, Clone, Copy, PartialEq, Eq, Structural)]
pub struct PageFaultCause {
    pub protection_violation: bool,
    pub caused_by_write: bool,
    pub user_mode: bool,
    pub malformed_table: bool,
    pub instruction_fetch: bool,
}

/// The cause that the bits of `error_code` spell.
pub open spec fn page_fault_cause(error_code: u64) -> PageFaultCause {
    PageFaultCause {
        protection_violation: error_code & PF_PROTECTION_VIOLATION != 0,
        caused_by_write: error_code & PF_CAUSED_BY_WRITE != 0,
        user_mode: error_code & PF_USER_MODE != 0,
        malformed_table: error_code & PF_MALFORMED_TABLE != 0,
        instruction_fetch: error_code & PF_INSTRUCTION_FETCH != 0,
    }
}

/// Reads the cause of a page fault off its error code.
pub fn classify_page_fault(error_code: u64) -> (cause: PageFaultCause)
    ensures
        cause == page_fault_cause(error_code),
{
    PageFaultCause {
        protection_violation: error_code & PF_PROTECTION_VIOLATION != 0,
        caused_by_write: error_code & PF_CAUSED_BY_WRITE != 0,
        user_mode: error_code & PF_USER_MODE != 0,
        malformed_table: error_code & PF_MALFORMED_TABLE != 0,
        instruction_fetch: error_code & PF_INSTRUCTION_FETCH != 0,
    }
}

/// The error code is the sum of the bits of its cause, as far as the five
/// low bits go.
pub proof fn lemma_page_fault_bits(error_code: u64)
    ensures
        error_code & 0x1f == (if page_fault_cause(error_code).protection_violation {
            1u64
        } else {
            0
        }) + (if page_fault_cause(error_code).caused_by_write {
            2u64
        } else {
            0
        }) + (if page_fault_cause(error_code).user_mode {
            4u64
        } else {
            0
        }) + (if page_fault_cause(error_code).malformed_table {
            8u64
        } else {
            0
        }) + (if page_fault_cause(error_code).instruction_fetch {
            16u64
        } else {
            0
        }),
{
    assert(error_code & 0x1f == (if error_code & 0x1 != 0 {
        1u64
    } else {
        0
    }) + (if error_code & 0x2 != 0 {
        2u64
    } else {
        0
    }) + (if error_code & 0x4 != 0 {
        4u64
    } else {
        0
    }) + (if error_code & 0x8 != 0 {
        8u64
    } else {
        0
    }) + (if error_code & 0x10 != 0 {
        16u64
    } else {
        0
    })) by (bit_vector);
}

/// What the processor saved when it entered the handler.
#[derive(Debug, Clone, Copy, PartialEq, Eq, Structural)]
pub struct InterruptFrame {
    /// Where execution goes on if the handler returns: for a breakpoint,
    /// the instruction after it.
    pub instruction_pointer: u64,
    pub stack_pointer: u64,
}

/// What a handler hands to the diagnostic console.
#[derive(Debug, Clone, Copy, PartialEq, Eq, Structural)]
pub enum Diagnostic {
    Breakpoint { frame: InterruptFrame },
    PageFault { address: u64, cause: PageFaultCause, frame: InterruptFrame },
    GeneralProtectionFault { error_code: u64, frame: InterruptFrame },
    DoubleFault { frame: InterruptFrame },
}

/// How a handler ends.
#[derive(Debug, Clone, Copy, PartialEq, Eq, Structural)]
pub enum Resumption {
    /// Return from the interrupt: execution goes on at this address.
    Resume { instruction_pointer: u64 },
    /// Halt the processor for good.
    Halt,
}

/// What a handler decided.
pub struct Response {
    /// What to record, if anything.
    pub diagnostic: Option<Diagnostic>,
    /// The writes that acknowledge the interrupt, in order.
    pub acknowledge: Vec<PortWrite>,
    /// How the handler ends.
    pub resumption: Resumption,
}

/// The tick count after one more timer interrupt; it wraps around at the
/// end of the 64-bit range.
pub open spec fn next_tick(ticks: u64) -> u64 {
    if ticks == u64::MAX {
        0
    } else {
        (ticks + 1) as u64
    }
}

/// The tick count after `n` more timer interrupts.
pub open spec fn ticks_after(ticks: u64, n: nat) -> u64
    decreases n,
{
    if n == 0 {
        ticks
    } else {
        ticks_after(next_tick(ticks), (n - 1) as nat)
    }
}

/// `n` timer interrupts raise the tick count by exactly `n`, modulo the
/// 64-bit range: none is missed and none counts twice.
pub proof fn lemma_ticks_after(ticks: u64, n: nat)
    ensures
        ticks_after(ticks, n) == (ticks + n) % 0x1_0000_0000_0000_0000,
    decreases n,
{
    if n > 0 {
        lemma_ticks_after(next_tick(ticks), (n - 1) as nat);
        if ticks == u64::MAX {
            vstd::arithmetic::div_mod::lemma_mod_multiples_vanish(
                1,
                (n - 1) as int,
                0x1_0000_0000_0000_0000,
            );
        }
    }
}

/// The state the handlers share: the interrupt controllers and the count of
/// timer ticks.
pub struct InterruptHandlers {
    pics: ChainedPics,
    ticks: u64,
}

impl InterruptHandlers {
    /// The interrupt controllers whose lines are acknowledged.
    pub closed spec fn pics(&self) -> ChainedPics {
        self.pics
    }

    /// Number of timer interrupts handled so far, modulo the 64-bit range.
    pub closed spec fn spec_ticks(&self) -> u64 {
        self.ticks
    }

    /// Handlers for the standard controller setup, with the tick count at
    /// zero.
    pub fn new() -> (handlers: InterruptHandlers)
        ensures
            handlers.pics() == ChainedPics::standard(),
            handlers.spec_ticks() == 0,
    {
        InterruptHandlers { pics: ChainedPics::standard(), ticks: 0 }
    }

    #[verifier::when_used_as_spec(spec_ticks)]
    pub fn ticks(&self) -> (ticks: u64)
        ensures
            ticks == self.spec_ticks(),
    {
        self.ticks
    }

    /// Breakpoint: recorded, and execution goes on at the instruction after
    /// the breakpoint.
    pub fn breakpoint(&self, frame: InterruptFrame) -> (response: Response)
        ensures
            response.diagnostic == Some(Diagnostic::Breakpoint { frame }),
            response.acknowledge@ == Seq::<PortWrite>::empty(),
            response.resumption == (Resumption::Resume {
                instruction_pointer: frame.instruction_pointer,
            }),
    {
        Response {
            diagnostic: Some(Diagnostic::Breakpoint { frame }),
            acknowledge: Vec::new(),
            resumption: Resumption::Resume { instruction_pointer: frame.instruction_pointer },
        }
    }

    /// Page fault: the faulting address and the cause are recorded and the
    /// processor halts; no page is ever brought in on demand.
    pub fn page_fault(&self, frame: InterruptFrame, error_code: u64, address: u64) -> (response:
        Response)
        ensures
            response.diagnostic == Some(
                Diagnostic::PageFault { address, cause: page_fault_cause(error_code), frame },
            ),
            response.acknowledge@ == Seq::<PortWrite>::empty(),
            response.resumption == Resumption::Halt,
    {
        Response {
            diagnostic: Some(
                Diagnostic::PageFault { address, cause: classify_page_fault(error_code), frame },
            ),
            acknowledge: Vec::new(),
            resumption: Resumption::Halt,
        }
    }

    /// General-protection fault: recorded, and the processor halts.
    pub fn general_protection_fault(&self, frame: InterruptFrame, error_code: u64) -> (response:
        Response)
        ensures
            response.diagnostic == Some(Diagnostic::GeneralProtectionFault { error_code, frame }),
            response.acknowledge@ == Seq::<PortWrite>::empty(),
            response.resumption == Resumption::Halt,
    {
        Response {
            diagnostic: Some(Diagnostic::GeneralProtectionFault { error_code, frame }),
            acknowledge: Vec::new(),
            resumption: Resumption::Halt,
        }
    }

    /// Double fault: recorded, and the processor halts; nothing is
    /// recovered.
    pub fn double_fault(&self, frame: InterruptFrame) -> (response: Response)
        ensures
            response.diagnostic == Some(Diagnostic::DoubleFault { frame }),
            response.acknowledge@ == Seq::<PortWrite>::empty(),
            response.resumption == Resumption::Halt,
    {
        Response {
            diagnostic: Some(Diagnostic::DoubleFault { frame }),
            acknowledge: Vec::new(),
            resumption: Resumption::Halt,
        }
    }

    /// Timer interrupt: the tick count goes up by one, the interrupt is
    /// acknowledged, and execution goes on where it was interrupted.
    pub fn timer(&mut self, frame: InterruptFrame) -> (response: Response)
        ensures
            final(self).pics() == old(self).pics(),
            final(self).spec_ticks() == next_tick(old(self).spec_ticks()),
            response.diagnostic is None,
            response.acknowledge@ == old(self).pics().spec_end_of_interrupt(TIMER_VECTOR),
            response.resumption == (Resumption::Resume {
                instruction_pointer: frame.instruction_pointer,
            }),
    {
        self.ticks = if self.ticks == u64::MAX {
            0
        } else {
            self.ticks + 1
        };
        Response {
            diagnostic: None,
            acknowledge: self.pics.notify_end_of_interrupt(TIMER_VECTOR),
            resumption: Resumption::Resume { instruction_pointer: frame.instruction_pointer },
        }
    }

    /// Runs the handler of `vector`. A vector without a handler of its own
    /// ends in the double-fault handler, as does the double fault itself.
    /// `error_code` and `address` are what the processor reports with the
    /// exception; handlers that have no use for them pass them by.
    pub fn dispatch(
        &mut self,
        vector: u8,
        frame: InterruptFrame,
        error_code: u64,
        address: u64,
    ) -> (response: Response)
        ensures
            final(self).pics() == old(self).pics(),
            final(self).spec_ticks() == if vector == TIMER_VECTOR {
                next_tick(old(self).spec_ticks())
            } else {
                old(self).spec_ticks()
            },
            response.diagnostic == if vector == BREAKPOINT_VECTOR {
                Some(Diagnostic::Breakpoint { frame })
            } else if vector == PAGE_FAULT_VECTOR {
                Some(Diagnostic::PageFault { address, cause: page_fault_cause(error_code), frame })
            } else if vector == GENERAL_PROTECTION_VECTOR {
                Some(Diagnostic::GeneralProtectionFault { error_code, frame })
            } else if vector == TIMER_VECTOR {
                None
            } else {
                Some(Diagnostic::DoubleFault { frame })
            },
            response.acknowledge@ == if vector == TIMER_VECTOR {
                old(self).pics().spec_end_of_interrupt(TIMER_VECTOR)
            } else {
                Seq::<PortWrite>::empty()
            },
            response.resumption == if vector == BREAKPOINT_VECTOR || vector == TIMER_VECTOR {
                Resumption::Resume { instruction_pointer: frame.instruction_pointer }
            } else {
                Resumption::Halt
            },
    {
        if vector == BREAKPOINT_VECTOR {
            self.breakpoint(frame)
        } else if vector == PAGE_FAULT_VECTOR {
            self.page_fault(frame, error_code, address)
        } else if vector == GENERAL_PROTECTION_VECTOR {
            self.general_protection_fault(frame, error_code)
        } else if vector == TIMER_VECTOR {
            self.timer(frame)
        } else {
            self.double_fault(frame)
        }
    }
}

} // verus!
