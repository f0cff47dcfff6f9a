//! Hardware-facing core of a freestanding, single-core x86_64 kernel.
//!
//! Every decision the kernel takes about descriptor tables, interrupt
//! routing, physical frames, page tables and the heap is computed here on
//! plain values; privileged instructions and port I/O are left to the caller.

use vstd::prelude::*;
use vstd::string::*;

pub mod allocator;
pub mod gdt;
pub mod interrupts;
pub mod memory;
pub mod port;

use crate::gdt::{
    tss_descriptor_high, tss_descriptor_low, LoadStep, SegmentSelector, SegmentTables,
    DOUBLE_FAULT_IST_INDEX, DOUBLE_FAULT_STACK_SIZE, KERNEL_CODE64, TSS_SIZE,
};
use crate::interrupts::pic::ChainedPics;
use crate::interrupts::{
    has_handler, init_idt, HandlerAddresses, HandlerOptions, InterruptDescriptorTable,
    BREAKPOINT_VECTOR, DOUBLE_FAULT_VECTOR, GENERAL_PROTECTION_VECTOR, IDT_ENTRIES,
    PAGE_FAULT_VECTOR, TIMER_VECTOR,
};
use crate::port::PortWrite;

verus! {

/// I/O port of the emulator's debug-exit device.
pub const QEMU_EXIT_PORT: u16 = 0xf4;

/// Outcome reported to the emulator when a test run ends.
#[derive(Debug, Clone, Copy, PartialEq, Eq, Structural)]
pub enum QemuExitCode {
    Success,
    Failed,
}

impl QemuExitCode {
    /// The 4-byte value the debug-exit device expects for this outcome.
    pub open spec fn spec_code(self) -> u32 {
        match self {
            QemuExitCode::Success => 0x10,
            QemuExitCode::Failed => 0x11,
        }
    }

    #[verifier::when_used_as_spec(spec_code)]
    pub fn code(self) -> (value: u32)
        ensures
            value == self.spec_code(),
    {
        match self {
            QemuExitCode::Success => 0x10,
            QemuExitCode::Failed => 0x11,
        }
    }
}

/// The port write that ends emulation with `exit_code`: its four-byte value
/// to the debug-exit device.
pub fn exit_qemu(exit_code: QemuExitCode) -> (write: PortWrite)
    ensures
        write == (PortWrite::Dword { port: QEMU_EXIT_PORT, value: exit_code.spec_code() }),
{
    PortWrite::Dword { port: QEMU_EXIT_PORT, value: exit_code.code() }
}

/// One step of the kernel's start-up, in the order in which the steps are
/// taken.
#[derive(Debug, Clone, Copy, PartialEq, Eq, Structural)]
pub enum BootStep {
    /// Bring the segment tables into force, as their load order says.
    LoadSegments,
    /// Load the interrupt descriptor table.
    LoadInterruptTable,
    /// Set up the interrupt controllers.
    InitializeControllers,
    /// Unmask hardware interrupts.
    EnableInterrupts,
}

/// What `init` builds: the tables to load, the writes that set up the
/// interrupt controllers, and the order of the steps.
pub struct Boot {
    pub segments: SegmentTables,
    pub idt: InterruptDescriptorTable,
    pub controller_writes: Vec<PortWrite>,
    pub steps: [BootStep; 4],
}

/// Prepares the start-up of the kernel: the segment tables with the
/// double-fault stack, the interrupt descriptor table whose handlers run in
/// the kernel's code segment, and the set-up of the interrupt controllers.
/// Interrupts are unmasked last, when every table is in force.
///
/// `tss_base` is the address at which the task state segment will lie,
/// `stack_start` the lowest address of the double-fault stack, and
/// `saved_masks` the interrupt masks read from the controllers.
pub fn init(tss_base: u64, stack_start: u64, handlers: HandlerAddresses, saved_masks: (u8, u8)) -> (boot:
    Boot)
    requires
        stack_start + DOUBLE_FAULT_STACK_SIZE <= u64::MAX,
    ensures
        boot.segments.gdt.wf(),
        boot.segments.gdt@ == seq![
            0u64,
            KERNEL_CODE64,
            tss_descriptor_low(tss_base),
            tss_descriptor_high(tss_base),
        ],
        boot.segments.selectors.code_selector == SegmentSelector(8),
        boot.segments.selectors.tss_selector == SegmentSelector(16),
        boot.segments.tss.interrupt_stack_table@ == seq![
            (stack_start + DOUBLE_FAULT_STACK_SIZE) as u64,
            0,
            0,
            0,
            0,
            0,
            0,
        ],
        boot.segments.tss.privilege_stack_table@ == seq![0u64, 0, 0],
        boot.segments.tss.iomap_base == TSS_SIZE,
        boot.segments.load_order@ == seq![
            LoadStep::LoadGdt,
            LoadStep::SetCodeSegment(SegmentSelector(8)),
            LoadStep::LoadTaskRegister(SegmentSelector(16)),
        ],
        boot.idt.wf(),
        boot.idt.code_selector() == SegmentSelector(8),
        boot.idt@.len() == IDT_ENTRIES,
        boot.idt@[BREAKPOINT_VECTOR as int] == boot.idt.gate(
            handlers.breakpoint,
            HandlerOptions::plain(),
        ),
        boot.idt@[DOUBLE_FAULT_VECTOR as int] == boot.idt.gate(
            handlers.double_fault,
            HandlerOptions::on_stack(DOUBLE_FAULT_IST_INDEX),
        ),
        boot.idt@[GENERAL_PROTECTION_VECTOR as int] == boot.idt.gate(
            handlers.general_protection_fault,
            HandlerOptions::plain(),
        ),
        boot.idt@[PAGE_FAULT_VECTOR as int] == boot.idt.gate(
            handlers.page_fault,
            HandlerOptions::plain(),
        ),
        boot.idt@[TIMER_VECTOR as int] == boot.idt.gate(handlers.timer, HandlerOptions::plain()),
        forall|v: int|
            0 <= v < IDT_ENTRIES ==> ((#[trigger] boot.idt@[v]).present <==> has_handler(v)),
        forall|v: int|
            0 <= v < IDT_ENTRIES ==> ((#[trigger] boot.idt@[v]).options.stack_index is Some <==> v
                == DOUBLE_FAULT_VECTOR),
        boot.controller_writes@ == ChainedPics::standard().spec_initialize(saved_masks),
        boot.steps@ == seq![
            BootStep::LoadSegments,
            BootStep::LoadInterruptTable,
            BootStep::InitializeControllers,
            BootStep::EnableInterrupts,
        ],
{
    let segments = crate::gdt::init(tss_base, stack_start);
    let idt = init_idt(segments.selectors.code_selector, handlers);
    let controller_writes = ChainedPics::standard().initialize(saved_masks);
    let steps = [
        BootStep::LoadSegments,
        BootStep::LoadInterruptTable,
        BootStep::InitializeControllers,
        BootStep::EnableInterrupts,
    ];
    proof {
        assert(steps@ =~= seq![
            BootStep::LoadSegments,
            BootStep::LoadInterruptTable,
            BootStep::InitializeControllers,
            BootStep::EnableInterrupts,
        ]);
    }
    Boot { segments, idt, controller_writes, steps }
}

/// A test case the runner can execute; `run` reports whether it passed.
pub trait Testable {
    fn run(&self) -> bool;
}

/// What a test run did: how many cases there were and how many passed
/// before the run ended.
#[derive(Debug, Clone, Copy, PartialEq, Eq, Structural)]
pub struct TestSummary {
    pub total: usize,
    pub passed: usize,
}

impl TestSummary {
    pub open spec fn spec_exit_code(self) -> QemuExitCode {
        if self.passed == self.total {
            QemuExitCode::Success
        } else {
            QemuExitCode::Failed
        }
    }

    /// The summary of a run of `total` cases before the first case ran.
    pub fn start(total: usize) -> (summary: TestSummary)
        ensures
            summary == (TestSummary { total, passed: 0 }),
    {
        TestSummary { total, passed: 0 }
    }

    /// Takes note of how the next case ended and says whether the run goes
    /// on: it does after a case that passed, as long as cases are left, and
    /// ends with the first case that failed. A run in which every case has
    /// passed takes no further note.
    pub fn record(&mut self, outcome: bool) -> (go_on: bool)
        ensures
            final(self).total == old(self).total,
            final(self).passed == if outcome && old(self).passed < old(self).total {
                old(self).passed + 1
            } else {
                old(self).passed as int
            },
            go_on == (outcome && final(self).passed < final(self).total),
    {
        if outcome && self.passed < self.total {
            self.passed = self.passed + 1;
        }
        outcome && self.passed < self.total
    }

    /// `Success` exactly when every case passed.
    #[verifier::when_used_as_spec(spec_exit_code)]
    pub fn exit_code(self) -> (code: QemuExitCode)
        ensures
            code == self.spec_exit_code(),
    {
        if self.passed == self.total {
            QemuExitCode::Success
        } else {
            QemuExitCode::Failed
        }
    }
}

/// Runs the cases in order and stops at the first one that fails.
pub fn test_runner(tests: &[&dyn Testable]) -> (summary: TestSummary)
    ensures
        summary.total == tests@.len(),
        summary.passed <= summary.total,
{
    let mut summary = TestSummary::start(tests.len());
    let mut go_on = summary.total > 0;
    while go_on
        invariant
            summary.total == tests@.len(),
            summary.passed <= summary.total,
            go_on ==> summary.passed < summary.total,
        decreases
                summary.total - summary.passed + if go_on {
                    1int
                } else {
                    0int
                },
    {
        let outcome = tests[summary.passed].run();
        go_on = summary.record(outcome);
    }
    summary
}

/// Text shown in green on an ANSI terminal.
pub struct Green(pub &'static str);

/// Text shown in red on an ANSI terminal.
pub struct Red(pub &'static str);

impl Green {
    /// The text between the escape sequences for green and for reset.
    pub fn render(&self) -> (out: String)
        ensures
            out@ == "\x1B[32m"@ + self.0@ + "\x1B[0m"@,
    {
        String::from_str("\x1B[32m").concat(self.0).concat("\x1B[0m")
    }
}

impl Red {
    /// The text between the escape sequences for red and for reset.
    pub fn render(&self) -> (out: String)
        ensures
            out@ == "\x1B[31m"@ + self.0@ + "\x1B[0m"@,
    {
        String::from_str("\x1B[31m").concat(self.0).concat("\x1B[0m")
    }
}

/// What the kernel does when a test panics.
pub struct PanicReport {
    /// The text for the console: `[failed]` in red, then the error.
    pub text: String,
    /// The write that ends emulation with `Failed`.
    pub exit: PortWrite,
}

/// What to show and to write when a test panics with `message`. The caller
/// halts after it.
pub fn test_panic_handler(message: &str) -> (report: PanicReport)
    ensures
        report.text@ == "\x1B[31m"@ + "[failed]"@ + "\x1B[0m"@ + "\n\n"@ + "Error: "@ + message@
            + "\n\n"@,
        report.exit == (PortWrite::Dword {
            port: QEMU_EXIT_PORT,
            value: QemuExitCode::Failed.spec_code(),
        }),
{
    let text = Red("[failed]").render().concat("\n\n").concat("Error: ").concat(message).concat(
        "\n\n",
    );
    PanicReport { text, exit: exit_qemu(QemuExitCode::Failed) }
}

} // verus!
