use ros::gdt::SegmentSelector;
use ros::interrupts::dispatch::{installed, is_fatal, run_events, step, Cpu, CpuEvent, CpuState};
use ros::interrupts::handlers::{
    classify_page_fault, Diagnostic, InterruptFrame, InterruptHandlers, PageFaultCause,
    Resumption,
};
use ros::interrupts::pic::ChainedPics;
use ros::interrupts::{
    init_idt, GateDescriptor, HandlerAddresses, HandlerOptions, InterruptDescriptorTable,
    BREAKPOINT_VECTOR, DOUBLE_FAULT_VECTOR, GENERAL_PROTECTION_VECTOR, IDT_ENTRIES,
    PAGE_FAULT_VECTOR, PIC_1_OFFSET, PIC_2_OFFSET, TIMER_VECTOR,
};
use ros::port::PortWrite;
use x86_64::structures::idt::PageFaultErrorCode;

const FRAME: InterruptFrame =
    InterruptFrame { instruction_pointer: 0xffff_8000_0000_1235, stack_pointer: 0x9000 };

const HANDLERS: HandlerAddresses = HandlerAddresses {
    breakpoint: 0x1000,
    double_fault: 0x2000,
    general_protection_fault: 0x3000,
    page_fault: 0x4000,
    timer: 0x5000,
};

fn byte(port: u16, value: u8) -> PortWrite {
    PortWrite::Byte { port, value }
}

fn gate(handler: u64, options: HandlerOptions) -> GateDescriptor {
    GateDescriptor { handler, selector: SegmentSelector(8), present: true, options }
}

#[test]
fn vectors_are_the_architectural_ones() {
    assert_eq!(BREAKPOINT_VECTOR, 3);
    assert_eq!(DOUBLE_FAULT_VECTOR, 8);
    assert_eq!(GENERAL_PROTECTION_VECTOR, 13);
    assert_eq!(PAGE_FAULT_VECTOR, 14);
    assert_eq!(PIC_1_OFFSET, 32);
    assert_eq!(PIC_2_OFFSET, 40);
    assert_eq!(TIMER_VECTOR, 32);
    assert_eq!(IDT_ENTRIES, 256);
}

#[test]
fn gate_descriptor_is_bit_exact() {
    let descriptor = gate(0x1122_3344_5566_7788, HandlerOptions::plain());
    assert_eq!(descriptor.option_bits(), 0x8e00);
    assert_eq!(descriptor.encode(), (0x5566_8e00_0008_7788, 0x0000_0000_1122_3344));
}

#[test]
fn gate_options_stand_in_their_bits() {
    assert_eq!(gate(0, HandlerOptions::on_stack(0)).option_bits(), 0x8e01);
    assert_eq!(gate(0, HandlerOptions::on_stack(6)).option_bits(), 0x8e07);
    let trap = HandlerOptions { stack_index: None, privilege_level: 0, disable_interrupts: false };
    assert_eq!(gate(0, trap).option_bits(), 0x8f00);
    let user = HandlerOptions { stack_index: None, privilege_level: 3, disable_interrupts: true };
    assert_eq!(gate(0, user).option_bits(), 0xee00);
    assert_eq!(GateDescriptor::missing().option_bits(), 0x0e00);
    assert_eq!(GateDescriptor::missing().encode(), (0x0000_0e00_0000_0000, 0));
}

#[test]
fn handler_options_must_have_an_encoding() {
    assert!(HandlerOptions::plain().is_valid());
    assert!(HandlerOptions::on_stack(6).is_valid());
    assert!(!HandlerOptions::on_stack(7).is_valid());
    let level = HandlerOptions { stack_index: None, privilege_level: 4, disable_interrupts: true };
    assert!(!level.is_valid());
}

#[test]
fn a_new_table_has_no_handler() {
    let idt = InterruptDescriptorTable::new(SegmentSelector(8));
    for vector in 0..=255u8 {
        assert_eq!(idt.entry(vector), GateDescriptor::missing());
    }
    assert_eq!(idt.limit(), 4095);
}

#[test]
fn set_handler_changes_one_vector() {
    let mut idt = InterruptDescriptorTable::new(SegmentSelector(8));
    assert!(idt.set_handler(255, 0xabcd, HandlerOptions::on_stack(2)));
    assert_eq!(idt.entry(255), gate(0xabcd, HandlerOptions::on_stack(2)));
    assert_eq!(idt.entry(254), GateDescriptor::missing());
    assert_eq!(idt.entry(0), GateDescriptor::missing());
    assert!(idt.set_handler(255, 0x1234, HandlerOptions::plain()));
    assert_eq!(idt.entry(255), gate(0x1234, HandlerOptions::plain()));
}

#[test]
fn set_handler_refuses_options_that_have_no_encoding() {
    let mut idt = InterruptDescriptorTable::new(SegmentSelector(8));
    assert!(!idt.set_handler(8, 0xabcd, HandlerOptions::on_stack(7)));
    assert_eq!(idt.entry(8), GateDescriptor::missing());
}

#[test]
fn init_idt_installs_the_five_handlers() {
    let idt = init_idt(SegmentSelector(8), HANDLERS);
    for vector in 0..=255u8 {
        let expected = match vector {
            3 => gate(0x1000, HandlerOptions::plain()),
            8 => gate(0x2000, HandlerOptions::on_stack(0)),
            13 => gate(0x3000, HandlerOptions::plain()),
            14 => gate(0x4000, HandlerOptions::plain()),
            32 => gate(0x5000, HandlerOptions::plain()),
            _ => GateDescriptor::missing(),
        };
        assert_eq!(idt.entry(vector), expected);
        assert_eq!(idt.entry(vector).present, installed(vector));
        assert_eq!(idt.entry(vector).options.stack_index.is_some(), vector == 8);
    }
}

#[test]
fn table_image_holds_two_words_for_each_vector() {
    let idt = init_idt(SegmentSelector(8), HANDLERS);
    let words = idt.to_words();
    assert_eq!(words.len(), 512);
    assert_eq!(words[0], 0x0000_0e00_0000_0000);
    assert_eq!(words[1], 0);
    assert_eq!(words[6], 0x0000_8e00_0008_1000);
    assert_eq!(words[7], 0);
    assert_eq!(words[16], 0x0000_8e01_0008_2000);
    assert_eq!(words[64], 0x0000_8e00_0008_5000);
    for vector in 0..256usize {
        let (low, high) = idt.entry(vector as u8).encode();
        assert_eq!((words[2 * vector], words[2 * vector + 1]), (low, high));
    }
}

#[test]
fn controllers_are_set_up_in_order() {
    let writes = ChainedPics::standard().initialize((0xb8, 0x8e));
    assert_eq!(
        writes,
        vec![
            byte(0x20, 0x11),
            byte(0x80, 0),
            byte(0xa0, 0x11),
            byte(0x80, 0),
            byte(0x21, 32),
            byte(0x80, 0),
            byte(0xa1, 40),
            byte(0x80, 0),
            byte(0x21, 4),
            byte(0x80, 0),
            byte(0xa1, 2),
            byte(0x80, 0),
            byte(0x21, 1),
            byte(0x80, 0),
            byte(0xa1, 1),
            byte(0x80, 0),
            byte(0x21, 0xb8),
            byte(0xa1, 0x8e),
        ]
    );
}

#[test]
fn controllers_answer_for_vectors_32_to_47() {
    let pics = ChainedPics::standard();
    assert_eq!(pics, ChainedPics { primary_offset: 32, secondary_offset: 40 });
    for vector in 0..=255u8 {
        assert_eq!(pics.handles_interrupt(vector), (32..48).contains(&vector));
    }
}

#[test]
fn secondary_is_acknowledged_before_primary() {
    let pics = ChainedPics::standard();
    for vector in 0..=255u8 {
        let expected = match vector {
            32..=39 => vec![byte(0x20, 0x20)],
            40..=47 => vec![byte(0xa0, 0x20), byte(0x20, 0x20)],
            _ => Vec::new(),
        };
        assert_eq!(pics.notify_end_of_interrupt(vector), expected);
    }
}

#[test]
fn controllers_at_the_end_of_the_vector_range() {
    let pics = ChainedPics { primary_offset: 240, secondary_offset: 248 };
    assert!(pics.handles_interrupt(255));
    assert!(!pics.handles_interrupt(0));
    assert_eq!(pics.notify_end_of_interrupt(255), vec![byte(0xa0, 0x20), byte(0x20, 0x20)]);
    assert_eq!(pics.notify_end_of_interrupt(247), vec![byte(0x20, 0x20)]);
    assert_eq!(pics.notify_end_of_interrupt(239), Vec::new());
}

#[test]
fn page_fault_cause_is_read_from_the_error_code() {
    let none = PageFaultCause {
        protection_violation: false,
        caused_by_write: false,
        user_mode: false,
        malformed_table: false,
        instruction_fetch: false,
    };
    assert_eq!(classify_page_fault(0), none);
    assert_eq!(classify_page_fault(1), PageFaultCause { protection_violation: true, ..none });
    assert_eq!(classify_page_fault(2), PageFaultCause { caused_by_write: true, ..none });
    assert_eq!(classify_page_fault(4), PageFaultCause { user_mode: true, ..none });
    assert_eq!(classify_page_fault(8), PageFaultCause { malformed_table: true, ..none });
    assert_eq!(classify_page_fault(16), PageFaultCause { instruction_fetch: true, ..none });
    assert_eq!(classify_page_fault(0xffff_ffff_ffff_ffe0), none);
    assert_eq!(
        classify_page_fault(0b10011),
        PageFaultCause {
            protection_violation: true,
            caused_by_write: true,
            instruction_fetch: true,
            ..none
        }
    );
}

#[test]
fn page_fault_cause_agrees_with_the_x86_64_crate() {
    for code in 0..32u64 {
        let ours = classify_page_fault(code);
        let theirs = PageFaultErrorCode::from_bits_truncate(code);
        assert_eq!(
            ours.protection_violation,
            theirs.contains(PageFaultErrorCode::PROTECTION_VIOLATION)
        );
        assert_eq!(ours.caused_by_write, theirs.contains(PageFaultErrorCode::CAUSED_BY_WRITE));
        assert_eq!(ours.user_mode, theirs.contains(PageFaultErrorCode::USER_MODE));
        assert_eq!(ours.malformed_table, theirs.contains(PageFaultErrorCode::MALFORMED_TABLE));
        assert_eq!(
            ours.instruction_fetch,
            theirs.contains(PageFaultErrorCode::INSTRUCTION_FETCH)
        );
    }
}

#[test]
fn breakpoint_is_recorded_and_execution_goes_on() {
    let handlers = InterruptHandlers::new();
    let response = handlers.breakpoint(FRAME);
    assert_eq!(response.diagnostic, Some(Diagnostic::Breakpoint { frame: FRAME }));
    assert!(response.acknowledge.is_empty());
    assert_eq!(
        response.resumption,
        Resumption::Resume { instruction_pointer: 0xffff_8000_0000_1235 }
    );
    assert!(!is_fatal(BREAKPOINT_VECTOR));
    let entered = step(CpuState::Running, CpuEvent::Raised(BREAKPOINT_VECTOR));
    assert_eq!(entered, CpuState::Handling { vector: 3, dedicated_stack: false });
    assert_eq!(step(entered, CpuEvent::Completed), CpuState::Running);
}

#[test]
fn page_fault_is_recorded_and_fatal() {
    let handlers = InterruptHandlers::new();
    let response = handlers.page_fault(FRAME, 2, 0xdead_beaf);
    assert_eq!(
        response.diagnostic,
        Some(Diagnostic::PageFault {
            address: 0xdead_beaf,
            cause: classify_page_fault(2),
            frame: FRAME,
        })
    );
    assert!(response.acknowledge.is_empty());
    assert_eq!(response.resumption, Resumption::Halt);
    let events = vec![CpuEvent::Raised(PAGE_FAULT_VECTOR), CpuEvent::Completed];
    assert_eq!(run_events(CpuState::Running, &events), CpuState::Halted);
}

#[test]
fn general_protection_fault_is_recorded_and_fatal() {
    let handlers = InterruptHandlers::new();
    let response = handlers.general_protection_fault(FRAME, 0x18);
    assert_eq!(
        response.diagnostic,
        Some(Diagnostic::GeneralProtectionFault { error_code: 0x18, frame: FRAME })
    );
    assert!(response.acknowledge.is_empty());
    assert_eq!(response.resumption, Resumption::Halt);
    let events = vec![CpuEvent::Raised(GENERAL_PROTECTION_VECTOR), CpuEvent::Completed];
    assert_eq!(run_events(CpuState::Running, &events), CpuState::Halted);
}

#[test]
fn double_fault_is_recorded_and_fatal() {
    let handlers = InterruptHandlers::new();
    let response = handlers.double_fault(FRAME);
    assert_eq!(response.diagnostic, Some(Diagnostic::DoubleFault { frame: FRAME }));
    assert!(response.acknowledge.is_empty());
    assert_eq!(response.resumption, Resumption::Halt);
    assert!(is_fatal(DOUBLE_FAULT_VECTOR));
}

#[test]
fn every_timer_interrupt_counts_once_and_is_acknowledged() {
    let mut handlers = InterruptHandlers::new();
    let mut state = CpuState::Running;
    assert_eq!(handlers.ticks(), 0);
    for n in 1..=1000u64 {
        state = step(state, CpuEvent::Raised(TIMER_VECTOR));
        assert_eq!(state, CpuState::Handling { vector: 32, dedicated_stack: false });
        let response = handlers.timer(FRAME);
        assert_eq!(handlers.ticks(), n);
        assert_eq!(response.diagnostic, None);
        assert_eq!(response.acknowledge, vec![byte(0x20, 0x20)]);
        assert_eq!(
            response.resumption,
            Resumption::Resume { instruction_pointer: FRAME.instruction_pointer }
        );
        state = step(state, CpuEvent::Completed);
        assert_eq!(state, CpuState::Running);
    }
}

#[test]
fn stack_overflow_enters_the_double_fault_handler_once() {
    let events = vec![
        CpuEvent::Raised(TIMER_VECTOR),
        CpuEvent::Completed,
        CpuEvent::DeliveryFailed,
        CpuEvent::Raised(PAGE_FAULT_VECTOR),
        CpuEvent::Raised(TIMER_VECTOR),
        CpuEvent::Completed,
        CpuEvent::DeliveryFailed,
        CpuEvent::Raised(DOUBLE_FAULT_VECTOR),
        CpuEvent::Completed,
    ];
    let double_fault = CpuState::Handling { vector: 8, dedicated_stack: true };
    let mut state = CpuState::Running;
    let mut entries = 0;
    let mut trace = Vec::new();
    for event in &events {
        let next = step(state, *event);
        if next == double_fault && state != next {
            entries += 1;
        }
        state = next;
        trace.push(state);
    }
    assert_eq!(entries, 1);
    assert_eq!(
        trace,
        vec![
            CpuState::Handling { vector: 32, dedicated_stack: false },
            CpuState::Running,
            double_fault,
            double_fault,
            double_fault,
            CpuState::Halted,
            CpuState::Halted,
            CpuState::Halted,
            CpuState::Halted,
        ]
    );
    assert_eq!(run_events(CpuState::Running, &events), CpuState::Halted);
}

#[test]
fn a_fault_in_a_handler_enters_the_double_fault_handler() {
    let in_timer = CpuState::Handling { vector: 32, dedicated_stack: false };
    assert_eq!(
        step(in_timer, CpuEvent::DeliveryFailed),
        CpuState::Handling { vector: 8, dedicated_stack: true }
    );
    let in_double_fault = CpuState::Handling { vector: 8, dedicated_stack: true };
    assert_eq!(step(in_double_fault, CpuEvent::DeliveryFailed), CpuState::Halted);
}

#[test]
fn a_vector_without_handler_ends_in_the_double_fault_handler() {
    for vector in [0u8, 6, 11, 33, 255] {
        assert!(!installed(vector));
        assert_eq!(
            step(CpuState::Running, CpuEvent::Raised(vector)),
            CpuState::Handling { vector: 8, dedicated_stack: true }
        );
    }
    assert_eq!(
        step(CpuState::Running, CpuEvent::Raised(8)),
        CpuState::Handling { vector: 8, dedicated_stack: true }
    );
}

#[test]
fn nothing_leaves_the_halted_state() {
    for event in [
        CpuEvent::Raised(3),
        CpuEvent::Raised(8),
        CpuEvent::Raised(32),
        CpuEvent::DeliveryFailed,
        CpuEvent::Completed,
    ] {
        assert_eq!(step(CpuState::Halted, event), CpuState::Halted);
    }
    assert_eq!(run_events(CpuState::Halted, &Vec::new()), CpuState::Halted);
}

#[test]
fn interrupts_wait_while_a_handler_runs() {
    let in_breakpoint = CpuState::Handling { vector: 3, dedicated_stack: false };
    assert_eq!(step(in_breakpoint, CpuEvent::Raised(TIMER_VECTOR)), in_breakpoint);
    assert_eq!(step(CpuState::Running, CpuEvent::Completed), CpuState::Running);
}

#[test]
fn hardware_interrupts_wait_while_the_lock_is_held() {
    let mut cpu = Cpu::new();
    assert!(!cpu.deliver(CpuEvent::Raised(TIMER_VECTOR)));
    assert!(cpu.enable_interrupts());
    assert!(cpu.lock());
    assert!(!cpu.lock());
    assert!(!cpu.enable_interrupts());
    assert!(!cpu.deliver(CpuEvent::Raised(TIMER_VECTOR)));
    assert!(!cpu.deliver(CpuEvent::Raised(47)));
    cpu.unlock();
    assert!(cpu.deliver(CpuEvent::Raised(TIMER_VECTOR)));
    assert!(cpu.lock());
    cpu.unlock();
    assert!(!cpu.deliver(CpuEvent::Raised(TIMER_VECTOR)));
    assert!(cpu.deliver(CpuEvent::Completed));
    assert!(cpu.deliver(CpuEvent::Raised(TIMER_VECTOR)));
}

#[test]
fn exceptions_are_taken_while_interrupts_are_masked() {
    let mut cpu = Cpu::new();
    assert!(cpu.lock());
    assert!(cpu.deliver(CpuEvent::Raised(BREAKPOINT_VECTOR)));
    assert!(cpu.deliver(CpuEvent::Completed));
    assert!(!cpu.deliver(CpuEvent::Raised(TIMER_VECTOR)));
    cpu.unlock();
    assert!(!cpu.deliver(CpuEvent::Raised(TIMER_VECTOR)));
    assert!(cpu.enable_interrupts());
    assert!(cpu.deliver(CpuEvent::Raised(PAGE_FAULT_VECTOR)));
    assert!(!cpu.enable_interrupts());
    assert!(cpu.deliver(CpuEvent::Completed));
    assert!(!cpu.enable_interrupts());
    assert!(!cpu.deliver(CpuEvent::Raised(TIMER_VECTOR)));
}

#[test]
fn dispatch_runs_the_handler_of_the_vector() {
    let mut handlers = InterruptHandlers::new();
    for vector in 0..=255u8 {
        let before = handlers.ticks();
        let response = handlers.dispatch(vector, FRAME, 0x12, 0xdead_0000);
        let (diagnostic, ticks) = match vector {
            3 => (Some(Diagnostic::Breakpoint { frame: FRAME }), before),
            13 => {
                (Some(Diagnostic::GeneralProtectionFault { error_code: 0x12, frame: FRAME }), before)
            }
            14 => (
                Some(Diagnostic::PageFault {
                    address: 0xdead_0000,
                    cause: classify_page_fault(0x12),
                    frame: FRAME,
                }),
                before,
            ),
            32 => (None, before + 1),
            _ => (Some(Diagnostic::DoubleFault { frame: FRAME }), before),
        };
        assert_eq!(response.diagnostic, diagnostic);
        assert_eq!(handlers.ticks(), ticks);
        assert_eq!(response.acknowledge.is_empty(), vector != 32);
        assert_eq!(response.resumption == Resumption::Halt, is_fatal(vector));
    }
    assert_eq!(handlers.ticks(), 1);
}
