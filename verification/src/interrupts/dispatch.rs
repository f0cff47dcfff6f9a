//! The processor as the kernel sees it: running, in a handler, or halted.

use vstd::prelude::*;
use crate::interrupts::{
    has_handler, BREAKPOINT_VECTOR, DOUBLE_FAULT_VECTOR, GENERAL_PROTECTION_VECTOR,
    PAGE_FAULT_VECTOR, PIC_1_OFFSET, TIMER_VECTOR,
};

verus! {

/// What the processor is doing.
#[derive(Debug, Clone, Copy, PartialEq, Eq, Structural)]
pub enum CpuState {
    /// Running the kernel's ordinary code.
    Running,
    /// Running the handler of `vector`; `dedicated_stack` says whether the
    /// processor switched to a stack of the interrupt stack table for it.
    Handling { vector: u8, dedicated_stack: bool },
    /// Halted for good.
    Halted,
}

/// What happens to the processor.
#[derive(Debug, Clone, Copy, PartialEq, Eq, Structural)]
pub enum CpuEvent {
    /// An exception or a hardware interrupt with this vector is raised.
    Raised(u8),
    /// The processor could not deliver an exception to its handler, as when
    /// the stack has overflowed.
    DeliveryFailed,
    /// The running handler has done its work.
    Completed,
}

/// Whether the handler of `vector` ends in a halt: every fault is fatal,
/// the breakpoint and the timer are not.
pub open spec fn spec_is_fatal(vector: u8) -> bool {
    vector != BREAKPOINT_VECTOR && vector != TIMER_VECTOR
}

/// Whether the handler of `vector` ends in a halt.
#[verifier::when_used_as_spec(spec_is_fatal)]
pub fn is_fatal(vector: u8) -> (fatal: bool)
    ensures
        fatal == spec_is_fatal(vector),
{
    vector != BREAKPOINT_VECTOR && vector != TIMER_VECTOR
}

pub open spec fn spec_installed(vector: u8) -> bool {
    has_handler(vector as int)
}

/// Whether the kernel has a handler for `vector`.
#[verifier::when_used_as_spec(spec_installed)]
pub fn installed(vector: u8) -> (yes: bool)
    ensures
        yes == spec_installed(vector),
{
    vector == BREAKPOINT_VECTOR || vector == DOUBLE_FAULT_VECTOR || vector
        == GENERAL_PROTECTION_VECTOR || vector == PAGE_FAULT_VECTOR || vector == TIMER_VECTOR
}

/// The double-fault handler on its dedicated stack.
pub open spec fn double_fault_state() -> CpuState {
    CpuState::Handling { vector: DOUBLE_FAULT_VECTOR, dedicated_stack: true }
}

/// The state after `event` happens in `state`.
///
/// A vector raised while the kernel runs enters its handler, the double
/// fault on its dedicated stack; a vector without a handler, and an
/// exception that cannot be delivered, enter the double-fault handler. A
/// handler that is done returns to the kernel's code unless its vector is
/// fatal, in which case the processor halts. While a handler runs, interrupts
/// are masked, so a raised vector waits. A delivery that fails during the
/// double-fault handler itself halts the processor. Nothing leaves the
/// halted state.
pub open spec fn spec_step(state: CpuState, event: CpuEvent) -> CpuState {
    match state {
        CpuState::Halted => CpuState::Halted,
        CpuState::Running => match event {
            CpuEvent::Raised(vector) => if spec_installed(vector) && vector
                != DOUBLE_FAULT_VECTOR {
                CpuState::Handling { vector, dedicated_stack: false }
            } else {
                double_fault_state()
            },
            CpuEvent::DeliveryFailed => double_fault_state(),
            CpuEvent::Completed => CpuState::Running,
        },
        CpuState::Handling { vector, dedicated_stack } => match event {
            CpuEvent::Raised(_) => state,
            CpuEvent::DeliveryFailed => if vector == DOUBLE_FAULT_VECTOR {
                CpuState::Halted
            } else {
                double_fault_state()
            },
            CpuEvent::Completed => if spec_is_fatal(vector) {
                CpuState::Halted
            } else {
                CpuState::Running
            },
        },
    }
}

/// The state after `event` happens in `state`.
#[verifier::when_used_as_spec(spec_step)]
pub fn step(state: CpuState, event: CpuEvent) -> (next: CpuState)
    ensures
        next == spec_step(state, event),
{
    match state {
        CpuState::Halted => CpuState::Halted,
        CpuState::Running => match event {
            CpuEvent::Raised(vector) => if installed(vector) && vector != DOUBLE_FAULT_VECTOR {
                CpuState::Handling { vector, dedicated_stack: false }
            } else {
                CpuState::Handling { vector: DOUBLE_FAULT_VECTOR, dedicated_stack: true }
            },
            CpuEvent::DeliveryFailed => CpuState::Handling {
                vector: DOUBLE_FAULT_VECTOR,
                dedicated_stack: true,
            },
            CpuEvent::Completed => CpuState::Running,
        },
        CpuState::Handling { vector, dedicated_stack } => match event {
            CpuEvent::Raised(_) => state,
            CpuEvent::DeliveryFailed => if vector == DOUBLE_FAULT_VECTOR {
                CpuState::Halted
            } else {
                CpuState::Handling { vector: DOUBLE_FAULT_VECTOR, dedicated_stack: true }
            },
            CpuEvent::Completed => if is_fatal(vector) {
                CpuState::Halted
            } else {
                CpuState::Running
            },
        },
    }
}

/// The state after all of `events` happen in `state`, in order.
pub open spec fn run(state: CpuState, events: Seq<CpuEvent>) -> CpuState
    decreases events.len(),
{
    if events.len() == 0 {
        state
    } else {
        run(spec_step(state, events[0]), events.drop_first())
    }
}

/// The state after all of `events` happen in `state`, in order.
pub fn run_events(state: CpuState, events: &Vec<CpuEvent>) -> (end: CpuState)
    ensures
        end == run(state, events@),
{
    let mut current = state;
    let mut i: usize = 0;
    assert(events@.skip(0) =~= events@);
    while i < events.len()
        invariant
            i <= events@.len(),
            run(state, events@) == run(current, events@.skip(i as int)),
        decreases events@.len() - i,
    {
        proof {
            assert(events@.skip(i as int).drop_first() =~= events@.skip(i + 1));
        }
        current = step(current, events[i]);
        i = i + 1;
    }
    current
}

/// Whether `state` is a state that the double-fault handler has been
/// entered in or passed through for good.
pub open spec fn past_double_fault(state: CpuState) -> bool {
    state == CpuState::Halted || (state matches CpuState::Handling { vector, .. } && vector
        == DOUBLE_FAULT_VECTOR)
}

/// How often the double-fault handler is entered while `events` happen in
/// `state`.
pub open spec fn double_fault_entries(state: CpuState, events: Seq<CpuEvent>) -> nat
    decreases events.len(),
{
    if events.len() == 0 {
        0
    } else {
        let next = spec_step(state, events[0]);
        let entered: nat = if next == double_fault_state() && state != next {
            1
        } else {
            0
        };
        entered + double_fault_entries(next, events.drop_first())
    }
}

/// The kernel's own states: a handler that runs has a handler installed,
/// and the double fault alone runs on the dedicated stack.
pub open spec fn state_wf(state: CpuState) -> bool {
    state matches CpuState::Handling { vector, dedicated_stack } ==> spec_installed(vector) && (
    dedicated_stack <==> vector == DOUBLE_FAULT_VECTOR)
}

/// Nothing leaves the halted state.
pub proof fn lemma_halted_is_terminal(events: Seq<CpuEvent>)
    ensures
        run(CpuState::Halted, events) == CpuState::Halted,
    decreases events.len(),
{
    if events.len() > 0 {
        lemma_halted_is_terminal(events.drop_first());
    }
}

/// Every step keeps the kernel's states well-formed: the double-fault
/// handler never runs on any stack but its own.
pub proof fn lemma_step_wf(state: CpuState, event: CpuEvent)
    requires
        state_wf(state),
    ensures
        state_wf(spec_step(state, event)),
{
}

/// An exception that cannot be delivered always ends in the double-fault
/// handler on its dedicated stack, whatever ran before, unless the processor
/// was already there or halted.
pub proof fn lemma_failed_delivery(state: CpuState)
    requires
        !past_double_fault(state),
    ensures
        spec_step(state, CpuEvent::DeliveryFailed) == double_fault_state(),
{
}

/// Once the double-fault handler runs, the processor never returns to the
/// kernel's code: it stays in the handler or is halted.
pub proof fn lemma_double_fault_is_final(state: CpuState, events: Seq<CpuEvent>)
    requires
        past_double_fault(state),
    ensures
        past_double_fault(run(state, events)),
        double_fault_entries(state, events) == 0,
    decreases events.len(),
{
    if events.len() > 0 {
        lemma_double_fault_is_final(spec_step(state, events[0]), events.drop_first());
    }
}

/// Whatever happens, the double-fault handler is entered at most once.
pub proof fn lemma_double_fault_at_most_once(state: CpuState, events: Seq<CpuEvent>)
    ensures
        double_fault_entries(state, events) <= 1,
        double_fault_entries(state, events) == 1 ==> past_double_fault(run(state, events)),
    decreases events.len(),
{
    if events.len() > 0 {
        let next = spec_step(state, events[0]);
        if past_double_fault(next) {
            lemma_double_fault_is_final(next, events.drop_first());
        } else {
            lemma_double_fault_at_most_once(next, events.drop_first());
        }
    }
}

/// The handlers halt for exactly the vectors whose handling ends in the
/// halted state.
pub proof fn lemma_fatal_vectors_halt(vector: u8)
    ensures
        spec_is_fatal(vector) <==> run(
            CpuState::Running,
            seq![CpuEvent::Raised(vector), CpuEvent::Completed],
        ) == CpuState::Halted,
{
    let events = seq![CpuEvent::Raised(vector), CpuEvent::Completed];
    let first = spec_step(CpuState::Running, events[0]);
    assert(events.drop_first() =~= seq![CpuEvent::Completed]);
    assert(events.drop_first().drop_first() =~= Seq::<CpuEvent>::empty());
    assert(run(spec_step(first, CpuEvent::Completed), Seq::<CpuEvent>::empty()) == spec_step(
        first,
        CpuEvent::Completed,
    ));
    assert(run(first, seq![CpuEvent::Completed]) == spec_step(first, CpuEvent::Completed));
}

/// A breakpoint, and a timer interrupt, is handled and execution goes on:
/// the processor is back in the kernel's code, ready for the next one.
pub proof fn lemma_resumes(vector: u8)
    requires
        vector == BREAKPOINT_VECTOR || vector == TIMER_VECTOR,
    ensures
        spec_step(CpuState::Running, CpuEvent::Raised(vector)) == (CpuState::Handling {
            vector,
            dedicated_stack: false,
        }),
        run(CpuState::Running, seq![CpuEvent::Raised(vector), CpuEvent::Completed])
            == CpuState::Running,
{
    let events = seq![CpuEvent::Raised(vector), CpuEvent::Completed];
    let first = spec_step(CpuState::Running, events[0]);
    assert(events.drop_first() =~= seq![CpuEvent::Completed]);
    assert(events.drop_first().drop_first() =~= Seq::<CpuEvent>::empty());
    assert(run(spec_step(first, CpuEvent::Completed), Seq::<CpuEvent>::empty())
        == CpuState::Running);
    assert(run(first, seq![CpuEvent::Completed]) == CpuState::Running);
}

/// Whether `event` is a hardware interrupt, which the processor holds back
/// while interrupts are masked. Exceptions are never held back.
pub open spec fn is_hardware_interrupt(event: CpuEvent) -> bool {
    event matches CpuEvent::Raised(vector) && vector >= PIC_1_OFFSET
}

/// The processor with its interrupt flag and the one lock that guards the
/// kernel's shared state: the frame allocator, the page tables and the heap.
///
/// The lock is only ever held with interrupts masked, so no handler of a
/// hardware interrupt can start, and then wait for the lock, while the code
/// it interrupted holds it.
pub struct Cpu {
    state: CpuState,
    interrupts_enabled: bool,
    lock_held: bool,
    /// Interrupt flag to put back when the lock is released.
    flag_before_lock: bool,
    /// Interrupt flag to put back when the handler returns.
    flag_before_handler: bool,
}

impl Cpu {
    pub closed spec fn state(&self) -> CpuState {
        self.state
    }

    pub closed spec fn interrupts_enabled(&self) -> bool {
        self.interrupts_enabled
    }

    pub closed spec fn lock_held(&self) -> bool {
        self.lock_held
    }

    /// The interrupt flag that `unlock` puts back.
    pub closed spec fn flag_before_lock(&self) -> bool {
        self.flag_before_lock
    }

    /// The interrupt flag that the return from the handler puts back.
    pub closed spec fn flag_before_handler(&self) -> bool {
        self.flag_before_handler
    }

    /// The lock is held only with interrupts masked, and a handler runs
    /// with interrupts masked.
    pub closed spec fn wf(&self) -> bool {
        &&& self.lock_held ==> !self.interrupts_enabled
        &&& self.state is Handling ==> !self.interrupts_enabled
    }

    /// A well-formed processor that holds the lock, or runs a handler, has
    /// interrupts masked.
    pub proof fn lemma_wf(&self)
        requires
            self.wf(),
        ensures
            self.lock_held() ==> !self.interrupts_enabled(),
            self.state() is Handling ==> !self.interrupts_enabled(),
    {
    }

    /// The processor as the kernel finds it at boot: running, interrupts
    /// masked, the lock free, and no interrupt flag saved for a later
    /// release of the lock or return from a handler.
    pub fn new() -> (cpu: Cpu)
        ensures
            cpu.wf(),
            cpu.state() == CpuState::Running,
            !cpu.interrupts_enabled(),
            !cpu.lock_held(),
            !cpu.flag_before_lock(),
            !cpu.flag_before_handler(),
    {
        Cpu {
            state: CpuState::Running,
            interrupts_enabled: false,
            lock_held: false,
            flag_before_lock: false,
            flag_before_handler: false,
        }
    }

    /// Unmasks interrupts. Returns `false`, and changes nothing, while the
    /// lock is held, a handler runs or the processor is halted.
    pub fn enable_interrupts(&mut self) -> (enabled: bool)
        requires
            old(self).wf(),
        ensures
            final(self).wf(),
            final(self).state() == old(self).state(),
            final(self).lock_held() == old(self).lock_held(),
            enabled == (!old(self).lock_held() && old(self).state() == CpuState::Running),
            final(self).interrupts_enabled() == (enabled || old(self).interrupts_enabled()),
            final(self).flag_before_lock() == old(self).flag_before_lock(),
            final(self).flag_before_handler() == old(self).flag_before_handler(),
    {
        if self.lock_held {
            return false;
        }
        match self.state {
            CpuState::Running => {
                self.interrupts_enabled = true;
                true
            },
            _ => false,
        }
    }

    /// Enters the critical section: masks interrupts and takes the lock.
    /// Returns `false`, and changes nothing, when the lock is already held:
    /// to wait for it would mean to wait for ever.
    pub fn lock(&mut self) -> (acquired: bool)
        requires
            old(self).wf(),
        ensures
            final(self).wf(),
            final(self).state() == old(self).state(),
            acquired == !old(self).lock_held(),
            final(self).lock_held(),
            !final(self).interrupts_enabled(),
            final(self).flag_before_handler() == old(self).flag_before_handler(),
            final(self).flag_before_lock() == if acquired {
                old(self).interrupts_enabled()
            } else {
                old(self).flag_before_lock()
            },
    {
        if self.lock_held {
            return false;
        }
        self.flag_before_lock = self.interrupts_enabled;
        self.interrupts_enabled = false;
        self.lock_held = true;
        true
    }

    /// Leaves the critical section: releases the lock and puts the interrupt
    /// flag back as it was when the lock was taken. Changes nothing when the
    /// lock is not held.
    pub fn unlock(&mut self)
        requires
            old(self).wf(),
        ensures
            final(self).wf(),
            final(self).state() == old(self).state(),
            !final(self).lock_held(),
            final(self).flag_before_handler() == old(self).flag_before_handler(),
            final(self).interrupts_enabled() == if old(self).lock_held() && old(self).state()
                == CpuState::Running {
                old(self).flag_before_lock()
            } else {
                old(self).interrupts_enabled()
            },
    {
        if self.lock_held {
            self.lock_held = false;
            match self.state {
                CpuState::Running => {
                    self.interrupts_enabled = self.flag_before_lock;
                },
                _ => {},
            }
        }
    }

    /// Lets `event` happen. A hardware interrupt that arrives while
    /// interrupts are masked is held back: nothing changes and `false` is
    /// returned. Every other event is taken: the state steps, a handler that
    /// is entered runs with interrupts masked, and a handler that returns
    /// puts the interrupt flag back as it found it.
    pub fn deliver(&mut self, event: CpuEvent) -> (taken: bool)
        requires
            old(self).wf(),
        ensures
            final(self).wf(),
            final(self).lock_held() == old(self).lock_held(),
            taken == !(is_hardware_interrupt(event) && !old(self).interrupts_enabled()),
            final(self).state() == if taken {
                spec_step(old(self).state(), event)
            } else {
                old(self).state()
            },
            is_hardware_interrupt(event) && old(self).lock_held() ==> !taken,
            final(self).state() is Handling && old(self).state() == CpuState::Running
                && is_hardware_interrupt(event) ==> !old(self).lock_held(),
            final(self).flag_before_lock() == old(self).flag_before_lock(),
            final(self).interrupts_enabled() == if !taken {
                old(self).interrupts_enabled()
            } else if final(self).state() == CpuState::Halted || (old(self).state()
                == CpuState::Running && final(self).state() is Handling) {
                false
            } else if old(self).state() is Handling && final(self).state() == CpuState::Running {
                old(self).flag_before_handler() && !old(self).lock_held()
            } else {
                old(self).interrupts_enabled()
            },
            old(self).state() == CpuState::Running && final(self).state() is Handling ==> final(self).flag_before_handler() == old(self).interrupts_enabled(),
    {
        let held_back = match event {
            CpuEvent::Raised(vector) => vector >= PIC_1_OFFSET && !self.interrupts_enabled,
            _ => false,
        };
        if held_back {
            return false;
        }
        let next = step(self.state, event);
        match (self.state, next) {
            (CpuState::Running, CpuState::Handling { .. }) => {
                self.flag_before_handler = self.interrupts_enabled;
                self.interrupts_enabled = false;
            },
            (CpuState::Handling { .. }, CpuState::Running) => {
                self.interrupts_enabled = self.flag_before_handler && !self.lock_held;
            },
            (_, CpuState::Halted) => {
                self.interrupts_enabled = false;
            },
            _ => {},
        }
        self.state = next;
        true
    }
}

} // verus!
