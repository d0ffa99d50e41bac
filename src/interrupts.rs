//! Interrupt lines and vectors, the layout of the vector table, the order of
//! initialisation, and what each handler does when it runs.

use vstd::prelude::*;
use crate::keyboard::{KeyInput, KeyboardDecoder};
use pc_keyboard::KeyCode;

verus! {

/// First vector of the primary interrupt controller; vectors 0 to 31 are
/// the processor's own.
pub const PIC_1_OFFSET: u8 = 32;

/// First vector of the secondary interrupt controller.
pub const PIC_2_OFFSET: u8 = PIC_1_OFFSET + 8;

/// Vector of the breakpoint exception.
pub const BREAKPOINT_VECTOR: u8 = 3;

/// Vector of the double-fault exception.
pub const DOUBLE_FAULT_VECTOR: u8 = 8;

/// Number of entries of the vector table.
pub const VECTOR_COUNT: usize = 256;

/// The hardware interrupt lines that have handlers.
#[derive(Debug, Clone, Copy, PartialEq, Eq, Structural)]
pub enum InterruptIndex {
    Timer,
    Keyboard,
}

/// The vector a line is delivered on: its line number past the primary
/// controller's offset.
pub open spec fn vector_of(i: InterruptIndex) -> u8 {
    match i {
        InterruptIndex::Timer => PIC_1_OFFSET,
        InterruptIndex::Keyboard => (PIC_1_OFFSET + 1) as u8,
    }
}

impl InterruptIndex {
    /// The vector of this line.
    pub fn as_u8(self) -> (r: u8)
        ensures
            r == vector_of(self),
    {
        match self {
            InterruptIndex::Timer => PIC_1_OFFSET,
            InterruptIndex::Keyboard => PIC_1_OFFSET + 1,
        }
    }

    /// The vector of this line, as a table index.
    pub fn as_usize(self) -> (r: usize)
        ensures
            r == vector_of(self) as usize,
            PIC_1_OFFSET <= r < PIC_2_OFFSET,
    {
        self.as_u8() as usize
    }
}


/// The handlers that vectors can be bound to.
#[derive(Debug, Clone, Copy, PartialEq, Eq, Structural)]
pub enum Handler {
    Breakpoint,
    DoubleFault,
    Timer,
    Keyboard,
}

/// A present entry of the vector table: its handler and, if any, the
/// alternate stack it runs on.
#[derive(Debug, Clone, Copy, PartialEq, Eq, Structural)]
pub struct VectorEntry {
    pub handler: Handler,
    pub stack_index: Option<u16>,
}

/// The entry that the vector table holds for a vector, given the alternate
/// stack reserved for double faults.
pub open spec fn entry_for(vector: int, double_fault_stack: u16) -> Option<VectorEntry> {
    if vector == BREAKPOINT_VECTOR {
        Some(VectorEntry { handler: Handler::Breakpoint, stack_index: None })
    } else if vector == DOUBLE_FAULT_VECTOR {
        Some(VectorEntry { handler: Handler::DoubleFault, stack_index: Some(double_fault_stack) })
    } else if vector == vector_of(InterruptIndex::Timer) {
        Some(VectorEntry { handler: Handler::Timer, stack_index: None })
    } else if vector == vector_of(InterruptIndex::Keyboard) {
        Some(VectorEntry { handler: Handler::Keyboard, stack_index: None })
    } else {
        None
    }
}

/// The vector table: one entry for each of the 256 vectors. Breakpoint,
/// double fault, timer and keyboard are bound; the double fault runs on the
/// alternate stack given; every other vector is absent.
pub fn init_idt(double_fault_stack: u16) -> (r: Vec<Option<VectorEntry>>)
    ensures
        r@.len() == VECTOR_COUNT,
        forall|v: int| 0 <= v < VECTOR_COUNT ==> #[trigger] r@[v] == entry_for(v, double_fault_stack),
{
    let timer = InterruptIndex::Timer.as_usize();
    let keyboard = InterruptIndex::Keyboard.as_usize();
    let mut table: Vec<Option<VectorEntry>> = Vec::new();
    let mut v: usize = 0;
    while v < VECTOR_COUNT
        invariant
            v <= VECTOR_COUNT,
            table@.len() == v,
            timer == vector_of(InterruptIndex::Timer),
            keyboard == vector_of(InterruptIndex::Keyboard),
            forall|i: int| 0 <= i < v ==> #[trigger] table@[i] == entry_for(i, double_fault_stack),
        decreases VECTOR_COUNT - v,
    {
        let entry = if v == BREAKPOINT_VECTOR as usize {
            Some(VectorEntry { handler: Handler::Breakpoint, stack_index: None })
        } else if v == DOUBLE_FAULT_VECTOR as usize {
            Some(VectorEntry { handler: Handler::DoubleFault, stack_index: Some(double_fault_stack) })
        } else if v == timer {
            Some(VectorEntry { handler: Handler::Timer, stack_index: None })
        } else if v == keyboard {
            Some(VectorEntry { handler: Handler::Keyboard, stack_index: None })
        } else {
            None
        };
        table.push(entry);
        v = v + 1;
    }
    table
}

/// What a handler shows on the console.
#[derive(Debug, Clone, Copy)]
pub enum Printed {
    Nothing,
    /// One character.
    Char(char),
    /// The name of a key that has no character.
    Key(KeyCode),
    /// The snapshot of the interrupted context, under the exception's name.
    Context,
}

/// What a handler does: what it prints, which line it acknowledges to the
/// interrupt controller, and whether the interrupted code resumes (a
/// handler that does not resume halts for good).
#[derive(Debug, Clone, Copy)]
pub struct Reaction {
    pub printed: Printed,
    pub acknowledge: Option<InterruptIndex>,
    pub resume: bool,
}

/// A breakpoint is recoverable: print the context and resume.
pub fn breakpoint_reaction() -> (r: Reaction)
    ensures
        r == reaction_of(Handler::Breakpoint, None),
        r.printed is Context,
        r.acknowledge is None,
        r.resume,
{
    Reaction { printed: Printed::Context, acknowledge: None, resume: true }
}

/// A double fault is fatal: print the context and halt.
pub fn double_fault_reaction() -> (r: Reaction)
    ensures
        r == reaction_of(Handler::DoubleFault, None),
        r.printed is Context,
        r.acknowledge is None,
        !r.resume,
{
    Reaction { printed: Printed::Context, acknowledge: None, resume: false }
}

/// A timer tick prints a dot and acknowledges the timer line.
pub fn timer_reaction() -> (r: Reaction)
    ensures
        r == reaction_of(Handler::Timer, None),
        r.printed == Printed::Char('.'),
        r.acknowledge == Some(InterruptIndex::Timer),
        r.resume,
{
    Reaction { printed: Printed::Char('.'), acknowledge: Some(InterruptIndex::Timer), resume: true }
}

/// After a scancode: print the key that came out of the decoder, if any,
/// and acknowledge the keyboard line in every case.
pub fn keyboard_reaction(key: Option<KeyInput>) -> (r: Reaction)
    ensures
        r == reaction_of(Handler::Keyboard, key),
        r.acknowledge == Some(InterruptIndex::Keyboard),
        r.resume,
        match key {
            None => r.printed is Nothing,
            Some(KeyInput::Unicode(c)) => r.printed == Printed::Char(c),
            Some(KeyInput::RawKey(k)) => r.printed == Printed::Key(k),
        },
{
    let printed = match key {
        None => Printed::Nothing,
        Some(KeyInput::Unicode(c)) => Printed::Char(c),
        Some(KeyInput::RawKey(k)) => Printed::Key(k),
    };
    Reaction { printed, acknowledge: Some(InterruptIndex::Keyboard), resume: true }
}

/// The keyboard handler: feeds the scancode read from the controller to
/// the decoder. Whatever the decoder yields, the keyboard line is
/// acknowledged exactly once and the interrupted code resumes.
pub fn keyboard_interrupt(decoder: &mut KeyboardDecoder, scancode: u8) -> (r: Reaction)
    ensures
        r.acknowledge == Some(InterruptIndex::Keyboard),
        r.resume,
        r.printed is Nothing || r.printed is Char || r.printed is Key,
{
    let key = decoder.add_scancode(scancode);
    keyboard_reaction(key)
}

/// The reaction of the handler bound to a vector, given the key the decoder
/// yielded where the handler is the keyboard's.
pub open spec fn reaction_of(handler: Handler, key: Option<KeyInput>) -> Reaction {
    match handler {
        Handler::Breakpoint => Reaction { printed: Printed::Context, acknowledge: None, resume: true },
        Handler::DoubleFault => Reaction { printed: Printed::Context, acknowledge: None, resume: false },
        Handler::Timer => Reaction {
            printed: Printed::Char('.'),
            acknowledge: Some(InterruptIndex::Timer),
            resume: true,
        },
        Handler::Keyboard => Reaction {
            printed: match key {
                None => Printed::Nothing,
                Some(KeyInput::Unicode(c)) => Printed::Char(c),
                Some(KeyInput::RawKey(k)) => Printed::Key(k),
            },
            acknowledge: Some(InterruptIndex::Keyboard),
            resume: true,
        },
    }
}

/// Only the double fault halts; every handler bound to a hardware line
/// acknowledges exactly that line, and no exception handler acknowledges
/// any line.
pub proof fn lemma_handler_outcomes(handler: Handler, key: Option<KeyInput>)
    ensures
        reaction_of(handler, key).resume <==> handler != Handler::DoubleFault,
        handler == Handler::Timer ==> reaction_of(handler, key).acknowledge == Some(
            InterruptIndex::Timer,
        ),
        handler == Handler::Keyboard ==> reaction_of(handler, key).acknowledge == Some(
            InterruptIndex::Keyboard,
        ),
        (handler == Handler::Breakpoint || handler == Handler::DoubleFault) ==> reaction_of(
            handler,
            key,
        ).acknowledge is None,
{
}

/// The stages of bringing up interrupts, in their only order.
#[derive(Debug, Clone, Copy, PartialEq, Eq, Structural)]
pub enum InitStage {
    Uninitialized,
    TableLoaded,
    ControllerReady,
    InterruptsEnabled,
}

/// The steps between stages.
#[derive(Debug, Clone, Copy, PartialEq, Eq, Structural)]
pub enum InitStep {
    LoadTable,
    InitializeControllers,
    EnableInterrupts,
}

impl InitStage {
    /// The step that leads on from this stage; none from the last.
    pub fn next_step(self) -> (r: Option<InitStep>)
        ensures
            self == InitStage::Uninitialized ==> r == Some(InitStep::LoadTable),
            self == InitStage::TableLoaded ==> r == Some(InitStep::InitializeControllers),
            self == InitStage::ControllerReady ==> r == Some(InitStep::EnableInterrupts),
            self == InitStage::InterruptsEnabled ==> r is None,
    {
        match self {
            InitStage::Uninitialized => Some(InitStep::LoadTable),
            InitStage::TableLoaded => Some(InitStep::InitializeControllers),
            InitStage::ControllerReady => Some(InitStep::EnableInterrupts),
            InitStage::InterruptsEnabled => None,
        }
    }

    /// The stage reached once the step from this stage is done; the last
    /// stage stays where it is.
    pub fn advance(self) -> (r: InitStage)
        ensures
            self == InitStage::Uninitialized ==> r == InitStage::TableLoaded,
            self == InitStage::TableLoaded ==> r == InitStage::ControllerReady,
            self == InitStage::ControllerReady ==> r == InitStage::InterruptsEnabled,
            self == InitStage::InterruptsEnabled ==> r == InitStage::InterruptsEnabled,
    {
        match self {
            InitStage::Uninitialized => InitStage::TableLoaded,
            InitStage::TableLoaded => InitStage::ControllerReady,
            InitStage::ControllerReady => InitStage::InterruptsEnabled,
            InitStage::InterruptsEnabled => InitStage::InterruptsEnabled,
        }
    }
}

} // verus!
