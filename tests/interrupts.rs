use blog_kernel::interrupts::{
    breakpoint_reaction, double_fault_reaction, init_idt, keyboard_interrupt, keyboard_reaction,
    timer_reaction, Handler, InitStage, InitStep, InterruptIndex, Printed, VectorEntry,
    PIC_1_OFFSET, PIC_2_OFFSET,
};
use blog_kernel::keyboard::{KeyInput, KeyboardDecoder};
use blog_kernel::test_exit::QemuExitCode;

#[test]
fn trivial_assertion() {
    assert_eq!(1, 1);
}

#[test]
fn interrupt_lines_map_past_the_offset() {
    assert_eq!(PIC_1_OFFSET, 32);
    assert_eq!(PIC_2_OFFSET, 40);
    assert_eq!(InterruptIndex::Timer.as_u8(), 32);
    assert_eq!(InterruptIndex::Keyboard.as_u8(), 33);
    assert_eq!(InterruptIndex::Keyboard.as_usize(), 33);
}

#[test]
fn vector_table_binds_the_four_handlers() {
    let t = init_idt(0);
    assert_eq!(t.len(), 256);
    assert_eq!(t[3], Some(VectorEntry { handler: Handler::Breakpoint, stack_index: None }));
    assert_eq!(t[8], Some(VectorEntry { handler: Handler::DoubleFault, stack_index: Some(0) }));
    assert_eq!(t[32], Some(VectorEntry { handler: Handler::Timer, stack_index: None }));
    assert_eq!(t[33], Some(VectorEntry { handler: Handler::Keyboard, stack_index: None }));
    let present = t.iter().filter(|e| e.is_some()).count();
    assert_eq!(present, 4);
    assert_eq!(init_idt(5)[8].unwrap().stack_index, Some(5));
}

#[test]
fn test_breakpoint_exception() {
    let r = breakpoint_reaction();
    assert!(r.resume);
    assert!(matches!(r.printed, Printed::Context));
    assert!(r.acknowledge.is_none());
}

#[test]
fn double_fault_halts() {
    let r = double_fault_reaction();
    assert!(!r.resume);
    assert!(matches!(r.printed, Printed::Context));
}

#[test]
fn timer_prints_dot_and_acknowledges() {
    let r = timer_reaction();
    assert!(matches!(r.printed, Printed::Char('.')));
    assert_eq!(r.acknowledge, Some(InterruptIndex::Timer));
    assert!(r.resume);
}

#[test]
fn key_press_yields_one_character_and_one_acknowledgement() {
    let mut d = KeyboardDecoder::new();
    // scancode set 1: 0x1e is 'A' pressed
    let r = keyboard_interrupt(&mut d, 0x1e);
    assert!(matches!(r.printed, Printed::Char('a')));
    assert_eq!(r.acknowledge, Some(InterruptIndex::Keyboard));
    // its release prints nothing but is acknowledged too
    let r = keyboard_interrupt(&mut d, 0x9e);
    assert!(matches!(r.printed, Printed::Nothing));
    assert_eq!(r.acknowledge, Some(InterruptIndex::Keyboard));
}

#[test]
fn extended_prefix_alone_yields_nothing() {
    let mut d = KeyboardDecoder::new();
    assert!(d.add_scancode(0xe0).is_none());
    assert!(matches!(d.add_scancode(0x48), Some(KeyInput::RawKey(_))));
}

#[test]
fn keyboard_reaction_prints_what_it_is_given() {
    assert!(matches!(keyboard_reaction(None).printed, Printed::Nothing));
    assert!(matches!(keyboard_reaction(Some(KeyInput::Unicode('q'))).printed, Printed::Char('q')));
    assert_eq!(keyboard_reaction(None).acknowledge, Some(InterruptIndex::Keyboard));
}

#[test]
fn initialisation_goes_forward_in_order() {
    let mut stage = InitStage::Uninitialized;
    let mut steps = Vec::new();
    while let Some(step) = stage.next_step() {
        steps.push(step);
        stage = stage.advance();
    }
    assert_eq!(steps, vec![InitStep::LoadTable, InitStep::InitializeControllers, InitStep::EnableInterrupts]);
    assert_eq!(stage, InitStage::InterruptsEnabled);
}

#[test]
fn exit_codes() {
    assert_eq!(QemuExitCode::Success.code(), 0x10);
    assert_eq!(QemuExitCode::Failed.code(), 0x11);
    assert_eq!(QemuExitCode::for_failures(0), QemuExitCode::Success);
    assert_eq!(QemuExitCode::for_failures(2), QemuExitCode::Failed);
}
