use ferrix::gdt::task_state;
use ferrix::interrupts::{
    breakpoint_handler, completed_event, double_fault_handler, init_idt, init_pics,
    keyboard_interrupt_handler, keyboard_response, new_keyboard, timer_interrupt_handler,
    Continuation, ControllerOffsets, DecodedKey, Entry, Handler, InterruptDescriptorTable,
    InterruptIndex, PIC_1_OFFSET, PIC_2_OFFSET, PS2_KBD_DATA_PORT,
};
use pc_keyboard::{KeyCode, KeyEvent, KeyState};
use x86_64::structures::tss::TaskStateSegment;

#[test]
fn hardware_interrupts_follow_the_exception_vectors() {
    assert_eq!(PIC_1_OFFSET, 32);
    assert_eq!(PIC_2_OFFSET, 40);
    assert_eq!(PS2_KBD_DATA_PORT, 0x60);
    assert_eq!(InterruptIndex::Timer.as_u8(), 32);
    assert_eq!(InterruptIndex::Keyboard.as_u8(), 33);
    assert_eq!(InterruptIndex::Timer.as_usize(), 32);
    assert_eq!(InterruptIndex::Keyboard.as_usize(), 33);
    assert_eq!(init_pics(), ControllerOffsets { primary: 32, secondary: 40 });
}

#[test]
fn kernel_table_binds_four_vectors() {
    let idt = init_idt();
    for vector in 0..=255u8 {
        let expected = match vector {
            3 => Some(Entry { handler: Handler::Breakpoint, stack_index: None }),
            8 => Some(Entry { handler: Handler::DoubleFault, stack_index: Some(0) }),
            32 => Some(Entry { handler: Handler::Timer, stack_index: None }),
            33 => Some(Entry { handler: Handler::Keyboard, stack_index: None }),
            _ => None,
        };
        assert_eq!(idt.entry(vector), expected);
    }
}

#[test]
fn table_entries_can_be_set_and_rebound() {
    let mut idt = InterruptDescriptorTable::new();
    assert_eq!(idt.entry(14), None);
    idt.set_stack_index(14, 3);
    assert_eq!(idt.entry(14), None);
    idt.set_handler_fn(14, Handler::Breakpoint);
    idt.set_stack_index(14, 3);
    assert_eq!(idt.entry(14), Some(Entry { handler: Handler::Breakpoint, stack_index: Some(3) }));
    idt.set_handler_fn(14, Handler::Timer);
    assert_eq!(idt.entry(14), Some(Entry { handler: Handler::Timer, stack_index: None }));
    assert_eq!(idt.entry(13), None);
    assert_eq!(idt.entry(255), None);
    idt.set_handler_fn(255, Handler::Keyboard);
    assert_eq!(idt.entry(255), Some(Entry { handler: Handler::Keyboard, stack_index: None }));
}

#[test]
fn table_is_valid_only_with_the_double_fault_stack_in_place() {
    let idt = init_idt();
    assert!(idt.validate(&task_state(0x20_0000)));
    assert!(!idt.validate(&TaskStateSegment::new()));
    let mut other = init_idt();
    other.set_stack_index(3, 2);
    assert!(!other.validate(&task_state(0x20_0000)));
    assert!(InterruptDescriptorTable::new().validate(&TaskStateSegment::new()));
}

#[test]
fn breakpoint_reports_and_resumes() {
    let report = breakpoint_handler();
    assert_eq!(report.message, "[EXCEPTION]: Breakpoint");
    assert_eq!(report.continuation, Continuation::Resume);
    let again = breakpoint_handler();
    assert_eq!(again.message, "[EXCEPTION]: Breakpoint");
    assert_eq!(again.continuation, Continuation::Resume);
}

#[test]
fn double_fault_reports_and_halts() {
    let report = double_fault_handler();
    assert_eq!(report.message, "[EXCEPTION]: Double Fault");
    assert_eq!(report.continuation, Continuation::Halt);
}

#[test]
fn timer_always_asks_for_the_end_of_interrupt() {
    for _ in 0..3 {
        assert_eq!(timer_interrupt_handler(), 32);
    }
}

#[test]
fn keyboard_decodes_letters_and_always_asks_for_the_end_of_interrupt() {
    let mut keyboard = new_keyboard();
    let pressed = keyboard_interrupt_handler(&mut keyboard, 0x1e);
    assert_eq!(pressed.echo, Some(DecodedKey::Unicode('a')));
    assert_eq!(pressed.end_of_interrupt, 33);
    let released = keyboard_interrupt_handler(&mut keyboard, 0x9e);
    assert_eq!(released.echo, None);
    assert_eq!(released.end_of_interrupt, 33);
}

#[test]
fn keyboard_keeps_track_of_shift() {
    let mut keyboard = new_keyboard();
    let shift = keyboard_interrupt_handler(&mut keyboard, 0x2a);
    assert_eq!(shift.echo, Some(DecodedKey::RawKey(KeyCode::LShift)));
    assert_eq!(keyboard_interrupt_handler(&mut keyboard, 0x1e).echo, Some(DecodedKey::Unicode('A')));
    assert_eq!(keyboard_interrupt_handler(&mut keyboard, 0xaa).echo, None);
    assert_eq!(keyboard_interrupt_handler(&mut keyboard, 0x1e).echo, Some(DecodedKey::Unicode('a')));
}

#[test]
fn keyboard_handles_prefixes_raw_keys_and_unknown_bytes() {
    let mut keyboard = new_keyboard();
    let prefix = keyboard_interrupt_handler(&mut keyboard, 0xe0);
    assert_eq!(prefix.echo, None);
    assert_eq!(prefix.end_of_interrupt, 33);
    let arrow = keyboard_interrupt_handler(&mut keyboard, 0x48);
    assert_eq!(arrow.echo, Some(DecodedKey::RawKey(KeyCode::ArrowUp)));
    assert_eq!(keyboard_interrupt_handler(&mut keyboard, 0x3b).echo, Some(DecodedKey::RawKey(KeyCode::F1)));
    let unknown = keyboard_interrupt_handler(&mut keyboard, 0x7f);
    assert_eq!(unknown.echo, None);
    assert_eq!(unknown.end_of_interrupt, 33);
    assert_eq!(keyboard_interrupt_handler(&mut keyboard, 0x02).echo, Some(DecodedKey::Unicode('1')));
}

#[test]
fn only_a_finished_event_goes_on_to_the_layout() {
    let event = KeyEvent::new(KeyCode::A, KeyState::Down);
    assert_eq!(completed_event(Ok(Some(event.clone()))), Some(event));
    assert_eq!(completed_event(Ok(None)), None);
    assert_eq!(completed_event(Err(pc_keyboard::Error::UnknownKeyCode)), None);
    assert_eq!(completed_event(Err(pc_keyboard::Error::BadStartBit)), None);
}

#[test]
fn keyboard_response_carries_the_key_and_the_vector() {
    let response = keyboard_response(Some(DecodedKey::Unicode('x')));
    assert_eq!(response.echo, Some(DecodedKey::Unicode('x')));
    assert_eq!(response.end_of_interrupt, 33);
    let silent = keyboard_response(None);
    assert_eq!(silent.echo, None);
    assert_eq!(silent.end_of_interrupt, 33);
}

#[test]
fn a_fresh_keyboard_leaves_letters_alone_while_control_is_held() {
    let mut keyboard = new_keyboard();
    let control = keyboard_interrupt_handler(&mut keyboard, 0x1d);
    assert_eq!(control.echo, Some(DecodedKey::RawKey(KeyCode::LControl)));
    assert_eq!(keyboard_interrupt_handler(&mut keyboard, 0x1e).echo, Some(DecodedKey::Unicode('a')));
    assert_eq!(keyboard_interrupt_handler(&mut keyboard, 0x2e).echo, Some(DecodedKey::Unicode('c')));
    assert_eq!(keyboard_interrupt_handler(&mut keyboard, 0x9d).echo, None);
}
