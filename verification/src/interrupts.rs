//! The interrupt vector table, the remapping of the two chained interrupt
//! controllers, and what each installed handler decides.

use crate::gdt::{interrupt_stack, interrupt_stacks, DOUBLE_FAULT_IST_INDEX, STACK_SIZE};
use pc_keyboard::layouts::Us104Key;
use pc_keyboard::{KeyCode, KeyEvent, Keyboard, ScancodeSet1};
use vstd::prelude::*;
use x86_64::structures::tss::TaskStateSegment;

verus! {

/// First vector of the primary interrupt controller: the one right after
/// the 32 vectors that the processor reserves for exceptions.
pub const PIC_1_OFFSET: u8 = 32;

/// First vector of the secondary interrupt controller.
pub const PIC_2_OFFSET: u8 = PIC_1_OFFSET + 8;

/// Data port of the keyboard controller.
pub const PS2_KBD_DATA_PORT: u16 = 0x60;

/// Vector of the breakpoint exception.
pub const BREAKPOINT_VECTOR: u8 = 3;

/// Vector of the double-fault exception.
pub const DOUBLE_FAULT_VECTOR: u8 = 8;

/// The hardware interrupts that the kernel handles.
#[derive(Debug, Clone, Copy, PartialEq, Eq, Structural)]
pub enum InterruptIndex {
    Timer,
    Keyboard,
}

impl InterruptIndex {
    /// The vector on which the interrupt arrives.
    pub open spec fn vector(self) -> u8 {
        match self {
            InterruptIndex::Timer => 32,
            InterruptIndex::Keyboard => 33,
        }
    }

    /// The vector on which the interrupt arrives.
    pub fn as_u8(self) -> (vector: u8)
        ensures
            vector == self.vector(),
    {
        match self {
            InterruptIndex::Timer => PIC_1_OFFSET,
            InterruptIndex::Keyboard => PIC_1_OFFSET + 1,
        }
    }

    /// The vector as an index into the table.
    pub fn as_usize(self) -> (index: usize)
        ensures
            index == self.vector(),
    {
        self.as_u8() as usize
    }
}

/// The routines that vectors are bound to.
#[derive(Debug, Clone, Copy, PartialEq, Eq, Structural)]
pub enum Handler {
    Breakpoint,
    DoubleFault,
    Timer,
    Keyboard,
}

/// What a vector is bound to: a routine, and the slot of the interrupt-stack
/// table whose stack the processor switches to before it runs the routine,
/// if any.
#[derive(Debug, Clone, Copy, PartialEq, Eq, Structural)]
pub struct Entry {
    pub handler: Handler,
    pub stack_index: Option<u16>,
}

/// The table of 256 vectors, each unbound or bound to a routine.
pub struct InterruptDescriptorTable {
    entries: [Option<Entry>; 256],
}

impl View for InterruptDescriptorTable {
    type V = Seq<Option<Entry>>;

    closed spec fn view(&self) -> Seq<Option<Entry>> {
        self.entries@
    }
}

impl InterruptDescriptorTable {
    /// A table without a bound vector.
    pub fn new() -> (idt: InterruptDescriptorTable)
        ensures
            idt@ == Seq::new(256, |v: int| None::<Entry>),
    {
        let idt = InterruptDescriptorTable { entries: [None;256] };
        assert(idt@ =~= Seq::new(256, |v: int| None::<Entry>));
        idt
    }

    /// Binds `vector` to `handler`, on the stack that is current when the
    /// interrupt arrives.
    pub fn set_handler_fn(&mut self, vector: u8, handler: Handler)
        ensures
            final(self)@ == old(self)@.update(
                vector as int,
                Some(Entry { handler, stack_index: None }),
            ),
    {
        self.entries[vector as usize] = Some(Entry { handler, stack_index: None });
    }

    /// Makes the routine of `vector` run on the stack in slot `index` of the
    /// interrupt-stack table. An unbound vector stays unbound.
    pub fn set_stack_index(&mut self, vector: u8, index: u16)
        requires
            index < 7,
        ensures
            final(self)@ == match old(self)@[vector as int] {
                Some(entry) => old(self)@.update(
                    vector as int,
                    Some(Entry { handler: entry.handler, stack_index: Some(index) }),
                ),
                None => old(self)@,
            },
    {
        match self.entries[vector as usize] {
            Some(entry) => {
                self.entries[vector as usize] = Some(
                    Entry { handler: entry.handler, stack_index: Some(index) },
                );
            },
            None => {
                assert(self@ =~= old(self)@);
            },
        }
    }

    /// What `vector` is bound to: one indexed read.
    pub fn entry(&self, vector: u8) -> (entry: Option<Entry>)
        ensures
            entry == self@[vector as int],
    {
        self.entries[vector as usize]
    }

    /// Whether every stack that a vector is bound to exists: its slot is one
    /// of the interrupt-stack table of `tss` and holds a pointer that is not
    /// null.
    pub open spec fn stacks_valid(self, tss: TaskStateSegment) -> bool {
        forall|v: int|
            0 <= v < 256 ==> (match (#[trigger] self@[v]) {
                Some(Entry { handler: _, stack_index: Some(index) }) => index < 7
                    && interrupt_stacks(tss)[index as int] != 0,
                _ => true,
            })
    }

    /// Tests before the table is loaded that every stack it names exists in
    /// `tss`.
    pub fn validate(&self, tss: &TaskStateSegment) -> (ok: bool)
        ensures
            ok == self.stacks_valid(*tss),
    {
        let mut v: usize = 0;
        while v < 256
            invariant
                0 <= v <= 256,
                forall|u: int|
                    0 <= u < v ==> (match (#[trigger] self@[u]) {
                        Some(Entry { handler: _, stack_index: Some(index) }) => index < 7
                            && interrupt_stacks(*tss)[index as int] != 0,
                        _ => true,
                    }),
            decreases 256 - v,
        {
            match self.entries[v] {
                Some(Entry { handler: _, stack_index: Some(index) }) => {
                    match interrupt_stack(tss, index) {
                        Some(top) => {
                            if top == 0 {
                                assert(self@[v as int] == self.entries@[v as int]);
                                return false;
                            }
                        },
                        None => {
                            assert(self@[v as int] == self.entries@[v as int]);
                            return false;
                        },
                    }
                },
                _ => {},
            }
            v = v + 1;
        }
        true
    }
}

/// The bindings of the kernel: breakpoint and double fault among the
/// exceptions, the double fault on its dedicated stack; timer and keyboard
/// among the hardware interrupts; nothing else.
pub open spec fn kernel_vectors() -> Seq<Option<Entry>> {
    Seq::new(
        256,
        |v: int|
            if v == 3 {
                Some(Entry { handler: Handler::Breakpoint, stack_index: None })
            } else if v == 8 {
                Some(Entry { handler: Handler::DoubleFault, stack_index: Some(0u16) })
            } else if v == 32 {
                Some(Entry { handler: Handler::Timer, stack_index: None })
            } else if v == 33 {
                Some(Entry { handler: Handler::Keyboard, stack_index: None })
            } else {
                None
            },
    )
}

/// Builds the vector table of the kernel, ready to be loaded.
pub fn init_idt() -> (idt: InterruptDescriptorTable)
    ensures
        idt@ == kernel_vectors(),
{
    let mut idt = InterruptDescriptorTable::new();
    idt.set_handler_fn(BREAKPOINT_VECTOR, Handler::Breakpoint);
    idt.set_handler_fn(DOUBLE_FAULT_VECTOR, Handler::DoubleFault);
    idt.set_stack_index(DOUBLE_FAULT_VECTOR, DOUBLE_FAULT_IST_INDEX);
    idt.set_handler_fn(InterruptIndex::Timer.as_u8(), Handler::Timer);
    idt.set_handler_fn(InterruptIndex::Keyboard.as_u8(), Handler::Keyboard);
    assert(idt@ =~= kernel_vectors());
    idt
}

/// The kernel's vector table names one stack, that of the double fault, and
/// it is valid for every task state whose slot `DOUBLE_FAULT_IST_INDEX`
/// holds a pointer that is not null: with such a task state loaded, a double
/// fault always finds a stack to run on.
pub proof fn lemma_double_fault_stack_valid(idt: InterruptDescriptorTable, tss: TaskStateSegment)
    requires
        idt@ == kernel_vectors(),
    ensures
        idt.stacks_valid(tss) <==> interrupt_stacks(tss)[DOUBLE_FAULT_IST_INDEX as int] != 0,
{
    assert(idt@[8] == Some(Entry { handler: Handler::DoubleFault, stack_index: Some(0u16) }));
}

/// The kernel's vector table fits the kernel's task state: whatever stack
/// the double-fault stack pointer was derived from, the slot that the double
/// fault names holds the top of that stack, which is not null.
pub proof fn lemma_kernel_tables_fit(
    idt: InterruptDescriptorTable,
    tss: TaskStateSegment,
    stack_start: u64,
)
    requires
        idt@ == kernel_vectors(),
        stack_start + STACK_SIZE <= u64::MAX,
        interrupt_stacks(tss) == Seq::new(7, |i: int| 0u64).update(
            DOUBLE_FAULT_IST_INDEX as int,
            (stack_start + STACK_SIZE) as u64,
        ),
    ensures
        idt.stacks_valid(tss),
{
    lemma_double_fault_stack_valid(idt, tss);
}

/// The vector offsets that the two chained controllers are programmed with.
#[derive(Debug, Clone, Copy, PartialEq, Eq, Structural)]
pub struct ControllerOffsets {
    pub primary: u8,
    pub secondary: u8,
}

impl ControllerOffsets {
    /// Whether `vector` comes from one of the two controllers.
    pub open spec fn handles(self, vector: u8) -> bool {
        self.primary <= vector < self.primary + 8 || self.secondary <= vector < self.secondary + 8
    }
}

/// The offsets to initialise the two controllers with, both in one go: the
/// primary takes the eight vectors after the 32 exception vectors, the
/// secondary the eight after those.
pub fn init_pics() -> (offsets: ControllerOffsets)
    ensures
        offsets == (ControllerOffsets { primary: 32, secondary: 40 }),
        forall|v: u8| offsets.handles(v) ==> 32 <= v < 48,
        offsets.handles(InterruptIndex::Timer.vector()),
        offsets.handles(InterruptIndex::Keyboard.vector()),
{
    ControllerOffsets { primary: PIC_1_OFFSET, secondary: PIC_2_OFFSET }
}

/// What happens after an exception handler has reported.
#[derive(Debug, Clone, Copy, PartialEq, Eq, Structural)]
pub enum Continuation {
    /// Execution goes on at the instruction after the one that trapped.
    Resume,
    /// The machine is halted.
    Halt,
}

/// What an exception handler reports, and what follows.
pub struct ExceptionReport {
    pub message: &'static str,
    pub continuation: Continuation,
}

/// Breakpoint: report and resume.
pub fn breakpoint_handler() -> (report: ExceptionReport)
    ensures
        report.message@ == "[EXCEPTION]: Breakpoint"@,
        report.continuation == Continuation::Resume,
{
    ExceptionReport { message: "[EXCEPTION]: Breakpoint", continuation: Continuation::Resume }
}

/// Double fault: report and halt.
pub fn double_fault_handler() -> (report: ExceptionReport)
    ensures
        report.message@ == "[EXCEPTION]: Double Fault"@,
        report.continuation == Continuation::Halt,
{
    ExceptionReport { message: "[EXCEPTION]: Double Fault", continuation: Continuation::Halt }
}

/// Timer tick: returns the vector whose end of interrupt must be signalled
/// before the handler returns.
pub fn timer_interrupt_handler() -> (end_of_interrupt: u8)
    ensures
        end_of_interrupt == InterruptIndex::Timer.vector(),
{
    InterruptIndex::Timer.as_u8()
}

/// Decoder of keyboard scancodes: scancode set 1, US 104-key layout. It
/// holds `pc_keyboard::Keyboard`, whose state is not visible here.
#[verifier::external_body]
pub struct KeyboardDecoder {
    inner: Keyboard<Us104Key, ScancodeSet1>,
}

/// `pc_keyboard::KeyEvent`, carried from the decoder to the layout.
#[verifier::external_type_specification]
#[verifier::external_body]
pub struct ExKeyEvent(KeyEvent);

/// `pc_keyboard::KeyCode`, carried to the caller.
#[verifier::external_type_specification]
#[verifier::external_body]
pub struct ExKeyCode(KeyCode);

/// `pc_keyboard::Error`, told apart from an event and dropped.
#[verifier::external_type_specification]
#[verifier::external_body]
pub struct ExKeyboardError(pc_keyboard::Error);

/// A decoded key: a character, or the code of a key that stands for none.
#[derive(Debug, Clone, Copy, PartialEq, Eq)]
pub enum DecodedKey {
    Unicode(char),
    RawKey(KeyCode),
}

/// The decoder that `Keyboard::new` makes for scancode set 1 and the US
/// 104-key layout, with `HandleControl::MapLettersToUnicode` where
/// `maps_control_letters` holds and `HandleControl::Ignore` where it does
/// not.
pub uninterp spec fn fresh_decoder(maps_control_letters: bool) -> KeyboardDecoder;

/// What `Keyboard::add_byte` answers when `byte` is fed to the decoder.
pub uninterp spec fn scancode_answer(keyboard: KeyboardDecoder, byte: u8) -> Result<
    Option<KeyEvent>,
    pc_keyboard::Error,
>;

/// The decoder as `Keyboard::add_byte` leaves it when `byte` is fed to it.
pub uninterp spec fn decoder_after_byte(keyboard: KeyboardDecoder, byte: u8) -> KeyboardDecoder;

/// What `Keyboard::process_keyevent` answers for `event`.
pub uninterp spec fn event_key(keyboard: KeyboardDecoder, event: KeyEvent) -> Option<DecodedKey>;

/// The decoder as `Keyboard::process_keyevent` leaves it for `event`.
pub uninterp spec fn decoder_after_event(keyboard: KeyboardDecoder, event: KeyEvent) -> KeyboardDecoder;

/// `Keyboard::new` with scancode set 1, the US 104-key layout and the
/// control handling that the argument stands for. The decoder it makes
/// depends on the argument alone.
#[verifier::external_body]
fn keyboard_new(maps_control_letters: bool) -> (keyboard: KeyboardDecoder)
    ensures
        keyboard == fresh_decoder(maps_control_letters),
{
    let handle_ctrl = if maps_control_letters {
        pc_keyboard::HandleControl::MapLettersToUnicode
    } else {
        pc_keyboard::HandleControl::Ignore
    };
    KeyboardDecoder { inner: Keyboard::new(ScancodeSet1::new(), Us104Key, handle_ctrl) }
}

/// `Keyboard::add_byte`: feeds one scancode byte to the decoder. The answer
/// and the state it leaves depend on the decoder and the byte alone.
#[verifier::external_body]
fn keyboard_add_byte(keyboard: &mut KeyboardDecoder, byte: u8) -> (answer: Result<
    Option<KeyEvent>,
    pc_keyboard::Error,
>)
    ensures
        answer == scancode_answer(*old(keyboard), byte),
        *final(keyboard) == decoder_after_byte(*old(keyboard), byte),
{
    keyboard.inner.add_byte(byte)
}

/// `Keyboard::process_keyevent`: turns a key event into a decoded key, if
/// the event stands for one under the modifiers seen so far. The answer and
/// the state it leaves depend on the decoder and the event alone.
#[verifier::external_body]
fn keyboard_process_keyevent(keyboard: &mut KeyboardDecoder, event: KeyEvent) -> (key: Option<
    DecodedKey,
>)
    ensures
        key == event_key(*old(keyboard), event),
        *final(keyboard) == decoder_after_event(*old(keyboard), event),
{
    match keyboard.inner.process_keyevent(event) {
        Some(pc_keyboard::DecodedKey::Unicode(character)) => Some(DecodedKey::Unicode(character)),
        Some(pc_keyboard::DecodedKey::RawKey(code)) => Some(DecodedKey::RawKey(code)),
        None => None,
    }
}

/// What the keyboard handler asks for: the key to echo, if the byte
/// completed one, and the vector whose end of interrupt must be signalled
/// before the handler returns.
pub struct KeyboardResponse {
    pub echo: Option<DecodedKey>,
    pub end_of_interrupt: u8,
}

/// A fresh scancode decoder for scancode set 1 and the US 104-key layout,
/// made to leave letters as letters while a control key is held.
pub fn new_keyboard() -> (keyboard: KeyboardDecoder)
    ensures
        keyboard == fresh_decoder(false),
{
    keyboard_new(false)
}

/// The key event that a byte completed: the decoder's answer where it is an
/// event, nothing where the byte completed none or was not understood.
pub fn completed_event(answer: Result<Option<KeyEvent>, pc_keyboard::Error>) -> (event: Option<KeyEvent>)
    ensures
        event == match answer {
            Ok(Some(e)) => Some(e),
            _ => None::<KeyEvent>,
        },
{
    match answer {
        Ok(Some(e)) => Some(e),
        _ => None,
    }
}

/// The response to a keyboard interrupt whose byte decoded to `decoded`.
pub fn keyboard_response(decoded: Option<DecodedKey>) -> (response: KeyboardResponse)
    ensures
        response.echo == decoded,
        response.end_of_interrupt == InterruptIndex::Keyboard.vector(),
{
    KeyboardResponse { echo: decoded, end_of_interrupt: InterruptIndex::Keyboard.as_u8() }
}

/// The key that the decoder echoes for `scancode`: the key of the event that
/// the byte completes, decoded in the state that the byte leaves; nothing
/// where the byte completes no event or is not understood.
pub open spec fn echoed_key(keyboard: KeyboardDecoder, scancode: u8) -> Option<DecodedKey> {
    match scancode_answer(keyboard, scancode) {
        Ok(Some(event)) => event_key(decoder_after_byte(keyboard, scancode), event),
        _ => None,
    }
}

/// The decoder after `scancode`: as the byte leaves it, and as the event
/// leaves it where the byte completes one.
pub open spec fn decoder_after(keyboard: KeyboardDecoder, scancode: u8) -> KeyboardDecoder {
    match scancode_answer(keyboard, scancode) {
        Ok(Some(event)) => decoder_after_event(decoder_after_byte(keyboard, scancode), event),
        _ => decoder_after_byte(keyboard, scancode),
    }
}

/// Keyboard interrupt: feeds the scancode byte read from the data port to
/// the decoder and answers with the key to echo, if any. Whatever the
/// decoder says, the end of interrupt is asked for.
pub fn keyboard_interrupt_handler(keyboard: &mut KeyboardDecoder, scancode: u8) -> (response:
    KeyboardResponse)
    ensures
        response.echo == echoed_key(*old(keyboard), scancode),
        response.end_of_interrupt == InterruptIndex::Keyboard.vector(),
        *final(keyboard) == decoder_after(*old(keyboard), scancode),
{
    let decoded = match completed_event(keyboard_add_byte(keyboard, scancode)) {
        Some(event) => keyboard_process_keyevent(keyboard, event),
        None => None,
    };
    keyboard_response(decoded)
}

} // verus!
