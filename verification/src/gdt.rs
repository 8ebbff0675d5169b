//! The task-state segment with its dedicated double-fault stack, and the
//! segment descriptor table that refers to it.

use crate::paging::is_canonical;
use vstd::prelude::*;
use x86_64::structures::gdt::{Descriptor, GlobalDescriptorTable};
use x86_64::structures::tss::TaskStateSegment;

verus! {

/// Slot of the interrupt-stack table that holds the double-fault stack.
pub const DOUBLE_FAULT_IST_INDEX: u16 = 0;

/// Size in bytes of a page of the double-fault stack.
pub const PAGE_SIZE: usize = 4096;

/// Size in bytes of the double-fault stack: five pages.
pub const STACK_SIZE: u64 = 20480;

/// The descriptor of a 64-bit kernel code segment.
pub const KERNEL_CODE_DESCRIPTOR: u64 = 0x00af_9b00_0000_ffff;

/// `x86_64::structures::tss::TaskStateSegment`, carried as it is.
#[verifier::external_type_specification]
#[verifier::external_body]
pub struct ExTaskStateSegment(TaskStateSegment);

/// `x86_64::structures::gdt::GlobalDescriptorTable`, carried as it is.
#[verifier::external_type_specification]
#[verifier::external_body]
pub struct ExGlobalDescriptorTable(GlobalDescriptorTable);

/// `x86_64::structures::gdt::Descriptor`, carried as it is.
#[verifier::external_type_specification]
#[verifier::external_body]
pub struct ExDescriptor(Descriptor);

/// The seven stack pointers of the interrupt-stack table of a task state.
pub uninterp spec fn interrupt_stacks(tss: TaskStateSegment) -> Seq<u64>;

/// The 64-bit slots of a descriptor table that are in use, the null slot
/// first.
pub uninterp spec fn descriptor_table_slots(gdt: GlobalDescriptorTable) -> Seq<u64>;

/// The one or two 64-bit words of a descriptor.
pub uninterp spec fn descriptor_words(descriptor: Descriptor) -> Seq<u64>;

/// Privilege level encoded in the first word of a descriptor.
pub open spec fn descriptor_privilege(word: u64) -> u16 {
    ((word >> 45) & 3) as u16
}

/// The selector of the descriptor in slot `index` at privilege `level`.
pub open spec fn selector(index: int, level: u16) -> u16 {
    ((index as u16) << 3) | level
}

/// `TaskStateSegment::new`: a task state whose interrupt-stack table holds
/// seven null pointers.
#[verifier::external_body]
fn tss_new() -> (tss: TaskStateSegment)
    ensures
        interrupt_stacks(tss) == Seq::new(7, |i: int| 0u64),
{
    TaskStateSegment::new()
}

/// Stores `VirtAddr::new(top)` in slot `index` of the public field
/// `interrupt_stack_table`; the other slots keep their pointers. The address
/// is stored as given because it is canonical.
#[verifier::external_body]
fn tss_set_interrupt_stack(tss: &mut TaskStateSegment, index: usize, top: u64)
    requires
        index < 7,
        is_canonical(top),
    ensures
        interrupt_stacks(*final(tss)) == interrupt_stacks(*old(tss)).update(index as int, top),
{
    tss.interrupt_stack_table[index] = x86_64::VirtAddr::new(top);
}

/// Reads slot `index` of the public field `interrupt_stack_table`.
#[verifier::external_body]
fn tss_interrupt_stack(tss: &TaskStateSegment, index: usize) -> (top: u64)
    requires
        index < 7,
    ensures
        top == interrupt_stacks(*tss)[index as int],
{
    let table = tss.interrupt_stack_table;
    table[index].as_u64()
}

/// `GlobalDescriptorTable::new`: a table that holds the null descriptor
/// alone.
#[verifier::external_body]
fn gdt_new() -> (gdt: GlobalDescriptorTable)
    ensures
        descriptor_table_slots(gdt) == seq![0u64],
{
    GlobalDescriptorTable::new()
}

/// `Descriptor::kernel_code_segment`: the one-word descriptor of a 64-bit
/// kernel code segment.
#[verifier::external_body]
fn kernel_code_segment() -> (descriptor: Descriptor)
    ensures
        descriptor_words(descriptor) == seq![KERNEL_CODE_DESCRIPTOR],
{
    Descriptor::kernel_code_segment()
}

/// `Descriptor::tss_segment`: a two-word system descriptor at privilege
/// level 0. The first word holds the limit 0x67 in its low 16 bits and, in
/// bits 40 to 47, the type of an available 64-bit task state with the
/// present bit; bits 48 to 55 are clear, and so is the upper half of the
/// second word. The other bits hold the address of `tss`, so nothing is
/// said of them.
#[verifier::external_body]
fn tss_segment(tss: &'static TaskStateSegment) -> (descriptor: Descriptor)
    ensures
        descriptor_words(descriptor).len() == 2,
        descriptor_privilege(descriptor_words(descriptor)[0]) == 0,
        descriptor_words(descriptor)[0] & 0xffff == 0x67,
        (descriptor_words(descriptor)[0] >> 40) & 0xff == 0x89,
        (descriptor_words(descriptor)[0] >> 48) & 0xff == 0,
        descriptor_words(descriptor)[1] >> 32 == 0,
{
    Descriptor::tss_segment(tss)
}

/// `GlobalDescriptorTable::add_entry`: appends the words of the descriptor
/// to the table and returns the selector of its first slot, at the privilege
/// level of the descriptor. The table must have room for the words.
#[verifier::external_body]
fn gdt_add_entry(gdt: &mut GlobalDescriptorTable, descriptor: Descriptor) -> (bits: u16)
    requires
        descriptor_table_slots(*old(gdt)).len() + descriptor_words(descriptor).len() <= 8,
    ensures
        descriptor_table_slots(*final(gdt)) == descriptor_table_slots(*old(gdt)) + descriptor_words(
            descriptor,
        ),
        bits == selector(
            descriptor_table_slots(*old(gdt)).len() as int,
            descriptor_privilege(descriptor_words(descriptor)[0]),
        ),
{
    gdt.add_entry(descriptor).0
}

/// Reads the slots of the table that are in use (`as_raw_slice`).
#[verifier::external_body]
fn gdt_slots(gdt: &GlobalDescriptorTable) -> (slots: Vec<u64>)
    ensures
        slots@ == descriptor_table_slots(*gdt),
{
    gdt.as_raw_slice().to_vec()
}

/// The selectors that the segment and task registers are loaded with.
#[derive(Debug, Clone, Copy, PartialEq, Eq, Structural)]
pub struct Selectors {
    pub code_selector: u16,
    pub tss_selector: u16,
}

/// One load of a segment-related register.
#[derive(Debug, Clone, Copy, PartialEq, Eq, Structural)]
pub enum SegmentLoad {
    /// Load the descriptor-table register with the table.
    DescriptorTable,
    /// Reload the code-segment register with the selector.
    CodeSegment(u16),
    /// Load the task register with the selector.
    TaskRegister(u16),
}

/// Top of the double-fault stack that starts at `stack_start`: the address
/// just above its five pages, where the stack pointer begins.
pub fn double_fault_stack_top(stack_start: u64) -> (top: u64)
    requires
        stack_start + STACK_SIZE <= u64::MAX,
    ensures
        top == stack_start + 5 * 4096,
{
    stack_start + STACK_SIZE
}

/// Builds the task state: slot `DOUBLE_FAULT_IST_INDEX` of its
/// interrupt-stack table points at the top of the stack that starts at
/// `stack_start`, every other slot is null.
pub fn task_state(stack_start: u64) -> (tss: TaskStateSegment)
    requires
        stack_start + STACK_SIZE <= u64::MAX,
        is_canonical((stack_start + STACK_SIZE) as u64),
    ensures
        interrupt_stacks(tss) == Seq::new(7, |i: int| 0u64).update(
            DOUBLE_FAULT_IST_INDEX as int,
            (stack_start + STACK_SIZE) as u64,
        ),
{
    let mut tss = tss_new();
    tss_set_interrupt_stack(&mut tss, DOUBLE_FAULT_IST_INDEX as usize, double_fault_stack_top(stack_start));
    tss
}

/// The stack pointer in slot `index` of the interrupt-stack table, or
/// nothing where the table has no such slot.
pub fn interrupt_stack(tss: &TaskStateSegment, index: u16) -> (top: Option<u64>)
    ensures
        top == if index < 7 {
            Some(interrupt_stacks(*tss)[index as int])
        } else {
            None
        },
{
    if index < 7 {
        Some(tss_interrupt_stack(tss, index as usize))
    } else {
        None
    }
}

/// Builds the descriptor table for `tss`: the null descriptor, the kernel
/// code segment, then the two words of the task-state descriptor (limit
/// 0x67, present, of the type of an available 64-bit task state). Returns it
/// with the selectors of the code segment (slot 1) and of the task state
/// (slot 2), both at privilege level 0.
pub fn descriptor_table(tss: &'static TaskStateSegment) -> (r: (GlobalDescriptorTable, Selectors))
    ensures
        r.1 == (Selectors { code_selector: 8, tss_selector: 16 }),
        descriptor_table_slots(r.0).len() == 4,
        descriptor_table_slots(r.0)[0] == 0,
        descriptor_table_slots(r.0)[1] == KERNEL_CODE_DESCRIPTOR,
        descriptor_table_slots(r.0)[2] & 0xffff == 0x67,
        (descriptor_table_slots(r.0)[2] >> 40) & 0xff == 0x89,
        (descriptor_table_slots(r.0)[2] >> 48) & 0xff == 0,
        descriptor_table_slots(r.0)[3] >> 32 == 0,
{
    let mut gdt = gdt_new();
    let code_selector = gdt_add_entry(&mut gdt, kernel_code_segment());
    let tss_selector = gdt_add_entry(&mut gdt, tss_segment(tss));
    proof {
        assert((0x00af_9b00_0000_ffffu64 >> 45) & 3 == 0) by (bit_vector);
        assert((1u16 << 3) | 0u16 == 8u16 && (2u16 << 3) | 0u16 == 16u16) by (bit_vector);
    }
    (gdt, Selectors { code_selector, tss_selector })
}

/// The slots of the table that are in use.
pub fn descriptor_slots(gdt: &GlobalDescriptorTable) -> (slots: Vec<u64>)
    ensures
        slots@ == descriptor_table_slots(*gdt),
{
    gdt_slots(gdt)
}

/// The register loads that bring the segment layer up, in the order in which
/// they must be performed: the descriptor table, then the code segment, then
/// the task register.
pub fn init(selectors: Selectors) -> (loads: [SegmentLoad; 3])
    ensures
        loads@ == seq![
            SegmentLoad::DescriptorTable,
            SegmentLoad::CodeSegment(selectors.code_selector),
            SegmentLoad::TaskRegister(selectors.tss_selector),
        ],
{
    [
        SegmentLoad::DescriptorTable,
        SegmentLoad::CodeSegment(selectors.code_selector),
        SegmentLoad::TaskRegister(selectors.tss_selector),
    ]
}

} // verus!
