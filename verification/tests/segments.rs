use ferrix::gdt::{
    descriptor_slots, descriptor_table, double_fault_stack_top, init, interrupt_stack, task_state,
    SegmentLoad, Selectors, DOUBLE_FAULT_IST_INDEX, KERNEL_CODE_DESCRIPTOR, PAGE_SIZE, STACK_SIZE,
};
use x86_64::structures::tss::TaskStateSegment;

fn leak(tss: TaskStateSegment) -> &'static TaskStateSegment {
    Box::leak(Box::new(tss))
}

#[test]
fn double_fault_stack_is_five_pages() {
    assert_eq!(DOUBLE_FAULT_IST_INDEX, 0);
    assert_eq!(STACK_SIZE, 5 * PAGE_SIZE as u64);
    assert_eq!(double_fault_stack_top(0x20_0000), 0x20_5000);
    assert_eq!(double_fault_stack_top(0), 20480);
}

#[test]
fn task_state_points_slot_zero_at_the_stack_top() {
    let tss = task_state(0x20_0000);
    assert_eq!(interrupt_stack(&tss, 0), Some(0x20_5000));
    for index in 1..7 {
        assert_eq!(interrupt_stack(&tss, index), Some(0));
    }
    assert_eq!(interrupt_stack(&tss, 7), None);
    let table = tss.interrupt_stack_table;
    assert_eq!(table[0].as_u64(), 0x20_5000);
    let privilege = tss.privilege_stack_table;
    assert!(privilege.iter().all(|top| top.as_u64() == 0));
}

#[test]
fn task_state_accepts_a_stack_in_the_upper_half() {
    let tss = task_state(0xffff_8000_0000_0000);
    assert_eq!(interrupt_stack(&tss, 0), Some(0xffff_8000_0000_5000));
}

#[test]
fn descriptor_table_holds_null_code_and_task_state() {
    let tss = leak(task_state(0x20_0000));
    let (gdt, selectors) = descriptor_table(tss);
    assert_eq!(selectors, Selectors { code_selector: 8, tss_selector: 16 });
    let slots = descriptor_slots(&gdt);
    assert_eq!(slots.len(), 4);
    assert_eq!(slots[0], 0);
    assert_eq!(slots[1], KERNEL_CODE_DESCRIPTOR);
    assert_eq!(slots[1], 0x00af_9b00_0000_ffff);
    assert_eq!(gdt.as_raw_slice(), slots.as_slice());
    let shown = format!("{:p}", tss);
    let address = u64::from_str_radix(shown.trim_start_matches("0x"), 16).expect("an address");
    assert_eq!(slots[3], address >> 32);
    assert_eq!(slots[2] & 0xffff, 0x67);
    assert_eq!((slots[2] >> 40) & 0xff, 0x89);
    assert_eq!((slots[2] >> 48) & 0xff, 0);
    assert_eq!(slots[3] >> 32, 0);
    assert_eq!((slots[2] >> 40) & 0xf, 0b1001);
    assert_eq!((slots[2] >> 45) & 3, 0);
    assert_ne!(slots[2] & (1 << 47), 0);
    assert_eq!((slots[2] >> 16) & 0xff_ffff, address & 0xff_ffff);
}

#[test]
fn segment_registers_are_loaded_in_order() {
    let loads = init(Selectors { code_selector: 8, tss_selector: 16 });
    assert_eq!(
        loads,
        [SegmentLoad::DescriptorTable, SegmentLoad::CodeSegment(8), SegmentLoad::TaskRegister(16)]
    );
}
