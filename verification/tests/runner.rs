use ferrix::{
    column_width, init, qemu_close, test_panic_handler, test_runner, wider, BootStage, BootStep,
    PortWrite, QemuExitCode, Testable, QEMU_IOBASE,
};
use std::cell::RefCell;

struct Routine<'a> {
    name: &'static str,
    log: &'a RefCell<Vec<(&'static str, usize)>>,
}

impl Testable for Routine<'_> {
    fn run(&self, width: usize) {
        self.log.borrow_mut().push((self.name, width));
    }

    fn name(&self) -> &'static str {
        self.name
    }
}

#[test]
fn exit_codes_are_distinct_words_on_the_exit_port() {
    assert_eq!(QEMU_IOBASE, 0xf4);
    assert_eq!(QemuExitCode::Success.code(), 0x10);
    assert_eq!(QemuExitCode::Failure.code(), 0x11);
    assert_eq!(qemu_close(QemuExitCode::Success), PortWrite { port: 0xf4, value: 0x10 });
    assert_eq!(qemu_close(QemuExitCode::Failure), PortWrite { port: 0xf4, value: 0x11 });
}

#[test]
fn runner_runs_every_routine_in_order_with_the_widest_name() {
    let log = RefCell::new(Vec::new());
    let a = Routine { name: "ferrix::tests::short", log: &log };
    let b = Routine { name: "ferrix::tests::the_longest_name", log: &log };
    let c = Routine { name: "x", log: &log };
    let tests: [&dyn Testable; 3] = [&a, &b, &c];
    let run = test_runner(&tests);
    assert_eq!(run.count, 3);
    assert_eq!(run.width, 31);
    assert_eq!(run.exit, PortWrite { port: 0xf4, value: 0x10 });
    assert_eq!(
        log.into_inner(),
        vec![
            ("ferrix::tests::short", 31),
            ("ferrix::tests::the_longest_name", 31),
            ("x", 31)
        ]
    );
}

#[test]
fn runner_without_routines_reports_success() {
    let tests: [&dyn Testable; 0] = [];
    let run = test_runner(&tests);
    assert_eq!(run.count, 0);
    assert_eq!(run.width, 0);
    assert_eq!(run.exit, qemu_close(QemuExitCode::Success));
}

#[test]
fn runner_counts_name_length_in_bytes() {
    let log = RefCell::new(Vec::new());
    let a = Routine { name: "né", log: &log };
    let tests: [&dyn Testable; 1] = [&a];
    assert_eq!(test_runner(&tests).width, 3);
}

#[test]
fn a_panic_is_reported_as_failure() {
    let failure = test_panic_handler();
    assert_eq!(failure.banner, "\x1b[31m[failed]\x1b[0m\n");
    assert_eq!(failure.exit, PortWrite { port: 0xf4, value: 0x11 });
}

#[test]
fn bring_up_goes_segments_table_controllers_interrupts() {
    let mut stage = BootStage::Reset;
    let mut steps = Vec::new();
    while let Some((step, reached)) = init(stage) {
        steps.push(step);
        stage = reached;
    }
    assert_eq!(
        steps,
        vec![
            BootStep::LoadSegments,
            BootStep::LoadInterruptTable,
            BootStep::RemapControllers,
            BootStep::EnableInterrupts
        ]
    );
    assert_eq!(stage, BootStage::InterruptsEnabled);
    assert_eq!(init(BootStage::InterruptsEnabled), None);
    assert_eq!(
        init(BootStage::SegmentsLoaded),
        Some((BootStep::LoadInterruptTable, BootStage::InterruptTableLoaded))
    );
}

#[test]
fn wider_keeps_the_larger_width() {
    assert_eq!(wider(0, ""), 0);
    assert_eq!(wider(0, "abc"), 3);
    assert_eq!(wider(5, "abc"), 5);
    assert_eq!(wider(3, "abc"), 3);
    assert_eq!(wider(2, "n\u{e9}"), 3);
}

#[test]
fn column_width_is_the_length_of_the_longest_name() {
    assert_eq!(column_width(&[]), 0);
    assert_eq!(column_width(&[""]), 0);
    assert_eq!(column_width(&["a", "abcd", "ab"]), 4);
    assert_eq!(column_width(&["abcd", "a"]), 4);
    assert_eq!(column_width(&["n\u{e9}", "ab"]), 3);
}
