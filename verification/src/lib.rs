//! The core of a small kernel for one 64-bit processor: physical frames and
//! their allocation, the four-level page tables, the heap window, the
//! segment and task-state layer, and the interrupt vector table with its
//! handlers. Whatever touches the machine itself (privileged instructions,
//! ports, memory-mapped devices) is left to the caller, who is told what to
//! do and in which order.

pub mod allocator;
pub mod gdt;
pub mod host_memory;
pub mod interrupts;
pub mod memory;
pub mod paging;
pub mod vga_buffer;

use vstd::prelude::*;
use vstd::string::StringSliceAdditionalSpecFns;

verus! {

/// Port of the emulator's exit device.
pub const QEMU_IOBASE: u16 = 0xf4;

/// Status reported to the hosting emulator when a diagnostic run ends.
#[derive(Debug, Clone, Copy, PartialEq, Eq, Structural)]
pub enum QemuExitCode {
    Success,
    Failure,
}

impl QemuExitCode {
    /// The 32-bit status word that stands for this outcome.
    pub open spec fn status(self) -> u32 {
        match self {
            QemuExitCode::Success => 0x10,
            QemuExitCode::Failure => 0x11,
        }
    }

    /// The 32-bit status word that stands for this outcome.
    pub fn code(self) -> (c: u32)
        ensures
            c == self.status(),
    {
        match self {
            QemuExitCode::Success => 0x10,
            QemuExitCode::Failure => 0x11,
        }
    }
}

/// One 32-bit write to an I/O port.
#[derive(Debug, Clone, Copy, PartialEq, Eq, Structural)]
pub struct PortWrite {
    pub port: u16,
    pub value: u32,
}

/// The port write that ends the hosting emulator with `exit_code`.
pub fn qemu_close(exit_code: QemuExitCode) -> (write: PortWrite)
    ensures
        write == (PortWrite { port: 0xf4, value: exit_code.status() }),
{
    PortWrite { port: QEMU_IOBASE, value: exit_code.code() }
}

/// How far the bring-up of the interrupt machinery has come.
#[derive(Debug, Clone, Copy, PartialEq, Eq, Structural)]
pub enum BootStage {
    /// Nothing is set up.
    Reset,
    /// The descriptor table and the task state are loaded.
    SegmentsLoaded,
    /// The vector table is loaded as well.
    InterruptTableLoaded,
    /// The interrupt controllers are remapped as well.
    ControllersRemapped,
    /// Hardware interrupts are enabled: the bring-up is complete.
    InterruptsEnabled,
}

/// One step of the bring-up.
#[derive(Debug, Clone, Copy, PartialEq, Eq, Structural)]
pub enum BootStep {
    /// Load the descriptor table, the code segment and the task register.
    LoadSegments,
    /// Load the vector table.
    LoadInterruptTable,
    /// Initialise the two interrupt controllers with their offsets.
    RemapControllers,
    /// Set the interrupt-enable flag of the processor.
    EnableInterrupts,
}

impl BootStage {
    /// Number of steps that have been performed.
    pub open spec fn rank(self) -> nat {
        match self {
            BootStage::Reset => 0,
            BootStage::SegmentsLoaded => 1,
            BootStage::InterruptTableLoaded => 2,
            BootStage::ControllersRemapped => 3,
            BootStage::InterruptsEnabled => 4,
        }
    }

    /// The step to perform next, and the stage that it leads to.
    pub open spec fn next(self) -> Option<(BootStep, BootStage)> {
        match self {
            BootStage::Reset => Some((BootStep::LoadSegments, BootStage::SegmentsLoaded)),
            BootStage::SegmentsLoaded => Some(
                (BootStep::LoadInterruptTable, BootStage::InterruptTableLoaded),
            ),
            BootStage::InterruptTableLoaded => Some(
                (BootStep::RemapControllers, BootStage::ControllersRemapped),
            ),
            BootStage::ControllersRemapped => Some(
                (BootStep::EnableInterrupts, BootStage::InterruptsEnabled),
            ),
            BootStage::InterruptsEnabled => None,
        }
    }

    /// Whether the task state with the double-fault stack is loaded.
    pub open spec fn segments_loaded(self) -> bool {
        self.rank() >= 1
    }

    /// Whether the vector table is loaded.
    pub open spec fn interrupt_table_loaded(self) -> bool {
        self.rank() >= 2
    }

    /// Whether hardware interrupts are enabled.
    pub open spec fn interrupts_enabled(self) -> bool {
        self.rank() >= 4
    }
}

/// The bring-up of the interrupt machinery, one step at a call: in stage
/// `stage`, returns the step to perform and the stage that is reached once
/// it has been performed, or nothing when the bring-up is complete. The
/// segments come first, then the vector table, then the controllers, and
/// interrupts are enabled last.
pub fn init(stage: BootStage) -> (next: Option<(BootStep, BootStage)>)
    ensures
        next == stage.next(),
        next matches Some((_, reached)) ==> reached.rank() == stage.rank() + 1,
{
    match stage {
        BootStage::Reset => Some((BootStep::LoadSegments, BootStage::SegmentsLoaded)),
        BootStage::SegmentsLoaded => Some(
            (BootStep::LoadInterruptTable, BootStage::InterruptTableLoaded),
        ),
        BootStage::InterruptTableLoaded => Some(
            (BootStep::RemapControllers, BootStage::ControllersRemapped),
        ),
        BootStage::ControllersRemapped => Some(
            (BootStep::EnableInterrupts, BootStage::InterruptsEnabled),
        ),
        BootStage::InterruptsEnabled => None,
    }
}

/// Order of the bring-up. From reset, the steps come in one order only:
/// segments, vector table, controllers, interrupts; so the vector table is
/// never loaded before the task state that holds the double-fault stack, and
/// interrupts are never enabled before the vector table is loaded and the
/// controllers are remapped.
pub proof fn lemma_boot_order()
    ensures
        BootStage::Reset.next() == Some((BootStep::LoadSegments, BootStage::SegmentsLoaded)),
        forall|stage: BootStage, reached: BootStage|
            #![trigger stage.next(), reached.rank()]
            stage.next() == Some((BootStep::LoadInterruptTable, reached))
                ==> stage.segments_loaded(),
        forall|stage: BootStage, reached: BootStage|
            #![trigger stage.next(), reached.rank()]
            stage.next() == Some((BootStep::EnableInterrupts, reached))
                ==> stage.interrupt_table_loaded() && stage.rank() == 3,
        forall|stage: BootStage|
            (#[trigger] stage.next()) is None <==> stage.interrupts_enabled(),
{
}

/// A diagnostic routine that the test runner can run and name.
pub trait Testable {
    /// Runs the routine and reports on it under its name, padded to `width`
    /// columns.
    fn run(&self, width: usize);

    /// The name of the routine.
    fn name(&self) -> &'static str;
}

/// The larger of `width` and the length of `name` in bytes: the column width
/// that fits `name` as well.
pub fn wider(width: usize, name: &str) -> (w: usize)
    ensures
        w == if name.spec_bytes().len() > width {
            name.spec_bytes().len()
        } else {
            width as nat
        },
{
    let len = name.as_bytes().len();
    if len > width {
        len
    } else {
        width
    }
}

/// Length in bytes of the longest of `names`, zero for none.
pub open spec fn max_name_len(names: Seq<&str>) -> nat
    decreases names.len(),
{
    if names.len() == 0 {
        0
    } else {
        let rest = max_name_len(names.drop_last());
        let last = names.last().spec_bytes().len();
        if last > rest {
            last
        } else {
            rest
        }
    }
}

/// The column width that fits every one of `names`: the length in bytes of
/// the longest.
pub fn column_width(names: &[&str]) -> (width: usize)
    ensures
        width == max_name_len(names@),
{
    let mut width: usize = 0;
    let mut i: usize = 0;
    while i < names.len()
        invariant
            0 <= i <= names@.len(),
            width == max_name_len(names@.take(i as int)),
        decreases names@.len() - i,
    {
        proof {
            assert(names@.take(i + 1).drop_last() =~= names@.take(i as int));
            assert(names@.take(i + 1).last() == names@[i as int]);
        }
        width = wider(width, names[i]);
        i = i + 1;
    }
    proof {
        assert(names@.take(i as int) =~= names@);
    }
    width
}

/// What a run of the diagnostics came to.
#[derive(Debug, Clone, Copy, PartialEq, Eq, Structural)]
pub struct TestRun {
    /// Number of routines that were run.
    pub count: usize,
    /// Column width that the names were padded to.
    pub width: usize,
    /// The port write that reports the outcome.
    pub exit: PortWrite,
}

/// Asks every routine of `tests` for its name, takes the column width that
/// fits all the names, then runs the routines in order, each with that
/// column width, and returns the port write that reports success to the
/// emulator. Without routines the width is zero.
pub fn test_runner(tests: &[&dyn Testable]) -> (run: TestRun)
    ensures
        run.count == tests@.len(),
        tests@.len() == 0 ==> run.width == 0,
        run.exit == (PortWrite { port: 0xf4, value: 0x10 }),
{
    let mut names: Vec<&'static str> = Vec::new();
    let mut i: usize = 0;
    while i < tests.len()
        invariant
            0 <= i <= tests@.len(),
            names@.len() == i,
        decreases tests@.len() - i,
    {
        names.push(tests[i].name());
        i = i + 1;
    }
    let width = column_width(names.as_slice());
    let mut j: usize = 0;
    while j < tests.len()
        invariant
            0 <= j <= tests@.len(),
        decreases tests@.len() - j,
    {
        tests[j].run(width);
        j = j + 1;
    }
    TestRun { count: tests.len(), width, exit: qemu_close(QemuExitCode::Success) }
}

/// What follows a failed diagnostic: the line that marks the failure, and
/// the port write that reports it to the emulator.
pub struct TestFailure {
    pub banner: &'static str,
    pub exit: PortWrite,
}

/// The response to a panic during a diagnostic run.
pub fn test_panic_handler() -> (failure: TestFailure)
    ensures
        failure.banner@ == "\x1b[31m[failed]\x1b[0m\n"@,
        failure.exit == (PortWrite { port: 0xf4, value: 0x11 }),
{
    TestFailure { banner: "\x1b[31m[failed]\x1b[0m\n", exit: qemu_close(QemuExitCode::Failure) }
}

} // verus!
