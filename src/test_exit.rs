//! The status codes a test run reports to its host through the exit port.

use vstd::prelude::*;

verus! {

/// The I/O port the host watches for a test run's status.
pub const EXIT_PORT: u16 = 0xf4;

/// The two outcomes a test run can report.
#[derive(Debug, Clone, Copy, PartialEq, Eq, Structural)]
pub enum QemuExitCode {
    Success,
    Failed,
}

impl QemuExitCode {
    /// The value written to the exit port.
    pub fn code(self) -> (r: u32)
        ensures
            self == QemuExitCode::Success ==> r == 0x10,
            self == QemuExitCode::Failed ==> r == 0x11,
    {
        match self {
            QemuExitCode::Success => 0x10,
            QemuExitCode::Failed => 0x11,
        }
    }

    /// The outcome of a run with the given number of failed cases.
    pub fn for_failures(failed: usize) -> (r: QemuExitCode)
        ensures
            r == QemuExitCode::Success <==> failed == 0,
    {
        if failed == 0 {
            QemuExitCode::Success
        } else {
            QemuExitCode::Failed
        }
    }
}

} // verus!
