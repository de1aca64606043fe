//! Support for running the kernel under an emulator: the exit codes the
//! emulated debug device understands. The port write that reports them
//! is the embedding program's side.

use vstd::prelude::*;

verus! {

/// Exit status reported to the emulator.
#[derive(Clone, Copy, PartialEq, Eq, Structural, Debug)]
pub enum QemuExitCode {
    Success,
    Failed,
}

impl QemuExitCode {
    /// The value written to the emulator's exit device.
    pub fn as_u32(self) -> (r: u32)
        ensures
            r == spec_exit_code(self),
    {
        match self {
            QemuExitCode::Success => 0x10,
            QemuExitCode::Failed => 0x11,
        }
    }
}

/// The wire value of an exit status.
pub open spec fn spec_exit_code(c: QemuExitCode) -> u32 {
    match c {
        QemuExitCode::Success => 0x10,
        QemuExitCode::Failed => 0x11,
    }
}

} // verus!
