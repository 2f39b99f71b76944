use vstd::prelude::*;

verus! {

/// Indicates the operation the target would like the debugger to perform.
#[derive(Debug, PartialEq, Eq, Copy, Clone, Structural)]
pub enum SemihostingCommand {
    /// The target indicates that it completed successfully and no longer
    /// wishes to run.
    ExitSuccess,
    /// The target indicates that it completed unsuccessfully, with an
    /// architecture- or application-specific exit code, and no longer wishes
    /// to run.
    ExitError {
        /// The exit code the target reported.
        code: u64,
    },
    /// The target requested a semihosting operation that is not supported.
    Unknown {
        /// The semihosting operation requested.
        operation: u32,
    },
}

/// The semihosting operation number of SYS_EXIT.
pub const SYS_EXIT: u32 = 0x18;

/// The SYS_EXIT parameter that reports a normal application exit
/// (ADP_Stopped_ApplicationExit).
pub const SYS_EXIT_ADP_STOPPED_APPLICATION_EXIT: u32 = 0x20026;

/// Decode a semihosting syscall. Only SYS_EXIT is supported at the moment:
/// every other operation decodes to `Unknown`.
pub fn decode_semihosting_syscall(operation: u32, parameter: u32) -> (r: SemihostingCommand)
    ensures
        operation == SYS_EXIT && parameter == SYS_EXIT_ADP_STOPPED_APPLICATION_EXIT
            ==> r == SemihostingCommand::ExitSuccess,
        operation == SYS_EXIT && parameter != SYS_EXIT_ADP_STOPPED_APPLICATION_EXIT
            ==> r == (SemihostingCommand::ExitError { code: parameter as u64 }),
        operation != SYS_EXIT ==> r == (SemihostingCommand::Unknown { operation }),
{
    if operation == SYS_EXIT {
        if parameter == SYS_EXIT_ADP_STOPPED_APPLICATION_EXIT {
            SemihostingCommand::ExitSuccess
        } else {
            SemihostingCommand::ExitError { code: parameter as u64 }
        }
    } else {
        SemihostingCommand::Unknown { operation }
    }
}

} // verus!
