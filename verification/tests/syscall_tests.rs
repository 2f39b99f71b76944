use rtt_com::syscall::{decode_semihosting_syscall, SemihostingCommand};

#[test]
fn decode_sys_exit_success() {
    assert_eq!(
        decode_semihosting_syscall(0x18, 0x20026),
        SemihostingCommand::ExitSuccess
    );
}

#[test]
fn decode_sys_exit_error_code() {
    assert_eq!(
        decode_semihosting_syscall(0x18, 0x1),
        SemihostingCommand::ExitError { code: 1 }
    );
}

#[test]
fn decode_unknown_operation() {
    assert_eq!(
        decode_semihosting_syscall(0x99, 0x0),
        SemihostingCommand::Unknown { operation: 0x99 }
    );
}

#[test]
fn decode_sys_exit_zero_parameter_is_error() {
    assert_eq!(
        decode_semihosting_syscall(0x18, 0x0),
        SemihostingCommand::ExitError { code: 0 }
    );
}
