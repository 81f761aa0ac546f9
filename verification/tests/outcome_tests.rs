use dry_exec_core::error::BoundaryExitStatus;
use dry_exec_core::outcome::{
    classify_failure, exit_status_failure, reported_exit_code, sandbox_exit_failure, FailureClass,
};

#[test]
fn exit_statuses_report_their_failure_text() {
    assert_eq!(exit_status_failure(&BoundaryExitStatus::Exited(0)), None);
    assert_eq!(
        exit_status_failure(&BoundaryExitStatus::Exited(3)).as_deref(),
        Some("Process exited with status code 3")
    );
    assert_eq!(
        exit_status_failure(&BoundaryExitStatus::Exited(-1)).as_deref(),
        Some("Process exited with status code -1")
    );
    assert_eq!(
        exit_status_failure(&BoundaryExitStatus::Signaled(9)).as_deref(),
        Some("Process terminated by signal: 9")
    );
    assert_eq!(
        exit_status_failure(&BoundaryExitStatus::SyscallViolation { syscall_nr: 41, instruction_pointer: 4198400 })
            .as_deref(),
        Some("SYSCALL_VIOLATION:41:4198400")
    );
}

#[test]
fn sandboxed_exit_codes_report_their_failure_text() {
    assert_eq!(sandbox_exit_failure(false, 0), None);
    assert_eq!(sandbox_exit_failure(false, 126), None);
    assert_eq!(sandbox_exit_failure(true, 0), None);
    assert_eq!(sandbox_exit_failure(true, 126).as_deref(), Some("SYSCALL_VIOLATION:1:0"));
    assert_eq!(sandbox_exit_failure(true, 2).as_deref(), Some("Process exited with status code 2"));
    assert_eq!(sandbox_exit_failure(false, 137).as_deref(), Some("Process exited with status code 137"));
}

#[test]
fn failure_texts_map_to_exception_classes() {
    assert_eq!(
        classify_failure("SYSCALL_VIOLATION:41:4198400"),
        FailureClass::SyscallViolation { syscall_nr: 41, instruction_pointer: 4198400 }
    );
    assert_eq!(
        classify_failure("SYSCALL_VIOLATION:1:0"),
        FailureClass::SyscallViolation { syscall_nr: 1, instruction_pointer: 0 }
    );
    assert_eq!(
        classify_failure("SYSCALL_VIOLATION:x:+7:extra"),
        FailureClass::SyscallViolation { syscall_nr: 0, instruction_pointer: 7 }
    );
    assert_eq!(
        classify_failure("SYSCALL_VIOLATION:4294967296"),
        FailureClass::SyscallViolation { syscall_nr: 0, instruction_pointer: 0 }
    );
    assert_eq!(
        classify_failure("Delta computation error: IO error: denied"),
        FailureClass::DeltaComputation
    );
    assert_eq!(classify_failure("Execution boundary error: fork"), FailureClass::IsolationSetup);
    assert_eq!(classify_failure(""), FailureClass::IsolationSetup);
}

#[test]
fn waited_children_report_exit_code_or_signal() {
    assert_eq!(reported_exit_code(Some(0), None), 0);
    assert_eq!(reported_exit_code(Some(7), None), 7);
    assert_eq!(reported_exit_code(None, Some(9)), 137);
    assert_eq!(reported_exit_code(None, None), 1);
}

#[test]
fn failure_texts_of_exit_statuses_raise_their_exception_class() {
    let breach = BoundaryExitStatus::SyscallViolation { syscall_nr: 41, instruction_pointer: u64::MAX };
    assert_eq!(
        classify_failure(&exit_status_failure(&breach).unwrap()),
        FailureClass::SyscallViolation { syscall_nr: 41, instruction_pointer: u64::MAX }
    );
    assert_eq!(
        classify_failure(&exit_status_failure(&BoundaryExitStatus::Signaled(-9)).unwrap()),
        FailureClass::IsolationSetup
    );
    assert_eq!(
        classify_failure(&exit_status_failure(&BoundaryExitStatus::Exited(2)).unwrap()),
        FailureClass::IsolationSetup
    );
    assert_eq!(
        classify_failure(&sandbox_exit_failure(true, 126).unwrap()),
        FailureClass::SyscallViolation { syscall_nr: 1, instruction_pointer: 0 }
    );
}
