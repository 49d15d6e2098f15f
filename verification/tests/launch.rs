use causal::replay::{suppressed_number, NO_SYSCALL, SUPPRESSED_RESULT};
use causal::signals::{
    SIGCONT, SIGKILL, SIGSTOP, SIGTRAP, SIGTSTP, SIGTTIN, SIGTTOU, SI_TKILL, SI_USER, SYSCALL_STOP,
};
use causal::status::{decode_status, WaitStatus};
use causal::tracer::{
    check_memory_written, decode_launch_error, exec_error, format_errno, is_gone, launch_step,
    startup_error, LaunchErrorPayload, LaunchState, PTRACE_EVENT_EXEC, STAGE_EXEC,
    STAGE_STARTUP_STOP, STAGE_TRACEME,
};
use causal::trace::{is_mapping_syscall, is_substituted_syscall, substituted_syscall_name};

#[test]
fn numbers_are_those_of_the_system() {
    assert_eq!(SIGTRAP, libc::SIGTRAP);
    assert_eq!(SIGKILL, libc::SIGKILL);
    assert_eq!(SIGCONT, libc::SIGCONT);
    assert_eq!(SIGSTOP, libc::SIGSTOP);
    assert_eq!(SIGTSTP, libc::SIGTSTP);
    assert_eq!(SIGTTIN, libc::SIGTTIN);
    assert_eq!(SIGTTOU, libc::SIGTTOU);
    assert_eq!(SI_USER, libc::SI_USER);
    assert_eq!(SI_TKILL, libc::SI_TKILL);
    assert_eq!(SYSCALL_STOP, libc::SIGTRAP | 0x80);
    assert_eq!(PTRACE_EVENT_EXEC, libc::PTRACE_EVENT_EXEC);
    assert_eq!(SUPPRESSED_RESULT, -(libc::ENOSYS as i64));
    assert_eq!(NO_SYSCALL, u64::MAX);
}

#[test]
fn statuses_are_told_apart() {
    assert_eq!(decode_status(42 << 8), WaitStatus::Exited(42));
    assert_eq!(decode_status(15), WaitStatus::Signaled(15));
    assert_eq!(decode_status(11 | 0x80), WaitStatus::Signaled(11));
    assert_eq!(
        decode_status((0x85 << 8) | 0x7f),
        WaitStatus::Stopped { signal: 0x85, event: 0 }
    );
    assert_eq!(
        decode_status((4 << 16) | (5 << 8) | 0x7f),
        WaitStatus::Stopped { signal: 5, event: 4 }
    );
    assert_eq!(decode_status(0xffff), WaitStatus::Other);
    assert_eq!(
        decode_status((-1 << 16) | (5 << 8) | 0x7f),
        WaitStatus::Stopped { signal: 5, event: 0xffff_ffff }
    );
    assert!(is_gone(0));
    assert!(is_gone(9));
    assert!(!is_gone((19 << 8) | 0x7f));
    assert!(!is_gone(0xffff));
}

#[test]
fn a_launch_goes_from_startup_stop_to_exec_event() {
    let state = launch_step(
        LaunchState::AwaitingStartupStop,
        7,
        "prog",
        (libc::SIGSTOP << 8) | 0x7f,
        None,
    )
    .unwrap();
    assert_eq!(state, LaunchState::AwaitingExec);
    let state = launch_step(state, 7, "prog", (4 << 16) | (libc::SIGTRAP << 8) | 0x7f, None).unwrap();
    assert_eq!(state, LaunchState::Running);
}

#[test]
fn a_launch_that_stops_oddly_fails() {
    assert_eq!(
        launch_step(LaunchState::AwaitingStartupStop, 7, "prog", 127 << 8, None).unwrap_err(),
        "unexpected initial stop state for pid 7 in state AwaitingStartupStop: raw status=0x7f00, WIFSTOPPED=false, WSTOPSIG=127, WIFEXITED=true, WIFSIGNALED=false"
    );
    assert_eq!(
        launch_step(LaunchState::AwaitingExec, 7, "prog", 9, None).unwrap_err(),
        "failed to observe PTRACE_EVENT_EXEC for pid 7 in state AwaitingExec: raw status=0x9, WIFSTOPPED=false, WSTOPSIG=0, event=0"
    );
}

#[test]
fn a_launch_error_is_reported_in_words() {
    let missing = LaunchErrorPayload { stage: STAGE_EXEC, errno: libc::ENOENT };
    assert_eq!(
        launch_step(LaunchState::AwaitingExec, 7, "/no/such", 127 << 8, Some(missing)).unwrap_err(),
        format!("launch failed: exec failed for '/no/such': {}", format_errno(libc::ENOENT))
    );
    assert!(format_errno(libc::ENOENT).contains("No such file or directory"));
    assert!(format_errno(libc::EACCES).contains("Permission denied"));
    let refused = LaunchErrorPayload { stage: STAGE_TRACEME, errno: libc::EPERM };
    assert_eq!(
        launch_step(LaunchState::AwaitingStartupStop, 7, "prog", 127 << 8, Some(refused))
            .unwrap_err(),
        format!("PTRACE_TRACEME failed in child: {}", format_errno(libc::EPERM))
    );
}

#[test]
fn launch_error_texts_by_stage() {
    assert_eq!(startup_error(STAGE_TRACEME, "p", "why"), "PTRACE_TRACEME failed in child: why");
    assert_eq!(
        startup_error(STAGE_STARTUP_STOP, "p", "why"),
        "startup SIGSTOP failed in child: why"
    );
    assert_eq!(startup_error(STAGE_EXEC, "p", "why"), "exec failed for 'p': why");
    assert_eq!(startup_error(9, "p", "why"), "unknown child startup stage 9 failure: why");
    assert_eq!(exec_error(STAGE_TRACEME, "p", "why"), "launch failed: PTRACE_TRACEME failed: why");
    assert_eq!(
        exec_error(STAGE_STARTUP_STOP, "p", "why"),
        "launch failed: startup SIGSTOP failed: why"
    );
    assert_eq!(exec_error(STAGE_EXEC, "p", "why"), "launch failed: exec failed for 'p': why");
    assert_eq!(exec_error(9, "p", "why"), "launch failed at stage 9: why");
}

#[test]
fn a_launch_error_takes_eight_bytes() {
    let mut bytes = Vec::new();
    bytes.extend_from_slice(&STAGE_EXEC.to_le_bytes());
    bytes.extend_from_slice(&(-2_i32).to_le_bytes());
    assert_eq!(
        decode_launch_error(&bytes),
        Some(LaunchErrorPayload { stage: STAGE_EXEC, errno: -2 })
    );
    assert_eq!(decode_launch_error(&bytes[..7]), None);
    assert_eq!(decode_launch_error(&[]), None);
}

#[test]
fn only_the_expected_syscall_is_suppressed() {
    assert_eq!(suppressed_number(5, 39, 39), Ok(u64::MAX));
    assert_eq!(
        suppressed_number(5, 0, 39).unwrap_err(),
        "replay invariant violation: regs.orig_rax (39) != SYS_read (0) at syscall enter for pid 5"
    );
}

#[test]
fn short_writes_are_reported() {
    assert!(check_memory_written(5, 10, 10).is_ok());
    assert_eq!(
        check_memory_written(5, 10, 4).unwrap_err(),
        "process_vm_writev short transfer for pid 5: requested 10 bytes, wrote 4"
    );
}

#[test]
fn syscalls_of_interest() {
    assert!(is_substituted_syscall(0));
    assert!(is_substituted_syscall(39));
    assert!(!is_substituted_syscall(1));
    assert_eq!(substituted_syscall_name(0), "SYS_read");
    assert_eq!(substituted_syscall_name(39), "SYS_getpid");
    for number in [9, 10, 11, 12] {
        assert!(is_mapping_syscall(number));
    }
    assert!(!is_mapping_syscall(13));
}
