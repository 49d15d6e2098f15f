//! The launch of a traced process, up to the point where it runs its program.
use vstd::prelude::*;
use vstd::string::*;
use crate::bytes::{read_u32, to_signed32, to_unsigned32};
use crate::signals::{SIGSTOP, SIGTRAP};
use crate::status::{WaitStatus, decode_status};
use crate::text::Line;
pub use crate::recorder::{PendingSyscall, TraceeTermination};

verus! {

/// The child could not ask to be traced.
pub const STAGE_TRACEME: u32 = 1;

/// The child could not stop itself.
pub const STAGE_STARTUP_STOP: u32 = 2;

/// The child could not run the program.
pub const STAGE_EXEC: u32 = 3;

/// The tracing event of a successful `execve`.
pub const PTRACE_EVENT_EXEC: i32 = 4;

/// How far the launch of a traced process has come.
#[derive(Debug, Clone, Copy, PartialEq, Eq, Structural)]
pub enum LaunchState {
    AwaitingStartupStop,
    AwaitingExec,
    Running,
}

/// What a child that failed to launch leaves behind: where it failed, and why.
#[derive(Debug, Clone, Copy, PartialEq, Eq, Structural)]
pub struct LaunchErrorPayload {
    pub stage: u32,
    pub errno: i32,
}

/// Calls `std::io::Error::from_raw_os_error` and renders the error. The text is the operating
/// system's; nothing is stated of it.
#[verifier::external_body]
pub fn format_errno(errno: i32) -> (s: String) {
    format!("{}", std::io::Error::from_raw_os_error(errno))
}

/// What `f` makes of an error number.
fn rendered<F: Fn(i32) -> String>(f: F, errno: i32) -> (s: String)
    requires
        call_requires(f, (errno,)),
    ensures
        call_ensures(f, (errno,), s),
{
    f(errno)
}

pub open spec fn launch_error(bytes: Seq<u8>) -> Option<LaunchErrorPayload> {
    if bytes.len() == 8 {
        Some(
            LaunchErrorPayload {
                stage: crate::parser::u32_at(bytes, 0),
                errno: crate::parser::i32_at(bytes, 4),
            },
        )
    } else {
        None
    }
}

/// Decodes what a child wrote before it gave up; a child that launched wrote nothing.
pub fn decode_launch_error(bytes: &[u8]) -> (r: Option<LaunchErrorPayload>)
    ensures
        r == launch_error(bytes@),
{
    if bytes.len() != 8 {
        return None;
    }
    Some(LaunchErrorPayload { stage: read_u32(bytes, 0), errno: to_signed32(read_u32(bytes, 4)) })
}

/// The process no longer exists.
pub open spec fn gone(status: i32) -> bool {
    crate::status::wait_status(status) is Exited || crate::status::wait_status(status) is Signaled
}

/// Tells whether the process that the status is about no longer exists.
pub fn is_gone(status: i32) -> (r: bool)
    ensures
        r == gone(status),
{
    match decode_status(status) {
        WaitStatus::Exited(_) => true,
        WaitStatus::Signaled(_) => true,
        _ => false,
    }
}

pub open spec fn startup_error_text(stage: u32, target: Seq<char>, reason: Seq<char>) -> Seq<char> {
    if stage == STAGE_TRACEME {
        "PTRACE_TRACEME failed in child: "@ + reason
    } else if stage == STAGE_STARTUP_STOP {
        "startup SIGSTOP failed in child: "@ + reason
    } else if stage == STAGE_EXEC {
        "exec failed for '"@ + target + "': "@ + reason
    } else {
        "unknown child startup stage "@ + crate::text::dec(stage as int) + " failure: "@ + reason
    }
}

pub open spec fn exec_error_text(stage: u32, target: Seq<char>, reason: Seq<char>) -> Seq<char> {
    if stage == STAGE_TRACEME {
        "launch failed: PTRACE_TRACEME failed: "@ + reason
    } else if stage == STAGE_STARTUP_STOP {
        "launch failed: startup SIGSTOP failed: "@ + reason
    } else if stage == STAGE_EXEC {
        "launch failed: exec failed for '"@ + target + "': "@ + reason
    } else {
        "launch failed at stage "@ + crate::text::dec(stage as int) + ": "@ + reason
    }
}

/// Why the child did not come to its startup stop.
pub fn startup_error(stage: u32, target: &str, reason: &str) -> (s: String)
    ensures
        s@ == startup_error_text(stage, target@, reason@),
{
    if stage == STAGE_TRACEME {
        Line::new("PTRACE_TRACEME failed in child: ").lit(reason).done()
    } else if stage == STAGE_STARTUP_STOP {
        Line::new("startup SIGSTOP failed in child: ").lit(reason).done()
    } else if stage == STAGE_EXEC {
        Line::new("exec failed for '").lit(target).lit("': ").lit(reason).done()
    } else {
        Line::new("unknown child startup stage ").dec(stage as u64).lit(" failure: ").lit(
            reason,
        ).done()
    }
}

/// Why the child did not run its program.
pub fn exec_error(stage: u32, target: &str, reason: &str) -> (s: String)
    ensures
        s@ == exec_error_text(stage, target@, reason@),
{
    if stage == STAGE_TRACEME {
        Line::new("launch failed: PTRACE_TRACEME failed: ").lit(reason).done()
    } else if stage == STAGE_STARTUP_STOP {
        Line::new("launch failed: startup SIGSTOP failed: ").lit(reason).done()
    } else if stage == STAGE_EXEC {
        Line::new("launch failed: exec failed for '").lit(target).lit("': ").lit(reason).done()
    } else {
        Line::new("launch failed at stage ").dec(stage as u64).lit(": ").lit(reason).done()
    }
}

/// A stop with this signal, whatever event goes with it.
pub open spec fn stopped_by(status: i32, signal: i32) -> bool {
    status & 0xff == 0x7f && crate::status::second_byte(status) == signal
}

/// The stop that follows a successful `execve`.
pub open spec fn exec_event(status: i32) -> bool {
    stopped_by(status, SIGTRAP) && status >> 16 == PTRACE_EVENT_EXEC
}

pub open spec fn odd_startup(pid: i32, status: i32) -> Seq<char> {
    "unexpected initial stop state for pid "@ + crate::text::dec(pid as int)
        + " in state AwaitingStartupStop: raw status=0x"@ + crate::text::hex(
        crate::bytes::unsigned32_of(status) as int,
    ) + ", WIFSTOPPED="@ + crate::text::truth(status & 0xff == 0x7f) + ", WSTOPSIG="@
        + crate::text::dec(crate::status::second_byte(status) as int) + ", WIFEXITED="@
        + crate::text::truth(status & 0x7f == 0) + ", WIFSIGNALED="@ + crate::text::truth(
        1 <= (status & 0x7f) && (status & 0x7f) <= 0x7e,
    )
}

pub open spec fn odd_exec(pid: i32, status: i32) -> Seq<char> {
    "failed to observe PTRACE_EVENT_EXEC for pid "@ + crate::text::dec(pid as int)
        + " in state AwaitingExec: raw status=0x"@ + crate::text::hex(
        crate::bytes::unsigned32_of(status) as int,
    ) + ", WIFSTOPPED="@ + crate::text::truth(status & 0xff == 0x7f) + ", WSTOPSIG="@
        + crate::text::dec(crate::status::second_byte(status) as int) + ", event="@
        + crate::text::dec((status >> 16) as int)
}

/// The next state of a launch after a wait returned `status` and the child had left `payload`
/// behind, or why the launch failed. What `format_errno` makes of the error that the child
/// reported is part of the message, whatever it is.
pub fn launch_step(
    state: LaunchState,
    pid: i32,
    target: &str,
    status: i32,
    payload: Option<LaunchErrorPayload>,
) -> (r: Result<LaunchState, String>)
    requires
        state != LaunchState::Running,
    ensures
        state == LaunchState::AwaitingStartupStop ==> {
            if stopped_by(status, SIGSTOP) {
                r == Ok::<LaunchState, String>(LaunchState::AwaitingExec)
            } else {
                r is Err && match payload {
                    None => r->Err_0@ == odd_startup(pid, status),
                    Some(p) => exists|reason: String| #[trigger]
                        call_ensures(format_errno, (p.errno,), reason) && r->Err_0@
                            == startup_error_text(p.stage, target@, reason@),
                }
            }
        },
        state == LaunchState::AwaitingExec ==> match payload {
            Some(p) => r is Err && exists|reason: String| #[trigger]
                call_ensures(format_errno, (p.errno,), reason) && r->Err_0@ == exec_error_text(
                    p.stage,
                    target@,
                    reason@,
                ),
            None => if exec_event(status) {
                r == Ok::<LaunchState, String>(LaunchState::Running)
            } else {
                r is Err && r->Err_0@ == odd_exec(pid, status)
            },
        },
{
    match state {
        LaunchState::AwaitingStartupStop => {
            if libc::WIFSTOPPED(status) && libc::WSTOPSIG(status) == SIGSTOP {
                return Ok(LaunchState::AwaitingExec);
            }
            if let Some(p) = payload {
                let reason = rendered(format_errno, p.errno);
                let text = startup_error(p.stage, target, reason.as_str());
                assert(text@ == startup_error_text(p.stage, target@, reason@));
                return Err(text);
            }
            Err(
                Line::new("unexpected initial stop state for pid ").signed(pid as i64).lit(
                    " in state AwaitingStartupStop: raw status=0x",
                ).hex(to_unsigned32(status) as u64).lit(", WIFSTOPPED=").truth(
                    libc::WIFSTOPPED(status),
                ).lit(", WSTOPSIG=").signed(libc::WSTOPSIG(status) as i64).lit(
                    ", WIFEXITED=",
                ).truth(libc::WIFEXITED(status)).lit(", WIFSIGNALED=").truth(
                    libc::WIFSIGNALED(status),
                ).done(),
            )
        },
        _ => {
            if let Some(p) = payload {
                let reason = rendered(format_errno, p.errno);
                let text = exec_error(p.stage, target, reason.as_str());
                assert(text@ == exec_error_text(p.stage, target@, reason@));
                return Err(text);
            }
            if libc::WIFSTOPPED(status) && libc::WSTOPSIG(status) == SIGTRAP && status >> 16
                == PTRACE_EVENT_EXEC {
                return Ok(LaunchState::Running);
            }
            Err(
                Line::new("failed to observe PTRACE_EVENT_EXEC for pid ").signed(
                    pid as i64,
                ).lit(" in state AwaitingExec: raw status=0x").hex(
                    to_unsigned32(status) as u64,
                ).lit(", WIFSTOPPED=").truth(libc::WIFSTOPPED(status)).lit(", WSTOPSIG=").signed(
                    libc::WSTOPSIG(status) as i64,
                ).lit(", event=").signed((status >> 16) as i64).done(),
            )
        },
    }
}

/// Checks that all of the bytes meant for the memory of a process got there.
pub fn check_memory_written(pid: i32, requested: usize, written: usize) -> (r: Result<(), String>)
    ensures
        if requested == written {
            r is Ok
        } else {
            r is Err && r->Err_0@ == "process_vm_writev short transfer for pid "@
                + crate::text::dec(pid as int) + ": requested "@ + crate::text::dec(
                requested as int,
            ) + " bytes, wrote "@ + crate::text::dec(written as int)
        },
{
    if requested != written {
        return Err(
            Line::new("process_vm_writev short transfer for pid ").signed(pid as i64).lit(
                ": requested ",
            ).dec(requested as u64).lit(" bytes, wrote ").dec(written as u64).done(),
        );
    }
    Ok(())
}

} // verus!
