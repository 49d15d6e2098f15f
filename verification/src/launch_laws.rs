//! What the launch of a process goes by.
use vstd::prelude::*;
use crate::status::WaitStatus;
use crate::tracer::{LaunchErrorPayload, LaunchState};

verus! {

/// The status of a stop with a signal and a tracing event, as the kernel makes it.
pub open spec fn stop_status(signal: i32, event: i32) -> i32 {
    (event << 16) | (signal << 8) | 0x7f
}

proof fn lemma_stop_status(signal: i32, event: i32)
    requires
        0 <= signal <= 0xff,
        0 <= event <= 0x7fff,
    ensures
        ({
            let s = stop_status(signal, event);
            &&& s & 0xff == 0x7f
            &&& s & 0x7f == 0x7f
            &&& (s >> 8) & 0xff == signal
            &&& s >> 16 == event
        }),
{
    let s: i32 = (event << 16) | (signal << 8) | 0x7f;
    assert(s & 0x7f == 0x7f && s & 0xff == 0x7f && (s >> 8) & 0xff == signal && s >> 16 == event)
        by (bit_vector)
        requires
            0 <= signal <= 0xff,
            0 <= event <= 0x7fff,
            s == (event << 16) | (signal << 8) | 0x7f,
    ;
}

/// A process that ended by a signal did so whether or not it left a core dump. A continued
/// process is neither ended nor stopped. Whatever else is above the exit code does not count.
pub proof fn law_other_statuses(signal: i32, high: i32, code: i32)
    requires
        1 <= signal <= 0x7e,
        0 <= high <= 0x7fff,
        0 <= code <= 0xff,
    ensures
        crate::status::wait_status(signal | 0x80) == WaitStatus::Signaled(signal),
        crate::status::wait_status(0xffff) == WaitStatus::Other,
        crate::status::wait_status((high << 16) | (code << 8)) == WaitStatus::Exited(code),
{
    assert((signal | 0x80) & 0x7f == signal) by (bit_vector)
        requires
            1 <= signal <= 0x7e,
    ;
    assert(0xffffi32 & 0x7f == 0x7f && 0xffffi32 & 0xff == 0xff) by (bit_vector);
    let s: i32 = (high << 16) | (code << 8);
    assert(s & 0x7f == 0 && (s >> 8) & 0xff == code) by (bit_vector)
        requires
            0 <= high <= 0x7fff,
            0 <= code <= 0xff,
            s == (high << 16) | (code << 8),
    ;
}

/// Decoding a status gives the end or the stop that the kernel made it of, and a process is gone
/// exactly if it ended.
pub proof fn law_status_is_decoded(
    status: i32,
    code: i32,
    signal: i32,
    event: i32,
    r: WaitStatus,
    gone: bool,
)
    requires
        0 <= code <= 0xff,
        1 <= signal <= 0x7e,
        0 <= event <= 0x7fff,
        call_ensures(crate::status::decode_status, (status,), r),
        call_ensures(crate::tracer::is_gone, (status,), gone),
    ensures
        status == code << 8 ==> r == WaitStatus::Exited(code) && gone,
        status == signal || status == signal | 0x80 ==> r == WaitStatus::Signaled(signal) && gone,
        status == stop_status(code, event) ==> r == (WaitStatus::Stopped {
            signal: code,
            event: event as u32,
        }) && !gone,
        status == 0xffff ==> r == WaitStatus::Other && !gone,
{
    crate::status::law_status_reads_back(code, signal, event);
    law_other_statuses(signal, 0, code);
}

/// A child that fails leaves its stage and the error number, four bytes each; anything that is
/// not eight bytes long says nothing.
pub proof fn law_launch_error_layout(bytes: &[u8], r: Option<LaunchErrorPayload>)
    requires
        call_ensures(crate::tracer::decode_launch_error, (bytes,), r),
    ensures
        r is Some <==> bytes@.len() == 8,
        r is Some ==> crate::layout_laws::number_at(bytes@, 0, 4) == r->0.stage
            && crate::layout_laws::number_at(bytes@, 4, 4) == crate::layout_laws::pattern32(
            r->0.errno,
        ),
{
    if bytes@.len() == 8 {
        crate::signal_laws::lemma_i32_at(bytes@, 4);
        crate::bytes::lemma_bounds();
        crate::bytes::lemma_bytes_of_value(bytes@.subrange(0, 4));
        crate::layout_laws::lemma_total(bytes@.subrange(0, 4));
    }
}

/// A launch goes on exactly when the child stops itself with SIGSTOP and then, having left no
/// error behind, stops for the tracing event of `execve`.
pub proof fn law_launch_goes_on(
    pid: i32,
    target: &str,
    signal: i32,
    event: i32,
    payload: Option<LaunchErrorPayload>,
    first: Result<LaunchState, String>,
    second: Result<LaunchState, String>,
)
    requires
        0 <= signal <= 0xff,
        0 <= event <= 0x7fff,
        call_ensures(
            crate::tracer::launch_step,
            (
                LaunchState::AwaitingStartupStop,
                pid,
                target,
                stop_status(signal, event),
                payload,
            ),
            first,
        ),
        call_ensures(
            crate::tracer::launch_step,
            (LaunchState::AwaitingExec, pid, target, stop_status(signal, event), payload),
            second,
        ),
    ensures
        first is Ok <==> signal == 19,
        first is Ok ==> first->Ok_0 == LaunchState::AwaitingExec,
        second is Ok <==> payload is None && signal == 5 && event == 4,
        second is Ok ==> second->Ok_0 == LaunchState::Running,
{
    lemma_stop_status(signal, event);
}

/// A child that ended instead of stopping is never taken to have launched.
pub proof fn law_ended_child_did_not_launch(
    pid: i32,
    target: &str,
    status: i32,
    payload: Option<LaunchErrorPayload>,
    state: LaunchState,
    r: Result<LaunchState, String>,
)
    requires
        state != LaunchState::Running,
        crate::status::wait_status(status) is Exited || crate::status::wait_status(
            status,
        ) is Signaled,
        call_ensures(crate::tracer::launch_step, (state, pid, target, status, payload), r),
    ensures
        r is Err,
{
    assert(status & 0xff == 0x7f ==> status & 0x7f == 0x7f) by (bit_vector);
}

/// What is said of a child that failed names what failed, the program if it could not be run,
/// and the reason.
pub proof fn law_launch_failures_are_named(
    stage: u32,
    target: &str,
    reason: &str,
    first: String,
    second: String,
)
    requires
        call_ensures(crate::tracer::startup_error, (stage, target, reason), first),
        call_ensures(crate::tracer::exec_error, (stage, target, reason), second),
    ensures
        crate::saying_laws::says(
            first@,
            if stage == 1 {
                crate::saying_laws::line("PTRACE_TRACEME failed in child: "@).words(reason@)
            } else if stage == 2 {
                crate::saying_laws::line("startup SIGSTOP failed in child: "@).words(reason@)
            } else if stage == 3 {
                crate::saying_laws::line("exec failed for '"@).words(target@).words("': "@).words(
                    reason@,
                )
            } else {
                crate::saying_laws::line("unknown child startup stage "@).number(
                    stage as int,
                ).words(" failure: "@).words(reason@)
            },
        ),
        crate::saying_laws::says(
            second@,
            if stage == 1 {
                crate::saying_laws::line("launch failed: PTRACE_TRACEME failed: "@).words(reason@)
            } else if stage == 2 {
                crate::saying_laws::line("launch failed: startup SIGSTOP failed: "@).words(reason@)
            } else if stage == 3 {
                crate::saying_laws::line("launch failed: exec failed for '"@).words(target@).words(
                    "': "@,
                ).words(reason@)
            } else {
                crate::saying_laws::line("launch failed at stage "@).number(stage as int).words(
                    ": "@,
                ).words(reason@)
            },
        ),
{
    broadcast use crate::saying_laws::group_says;

}

/// Memory counts as written exactly when all of the bytes were.
pub proof fn law_memory_is_written_whole(
    pid: i32,
    requested: usize,
    written: usize,
    r: Result<(), String>,
)
    requires
        call_ensures(crate::tracer::check_memory_written, (pid, requested, written), r),
    ensures
        r is Ok <==> requested == written,
        r is Err ==> crate::saying_laws::says(
            r->Err_0@,
            crate::saying_laws::line("process_vm_writev short transfer for pid "@).number(
                pid as int,
            ).words(": requested "@).number(requested as int).words(" bytes, wrote "@).number(
                written as int,
            ),
        ),
{
    broadcast use crate::saying_laws::group_says;

}

/// A syscall is skipped by the number that is all ones, and only if the process is about to make
/// that very syscall.
pub proof fn law_suppressed_number(pid: i32, number: u64, orig_rax: u64, r: Result<u64, String>)
    requires
        number == 0 || number == 39,
        call_ensures(crate::replay::suppressed_number, (pid, number, orig_rax), r),
    ensures
        r is Ok <==> orig_rax == number,
        r is Ok ==> r->Ok_0 == 0xffff_ffff_ffff_ffff,
        r is Err ==> crate::saying_laws::says(
            r->Err_0@,
            crate::saying_laws::line("replay invariant violation: regs.orig_rax ("@).number(
                orig_rax as int,
            ).words(") != "@).words(if number == 0 { "SYS_read"@ } else { "SYS_getpid"@ }).words(
                " ("@,
            ).number(number as int).words(") at syscall enter for pid "@).number(pid as int),
        ),
{
    broadcast use crate::saying_laws::group_says;

}

/// The kinds of syscall stop are told apart by number.
pub proof fn law_stop_numbers(info: crate::recorder::SyscallInfo, op: u8)
    requires
        call_ensures(crate::replay::syscall_info_op, (info,), op),
    ensures
        match info {
            crate::recorder::SyscallInfo::Nothing => op == 0,
            crate::recorder::SyscallInfo::Entry { .. } => op == 1,
            crate::recorder::SyscallInfo::Exit { .. } => op == 2,
            crate::recorder::SyscallInfo::Seccomp { .. } => op == 3,
            crate::recorder::SyscallInfo::Unknown { op: given } => op == given,
        },
{
}

} // verus!
