//! What is said where a replay or a recording is refused.
use vstd::prelude::*;
use crate::recorder::SyscallInfo;
use crate::replay::{PendingReplaySyscall, Phase, Replaying, Report};
use crate::saying_laws::Saying;
use crate::status::WaitStatus;
use crate::trace::Event;

verus! {

/// The beginning of what is said of a recorded event that the live process does not match.
pub open spec fn at_event(id: u64) -> Saying {
    crate::saying_laws::line("replay divergence at recorded event "@).number(id as int).words(
        ": expected "@,
    )
}

pub open spec fn entry_observed(s: Replaying, number: u64) -> Saying {
    crate::saying_laws::line(", observed live syscall-enter nr="@).number(number as int).words(
        " (pid="@,
    ).number(s.pid as int).words(")"@)
}

pub open spec fn syscall_name(number: u64) -> Seq<char> {
    if number == 39 {
        "SYS_getpid"@
    } else {
        "SYS_read"@
    }
}

/// What is said of an entry that is refused: which syscall is under way, or that the trace is
/// used up, or the recorded event, what it is, and the live syscall.
pub open spec fn entry_trouble(s: Replaying, number: u64, args: Seq<u64>, k: int, m: int) -> Saying {
    if s.pending is Some {
        crate::saying_laws::line("replay divergence on pid "@).number(s.pid as int).words(
            ": received syscall-enter nr="@,
        ).number(number as int).words(" while another syscall is still pending"@)
    } else if k == s.events.len() {
        crate::saying_laws::line("replay divergence: extra live syscall-enter nr="@).number(
            number as int,
        ).words(" on pid "@).number(s.pid as int).words(" after trace exhausted"@)
    } else {
        match s.events[k] {
            Event::SyscallEnter { event_id, number: recorded, args: recorded_args, .. } => if recorded
                != number {
                at_event(event_id).words("syscall-enter nr="@).number(recorded as int).and(
                    entry_observed(s, number),
                )
            } else if number == 0 && args[2] != recorded_args[2] {
                at_event(event_id).words("read count "@).number(recorded_args[2] as int).words(
                    ", observed live count "@,
                ).number(args[2] as int).words(" (pid="@).number(s.pid as int).words(")"@)
            } else if m == s.events.len() {
                crate::saying_laws::line("replay divergence: trace ended after "@).words(
                    syscall_name(number),
                ).words(" enter event "@).number(event_id as int)
            } else {
                match s.events[m] {
                    Event::SyscallExit { event_id: exit_id, number: left, .. } => if left
                        != number {
                        crate::saying_laws::line("replay divergence: recorded event "@).number(
                            exit_id as int,
                        ).words(" is SyscallExit nr="@).number(left as int).words(
                            ", expected "@,
                        ).words(syscall_name(number))
                    } else {
                        crate::saying_laws::line(
                            "V1 trace cannot replay SYS_read memory output; record again with Trace Format V2"@,
                        )
                    },
                    e => crate::saying_laws::line("replay divergence: recorded event "@).number(
                        e.id() as int,
                    ).words(" is not SyscallExit for "@).words(syscall_name(number)),
                }
            },
            Event::SyscallExit { event_id, number: recorded, .. } => at_event(event_id).words(
                "syscall-exit nr="@,
            ).number(recorded as int).and(entry_observed(s, number)),
            Event::SignalDelivery { event_id, signal_number, .. } => at_event(event_id).words(
                "signal "@,
            ).number(signal_number as int).and(entry_observed(s, number)),
            e => at_event(e.id()).words("KernelMemoryWrite"@).and(entry_observed(s, number)),
        }
    }
}

/// An entry that is refused is refused for a reason that is told.
pub proof fn law_refused_entry_is_explained(
    s: Replaying,
    number: u64,
    args: [u64; 6],
    k: int,
    m: int,
)
    requires
        s.phase == Phase::SyscallStop,
        crate::giveback_laws::is_next(s.events, s.cursor, k),
        k < s.events.len() ==> crate::giveback_laws::is_next(s.events, k + 1, m),
        crate::replay::replay_step(
            s,
            Report::Syscall(SyscallInfo::Entry { number, args }),
        ) is Err,
    ensures
        crate::saying_laws::says(
            crate::replay::replay_step(
                s,
                Report::Syscall(SyscallInfo::Entry { number, args }),
            )->Err_0,
            entry_trouble(s, number, args@, k, m),
        ),
{
    broadcast use {crate::saying_laws::group_says, crate::saying_laws::lemma_says_and};

    crate::giveback_laws::lemma_next(s.events, s.cursor, k);
    if k < s.events.len() {
        crate::giveback_laws::lemma_next(s.events, k + 1, m);
    }
}

/// What is said where a suppressed syscall is left and something is wrong.
pub open spec fn suppressed_trouble(
    s: Replaying,
    k: int,
    exit_id: u64,
    result: i64,
    is_error: u8,
    name: Seq<char>,
) -> Saying {
    if k == s.events.len() {
        crate::saying_laws::line("replay divergence on pid "@).number(s.pid as int).words(
            ": trace exhausted at live syscall-exit for "@,
        ).words(name)
    } else if s.events[k].id() != exit_id {
        crate::saying_laws::line("replay divergence: expected recorded exit event "@).number(
            exit_id as int,
        ).words(", got "@).number(s.events[k].id() as int)
    } else {
        crate::saying_laws::line("replay suppression failure at event "@).number(
            exit_id as int,
        ).words(": expected suppression sentinel -ENOSYS ("@).number(-38).words(
            "), observed exit result "@,
        ).number(result as int).words(" (is_error="@).number(is_error as int).words(
            ", pid="@,
        ).number(s.pid as int).words(")"@)
    }
}

/// What is said where the data of a suppressed `read` is wrong.
pub open spec fn data_trouble(s: Replaying, m: int, exit_id: u64, recorded: i64, count: u64) -> Saying {
    if m == s.events.len() {
        crate::saying_laws::line("replay divergence on pid "@).number(s.pid as int).words(
            ": trace exhausted awaiting KernelMemoryWrite for read exit event "@,
        ).number(exit_id as int)
    } else {
        match s.events[m] {
            Event::KernelMemoryWrite { event_id, source_event_id, data, .. } => if source_event_id
                != exit_id {
                crate::saying_laws::line("replay divergence: KernelMemoryWrite event "@).number(
                    event_id as int,
                ).words(" source_event_id "@).number(source_event_id as int).words(
                    " does not match read exit event "@,
                ).number(exit_id as int)
            } else if data.len() != recorded {
                crate::saying_laws::line("replay divergence: KernelMemoryWrite event "@).number(
                    event_id as int,
                ).words(" data length "@).number(data.len() as int).words(
                    " does not match recorded result "@,
                ).number(recorded as int)
            } else {
                crate::saying_laws::line("replay divergence: recorded read result "@).number(
                    recorded as int,
                ).words(" exceeds live count "@).number(count as int)
            },
            e => crate::saying_laws::line(
                "replay divergence: expected KernelMemoryWrite after read exit event "@,
            ).number(exit_id as int).words(", got event "@).number(e.id() as int),
        }
    }
}

/// What is said of an exit that is refused.
pub open spec fn exit_trouble(s: Replaying, result: i64, is_error: u8, k: int, m: int) -> Saying {
    match s.pending {
        None => crate::saying_laws::line("replay divergence on pid "@).number(
            s.pid as int,
        ).words(": received unexpected syscall-exit with no pending live syscall-enter"@),
        Some(PendingReplaySyscall::SubstitutedGetpid { recorded_exit_event_id, .. }) =>
            suppressed_trouble(s, k, recorded_exit_event_id, result, is_error, "getpid"@),
        Some(PendingReplaySyscall::SubstitutedRead {
            recorded_exit_event_id,
            recorded_result,
            live_count,
            ..
        }) => if k == s.events.len() || s.events[k].id() != recorded_exit_event_id || result
            != -38 {
            suppressed_trouble(s, k, recorded_exit_event_id, result, is_error, "read"@)
        } else {
            data_trouble(s, m, recorded_exit_event_id, recorded_result, live_count)
        },
        Some(PendingReplaySyscall::Passthrough { number, .. }) => if k == s.events.len() {
            crate::saying_laws::line("replay divergence on pid "@).number(s.pid as int).words(
                ": trace exhausted at live syscall-exit for nr="@,
            ).number(number as int)
        } else {
            match s.events[k] {
                Event::SyscallExit { event_id, number: recorded, .. } => at_event(
                    event_id,
                ).words("syscall-exit nr="@).number(recorded as int).words(
                    ", observed live syscall-exit nr="@,
                ).number(number as int).words(" (pid="@).number(s.pid as int).words(")"@),
                Event::SyscallEnter { event_id, .. } => at_event(event_id).words(
                    "syscall-enter, observed live syscall-exit"@,
                ),
                Event::SignalDelivery { event_id, signal_number, .. } => at_event(event_id).words(
                    "signal "@,
                ).number(signal_number as int).words(", observed live syscall-exit"@),
                e => at_event(e.id()).words("KernelMemoryWrite, observed live syscall-exit"@),
            }
        },
    }
}

/// An exit that is refused is refused for a reason that is told.
pub proof fn law_refused_exit_is_explained(
    s: Replaying,
    result: i64,
    is_error: u8,
    k: int,
    m: int,
)
    requires
        s.phase == Phase::SyscallStop,
        crate::giveback_laws::is_next(s.events, s.cursor, k),
        k < s.events.len() ==> crate::giveback_laws::is_next(s.events, k + 1, m),
        crate::replay::replay_step(
            s,
            Report::Syscall(SyscallInfo::Exit { result, is_error }),
        ) is Err,
    ensures
        crate::saying_laws::says(
            crate::replay::replay_step(
                s,
                Report::Syscall(SyscallInfo::Exit { result, is_error }),
            )->Err_0,
            exit_trouble(s, result, is_error, k, m),
        ),
{
    broadcast use crate::saying_laws::group_says;

    crate::giveback_laws::lemma_next(s.events, s.cursor, k);
    if k < s.events.len() {
        crate::giveback_laws::lemma_next(s.events, k + 1, m);
    }
}

/// How many recorded events are left.
pub open spec fn left_over(before: Seq<char>, s: Replaying, k: int) -> Saying {
    crate::saying_laws::line(before).and(
        Saying::Nothing.number(s.events[k].id() as int).words("; "@).number(
            s.events.len() - k,
        ).words(" recorded events remaining in trace"@),
    )
}

/// What is said of a status that is refused.
pub open spec fn status_trouble(s: Replaying, status: i32, k: int) -> Saying {
    match crate::status::wait_status(status) {
        WaitStatus::Exited(_) => if !crate::giveback_laws::may_end(s.pending) {
            crate::saying_laws::line(
                "replay divergence: tracee exited while non-terminating syscall was pending"@,
            )
        } else if k < s.events.len() {
            left_over("replay divergence: tracee exited prematurely at recorded event "@, s, k)
        } else {
            crate::saying_laws::line(
                "replay failed: no substitution was performed during execution"@,
            )
        },
        WaitStatus::Signaled(signal) => if s.delivered != Some(signal) {
            crate::saying_laws::line(
                "replay divergence: tracee terminated unexpectedly by signal "@,
            ).number(signal as int)
        } else {
            left_over(
                "replay divergence: tracee terminated prematurely at recorded event "@,
                s,
                k,
            )
        },
        WaitStatus::Stopped { signal, event } => if event != 0 {
            crate::saying_laws::line("replay divergence: unexpected ptrace event "@).number(
                event as int,
            ).words(" for pid "@).number(s.pid as int)
        } else if k == s.events.len() || !(s.events[k] is SignalDelivery) {
            crate::saying_laws::line("replay divergence: unrecorded live signal "@).number(
                signal as int,
            ).words(" on pid "@).number(s.pid as int)
        } else {
            at_event(s.events[k].id()).words("signal "@).number(
                s.events[k]->SignalDelivery_signal_number as int,
            ).words(", observed live signal "@).number(signal as int).words(" (pid="@).number(
                s.pid as int,
            ).words(")"@)
        },
        WaitStatus::Other => crate::saying_laws::line(
            "replay divergence: unexpected wait status 0x"@,
        ).hex(crate::layout_laws::pattern32(status), 1).words(" for pid "@).number(s.pid as int),
    }
}

/// A status that is refused is refused for a reason that is told.
pub proof fn law_refused_status_is_explained(s: Replaying, status: i32, k: int)
    requires
        s.phase == Phase::Running,
        crate::giveback_laws::is_next(s.events, s.cursor, k),
        crate::replay::replay_step(s, Report::Status(status)) is Err,
    ensures
        crate::saying_laws::says(
            crate::replay::replay_step(s, Report::Status(status))->Err_0,
            status_trouble(s, status, k),
        ),
{
    broadcast use {crate::saying_laws::group_says, crate::saying_laws::lemma_says_and};

    crate::giveback_laws::lemma_next(s.events, s.cursor, k);
}

/// A signal whose siginfo is not the recorded one, a launch that does not begin at the exit of
/// `execve`, and stops that are neither entry nor exit are refused for a reason that is told.
pub proof fn law_other_refusals_are_explained(
    s: Replaying,
    status: i32,
    info: SyscallInfo,
    siginfo: Seq<u8>,
    index: usize,
)
    ensures
        ({
            let r = crate::replay::replay_step(s, Report::Signal(siginfo));
            let e = s.events[index as int];
            let f = crate::signals::signal_fields(siginfo);
            s.phase == (Phase::SignalStop { index }) && siginfo.len() == 128 && r is Err
                ==> crate::saying_laws::says(
                r->Err_0,
                at_event(e.id()).words("restored siginfo of signal "@).number(
                    e->SignalDelivery_signal_number as int,
                ).words(", observed si_signo "@).number(f.signo as int).words(
                    ", si_errno "@,
                ).number(f.errno as int).words(", si_code "@).number(f.code as int).words(
                    " (pid="@,
                ).number(s.pid as int).words(")"@),
            )
        }),
        ({
            let r = crate::replay::replay_step(s, Report::Status(status));
            s.phase == Phase::Launched && r is Err ==> crate::saying_laws::says(
                r->Err_0,
                crate::saying_laws::line(
                    "expected initial bootstrap execve syscall exit stop for pid "@,
                ).number(s.pid as int).words(", got status 0x"@).hex(
                    crate::layout_laws::pattern32(status),
                    1,
                ),
            )
        }),
        ({
            let r = crate::replay::replay_step(s, Report::Syscall(info));
            let op = crate::replay::info_op(info) as int;
            &&& s.phase == Phase::LaunchStop && r is Err ==> crate::saying_laws::says(
                r->Err_0,
                crate::saying_laws::line(
                    "expected PTRACE_SYSCALL_INFO_EXIT for initial bootstrap stop on pid "@,
                ).number(s.pid as int).words(", got op "@).number(op),
            )
            &&& s.phase == Phase::SyscallStop && !(info is Entry) && !(info is Exit)
                ==> crate::saying_laws::says(
                r->Err_0,
                crate::saying_laws::line(
                    "replay divergence: unexpected ptrace_syscall_info op "@,
                ).number(op).words(" for pid "@).number(s.pid as int),
            )
        }),
{
    broadcast use crate::saying_laws::group_says;

}

} // verus!
