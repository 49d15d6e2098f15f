//! A replay gives back what the trace holds: which stop is accepted, what is kept from the
//! kernel, and what the process is given.
use vstd::prelude::*;
use crate::recorder::{SyscallInfo, TraceeTermination};
use crate::replay::{Order, PendingReplaySyscall, Phase, ReplayStep, Replaying, Report};
use crate::status::WaitStatus;
use crate::trace::Event;

verus! {

/// The event describes the memory map.
pub open spec fn is_map_event(e: Event) -> bool {
    e is MemoryMapSnapshot || e is MemoryMapAdd || e is MemoryMapRemove
}

/// The first event from `i` on that is no description of the memory map stands at `k`, or there
/// is none and `k` is the end.
pub open spec fn is_next(es: Seq<Event>, i: int, k: int) -> bool {
    &&& 0 <= i <= k <= es.len()
    &&& k < es.len() ==> !is_map_event(es[k])
    &&& forall|j: int| i <= j < k ==> is_map_event(#[trigger] es[j])
}

/// How the process resumes when the events before `i` are replayed: if a signal comes next, it
/// is sent first, so that the process meets it.
pub open spec fn goes_on(orders: Seq<Order>, es: Seq<Event>, i: int, signal: i32) -> bool {
    forall|k: int| #[trigger]
        is_next(es, i, k) ==> if k < es.len() && es[k] is SignalDelivery {
            orders == seq![Order::Arm(es[k]->SignalDelivery_signal_number), Order::Resume(signal)]
        } else {
            orders == seq![Order::Resume(signal)]
        }
}

pub proof fn lemma_next(es: Seq<Event>, i: int, k: int)
    requires
        is_next(es, i, k),
    ensures
        crate::replay::upcoming(es, i) == k,
    decreases k - i,
{
    if i < k {
        assert(is_map_event(es[i]));
        lemma_next(es, i + 1, k);
    }
}

proof fn lemma_goes_on(es: Seq<Event>, i: int, signal: i32)
    ensures
        goes_on(crate::replay::resume(es, i, signal), es, i, signal),
{
    assert forall|k: int| #[trigger] is_next(es, i, k) implies if k < es.len()
        && es[k] is SignalDelivery {
        crate::replay::resume(es, i, signal) == seq![
            Order::Arm(es[k]->SignalDelivery_signal_number),
            Order::Resume(signal),
        ]
    } else {
        crate::replay::resume(es, i, signal) == seq![Order::Resume(signal)]
    } by {
        lemma_next(es, i, k);
    }
}

/// There is always a next event or the end.
pub proof fn lemma_some_next(es: Seq<Event>, i: int) -> (k: int)
    requires
        0 <= i <= es.len(),
    ensures
        is_next(es, i, k),
{
    crate::replay::lemma_upcoming(es, i);
    let k = crate::replay::upcoming(es, i);
    assert forall|j: int| i <= j < k implies is_map_event(#[trigger] es[j]) by {
        assert(es[j].is_map_metadata());
    }
    k
}

/// The process is taken over at the exit from `execve`: a syscall stop, then an exit. Then it
/// runs.
pub proof fn law_replay_begins_at_execve(s: Replaying, status: i32, info: SyscallInfo)
    ensures
        s.phase == Phase::Launched ==> {
            let r = crate::replay::replay_step(s, Report::Status(status));
            &&& r is Ok <==> status & 0xff == 0x7f && (status >> 8) & 0xff == 0x85
            &&& r is Ok ==> r->Ok_0.orders == seq![Order::QuerySyscall] && r->Ok_0.next == (
            Replaying { phase: Phase::LaunchStop, ..s })
        },
        s.phase == Phase::LaunchStop ==> {
            let r = crate::replay::replay_step(s, Report::Syscall(info));
            &&& r is Ok <==> info is Exit
            &&& r is Ok ==> goes_on(r->Ok_0.orders, s.events, s.cursor, 0) && r->Ok_0.next == (
            Replaying { phase: Phase::Running, ..s })
        },
{
    lemma_goes_on(s.events, s.cursor, 0);
}

/// The process may end where it is: outside syscalls, or in `exit` or `exit_group`.
pub open spec fn may_end(pending: Option<PendingReplaySyscall>) -> bool {
    match pending {
        None => true,
        Some(PendingReplaySyscall::Passthrough { number, .. }) => number == 60 || number == 231,
        Some(_) => false,
    }
}

/// A status is taken for what it is. The process may end only where the trace does, with
/// something given back, and by a signal only if that signal was delivered last. A signal has
/// to be the one that comes next in the trace, and its recorded siginfo is restored.
pub proof fn law_replayed_status(s: Replaying, status: i32, k: int)
    requires
        s.phase == Phase::Running,
        is_next(s.events, s.cursor, k),
        s.events.len() <= usize::MAX,
    ensures
        ({
            let r = crate::replay::replay_step(s, Report::Status(status));
            let step = r->Ok_0;
            let end = k == s.events.len();
            match crate::status::wait_status(status) {
                WaitStatus::Exited(code) => {
                    &&& r is Ok <==> may_end(s.pending) && end && s.performed != 0
                    &&& r is Ok ==> step.orders == seq![
                        Order::Done(TraceeTermination::Exited(code)),
                    ] && step.next == (Replaying { phase: Phase::Ended, ..s })
                },
                WaitStatus::Signaled(signal) => {
                    &&& r is Ok <==> s.delivered == Some(signal) && end
                    &&& r is Ok ==> step.orders == seq![
                        Order::Done(TraceeTermination::Signaled(signal)),
                    ] && step.next == (Replaying { phase: Phase::Ended, ..s })
                },
                WaitStatus::Stopped { signal, event } => if event == 0 && signal == 0x85 {
                    &&& r is Ok
                    &&& step.orders == seq![Order::QuerySyscall]
                    &&& step.next == (Replaying {
                        delivered: None,
                        phase: Phase::SyscallStop,
                        ..s
                    })
                } else {
                    &&& r is Ok <==> event == 0 && !end && s.events[k] is SignalDelivery
                        && s.events[k]->SignalDelivery_signal_number == signal
                    &&& r is Ok ==> step.orders == seq![
                        Order::RestoreSignal(s.events[k]->SignalDelivery_siginfo_bytes),
                    ] && step.next == (Replaying {
                        phase: Phase::SignalStop { index: k as usize },
                        ..s
                    })
                },
                WaitStatus::Other => r is Err,
            }
        }),
{
    lemma_next(s.events, s.cursor, k);
}

/// A signal is delivered once the process has the recorded number, error and code for it; it
/// counts as given back.
pub proof fn law_replayed_signal(s: Replaying, info: Seq<u8>, index: usize)
    requires
        s.phase == (Phase::SignalStop { index }),
        info.len() == 128,
        0 <= index < s.events.len(),
        s.events[index as int] is SignalDelivery,
    ensures
        ({
            let r = crate::replay::replay_step(s, Report::Signal(info));
            let step = r->Ok_0;
            let e = s.events[index as int];
            let signal = e->SignalDelivery_signal_number;
            &&& r is Ok <==> {
                &&& crate::layout_laws::number_at(info, 0, 4) == crate::layout_laws::pattern32(
                    signal,
                )
                &&& crate::layout_laws::number_at(info, 4, 4) == crate::layout_laws::pattern32(
                    e->SignalDelivery_si_errno,
                )
                &&& crate::layout_laws::number_at(info, 8, 4) == crate::layout_laws::pattern32(
                    e->SignalDelivery_si_code,
                )
            }
            &&& r is Ok ==> {
                &&& goes_on(step.orders, s.events, index + 1, signal)
                &&& step.next == (Replaying {
                    cursor: index + 1,
                    performed: s.performed + 1,
                    delivered: Some(signal),
                    phase: Phase::Running,
                    ..s
                })
            }
        }),
{
    crate::signal_laws::lemma_fields(info);
    lemma_goes_on(s.events, index + 1, s.events[index as int]->SignalDelivery_signal_number);
}

/// The trace has the exit of the syscall `number` at `m`, and in format 1 no data is needed for
/// it.
pub open spec fn exit_stands_at(s: Replaying, number: u64, m: int) -> bool {
    &&& m < s.events.len()
    &&& s.events[m] is SyscallExit
    &&& s.events[m]->SyscallExit_number == number
    &&& number == 0 && s.version < 2 ==> s.events[m]->SyscallExit_result <= 0
}

/// An entry is accepted exactly when no other syscall is under way and the trace holds the entry
/// of that syscall next, a `read` with the same count; for `read` and `getpid` the trace must
/// hold the exit too. These two are kept from the kernel, and what is kept for their exit is
/// the recorded result and, of a `read`, the buffer and the count that the live process passed.
/// All other syscalls go to the kernel.
pub proof fn law_replayed_entry(s: Replaying, number: u64, args: [u64; 6], k: int, m: int)
    requires
        s.phase == Phase::SyscallStop,
        is_next(s.events, s.cursor, k),
        k < s.events.len() ==> is_next(s.events, k + 1, m),
    ensures
        ({
            let r = crate::replay::replay_step(
                s,
                Report::Syscall(SyscallInfo::Entry { number, args }),
            );
            let step = r->Ok_0;
            let e = s.events[k];
            let kept = number == 0 || number == 39;
            &&& r is Ok <==> {
                &&& s.pending is None
                &&& k < s.events.len()
                &&& e is SyscallEnter
                &&& e->SyscallEnter_number == number
                &&& number == 0 ==> args@[2] == e->SyscallEnter_args[2]
                &&& kept ==> exit_stands_at(s, number, m)
            }
            &&& r is Ok ==> {
                &&& step.next == (Replaying {
                    cursor: k + 1,
                    pending: step.next.pending,
                    phase: Phase::Running,
                    ..s
                })
                &&& step.next.pending == Some(
                    if number == 0 {
                        PendingReplaySyscall::SubstitutedRead {
                            recorded_enter_event_id: e.id(),
                            recorded_exit_event_id: s.events[m].id(),
                            recorded_result: s.events[m]->SyscallExit_result,
                            live_buffer_address: args@[1],
                            live_count: args@[2],
                        }
                    } else if number == 39 {
                        PendingReplaySyscall::SubstitutedGetpid {
                            recorded_enter_event_id: e.id(),
                            recorded_exit_event_id: s.events[m].id(),
                            recorded_result: s.events[m]->SyscallExit_result,
                        }
                    } else {
                        PendingReplaySyscall::Passthrough {
                            number,
                            recorded_enter_event_id: e.id(),
                        }
                    },
                )
                &&& kept ==> step.orders.len() > 0 && step.orders[0] == (Order::Suppress {
                    number,
                }) && goes_on(step.orders.skip(1), s.events, k + 1, 0)
                &&& !kept ==> goes_on(step.orders, s.events, k + 1, 0)
            }
        }),
{
    lemma_next(s.events, s.cursor, k);
    lemma_goes_on(s.events, k + 1, 0);
    if k < s.events.len() {
        lemma_next(s.events, k + 1, m);
    }
    let go = crate::replay::resume(s.events, k + 1, 0);
    assert((seq![Order::Suppress { number }] + go).skip(1) =~= go);
}

/// An exit without an entry is refused. The exit of a syscall that went to the kernel is
/// accepted exactly when the trace holds the exit of that syscall next; nothing is given back.
pub proof fn law_replayed_exit(s: Replaying, result: i64, is_error: u8, k: int)
    requires
        s.phase == Phase::SyscallStop,
        is_next(s.events, s.cursor, k),
    ensures
        ({
            let r = crate::replay::replay_step(
                s,
                Report::Syscall(SyscallInfo::Exit { result, is_error }),
            );
            let step = r->Ok_0;
            match s.pending {
                None => r is Err,
                Some(PendingReplaySyscall::Passthrough { number, .. }) => {
                    &&& r is Ok <==> k < s.events.len() && s.events[k] is SyscallExit
                        && s.events[k]->SyscallExit_number == number
                    &&& r is Ok ==> goes_on(step.orders, s.events, k + 1, 0) && step.next == (
                    Replaying { cursor: k + 1, pending: None, phase: Phase::Running, ..s })
                },
                _ => true,
            }
        }),
{
    lemma_next(s.events, s.cursor, k);
    lemma_goes_on(s.events, k + 1, 0);
}

/// At the exit of a `getpid` or of a `read` without data, which the kernel must have answered
/// with -38, the recorded result becomes the result of the syscall.
pub proof fn law_result_is_given_back(s: Replaying, result: i64, is_error: u8, k: int)
    requires
        s.phase == Phase::SyscallStop,
        is_next(s.events, s.cursor, k),
        match s.pending {
            Some(PendingReplaySyscall::SubstitutedGetpid { .. }) => true,
            Some(PendingReplaySyscall::SubstitutedRead { recorded_result, .. }) => recorded_result
                <= 0,
            _ => false,
        },
    ensures
        ({
            let r = crate::replay::replay_step(
                s,
                Report::Syscall(SyscallInfo::Exit { result, is_error }),
            );
            let step = r->Ok_0;
            let getpid = s.pending->0 is SubstitutedGetpid;
            let exit_id = if getpid {
                s.pending->0->SubstitutedGetpid_recorded_exit_event_id
            } else {
                s.pending->0->SubstitutedRead_recorded_exit_event_id
            };
            let recorded = if getpid {
                s.pending->0->SubstitutedGetpid_recorded_result
            } else {
                s.pending->0->SubstitutedRead_recorded_result
            };
            &&& r is Ok <==> k < s.events.len() && s.events[k].id() == exit_id && result == -38
            &&& r is Ok ==> {
                &&& step.orders.len() > 2
                &&& step.orders[0] == Order::SetResult(
                    crate::layout_laws::pattern64(recorded) as u64,
                )
                &&& step.orders[1] is Note
                &&& crate::saying_laws::says(
                    step.orders[1]->Note_0,
                    crate::saying_laws::line("replay-substitute event="@).number(
                        exit_id as int,
                    ).words(" syscall="@).words(if getpid { "getpid"@ } else { "read"@ }).words(
                        " recorded="@,
                    ).number(recorded as int).words(" live_pid="@).number(s.pid as int).words(
                        " suppressed="@,
                    ).number(result as int).words(" injected="@).number(recorded as int),
                )
                &&& goes_on(step.orders.skip(2), s.events, k + 1, 0)
                &&& step.next == (Replaying {
                    cursor: k + 1,
                    pending: None,
                    performed: s.performed + 1,
                    phase: Phase::Running,
                    ..s
                })
            }
        }),
{
    broadcast use crate::saying_laws::group_says;

    lemma_next(s.events, s.cursor, k);
    lemma_goes_on(s.events, k + 1, 0);
    let step = crate::replay::replay_step(
        s,
        Report::Syscall(SyscallInfo::Exit { result, is_error }),
    )->Ok_0;
    let go = crate::replay::resume(s.events, k + 1, 0);
    if crate::replay::replay_step(s, Report::Syscall(SyscallInfo::Exit { result, is_error })) is Ok {
        assert(step.orders.skip(2) =~= go);
    }
}

/// At the exit of a `read` that returned data, which the kernel must have answered with -38, the
/// recorded data goes to the live buffer and then the recorded result becomes the result of the
/// syscall. The data stands next in the trace, names the exit, is as long as the result and not
/// longer than the process has room for.
pub proof fn law_data_is_given_back(s: Replaying, result: i64, is_error: u8, k: int, m: int)
    requires
        s.phase == Phase::SyscallStop,
        is_next(s.events, s.cursor, k),
        k < s.events.len() ==> is_next(s.events, k + 1, m),
        s.pending is Some,
        s.pending->0 is SubstitutedRead,
        s.pending->0->SubstitutedRead_recorded_result > 0,
    ensures
        ({
            let r = crate::replay::replay_step(
                s,
                Report::Syscall(SyscallInfo::Exit { result, is_error }),
            );
            let step = r->Ok_0;
            let exit_id = s.pending->0->SubstitutedRead_recorded_exit_event_id;
            let recorded = s.pending->0->SubstitutedRead_recorded_result;
            let address = s.pending->0->SubstitutedRead_live_buffer_address;
            let d = s.events[m];
            &&& r is Ok <==> {
                &&& k < s.events.len()
                &&& s.events[k].id() == exit_id
                &&& result == -38
                &&& m < s.events.len()
                &&& d is KernelMemoryWrite
                &&& d->KernelMemoryWrite_source_event_id == exit_id
                &&& d->KernelMemoryWrite_data.len() == recorded
                &&& recorded <= s.pending->0->SubstitutedRead_live_count
            }
            &&& r is Ok ==> {
                &&& step.orders.len() > 3
                &&& step.orders[0] == (Order::WriteMemory {
                    event_id: d.id(),
                    address,
                    data: d->KernelMemoryWrite_data,
                })
                &&& step.orders[1] == Order::SetResult(recorded as u64)
                &&& step.orders[2] is Note
                &&& crate::saying_laws::says(
                    step.orders[2]->Note_0,
                    crate::saying_laws::line("replay-memory event="@).number(d.id() as int).words(
                        " syscall=read recorded_addr=0x"@,
                    ).hex(d->KernelMemoryWrite_recorded_address as int, 1).words(
                        " live_addr=0x"@,
                    ).hex(address as int, 1).words(" len="@).number(
                        d->KernelMemoryWrite_data.len() as int,
                    ).words(" suppressed="@).number(result as int).words(
                        " injected_result="@,
                    ).number(recorded as int),
                )
                &&& goes_on(step.orders.skip(3), s.events, m + 1, 0)
                &&& step.next == (Replaying {
                    cursor: m + 1,
                    pending: None,
                    performed: s.performed + 1,
                    phase: Phase::Running,
                    ..s
                })
            }
        }),
{
    broadcast use crate::saying_laws::group_says;

    lemma_next(s.events, s.cursor, k);
    if k < s.events.len() {
        lemma_next(s.events, k + 1, m);
    }
    lemma_goes_on(s.events, m + 1, 0);
    let r = crate::replay::replay_step(
        s,
        Report::Syscall(SyscallInfo::Exit { result, is_error }),
    );
    if r is Ok {
        assert(r->Ok_0.orders.skip(3) =~= crate::replay::resume(s.events, m + 1, 0));
    }
}

/// Stops that are neither an entry nor an exit, and reports of a kind that was not asked for,
/// end the replay.
pub proof fn law_other_reports_end_the_replay(s: Replaying, report: Report)
    requires
        match s.phase {
            Phase::Launched => !(report is Status),
            Phase::LaunchStop => !(report is Syscall),
            Phase::Running => !(report is Status),
            Phase::SyscallStop => !(report is Syscall) || !(report->Syscall_0 is Entry
                || report->Syscall_0 is Exit),
            Phase::SignalStop { .. } => !(report is Signal && report->Signal_0.len() == 128),
            Phase::Ended => true,
        },
    ensures
        crate::replay::replay_step(s, report) is Err,
{
}

} // verus!
