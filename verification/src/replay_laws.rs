//! What a replay can be relied on for.
use vstd::prelude::*;
use crate::recorder::TraceeTermination;
use crate::replay::{Order, PendingReplaySyscall, Phase, Replaying, Report};
use crate::signals::SYSCALL_STOP;
use crate::status::WaitStatus;
use crate::structure::Scan;
use crate::trace::{Event, SYS_GETPID_X86_64, SYS_READ_X86_64, Trace};

verus! {

/// A replay goes forward through one and the same trace.
pub proof fn law_replay_goes_forward(s: Replaying, report: Report)
    requires
        0 <= s.cursor <= s.events.len(),
        s.phase is SignalStop ==> s.cursor <= s.phase->SignalStop_index < s.events.len(),
        crate::replay::replay_step(s, report) is Ok,
    ensures
        ({
            let next = crate::replay::replay_step(s, report)->Ok_0.next;
            &&& next.pid == s.pid
            &&& next.version == s.version
            &&& next.events == s.events
            &&& s.cursor <= next.cursor <= s.events.len()
            &&& s.performed <= next.performed <= s.performed + 1
            &&& next.performed > s.performed ==> next.cursor > s.cursor
        }),
{
    let i = crate::replay::upcoming(s.events, s.cursor);
    crate::replay::lemma_upcoming(s.events, s.cursor);
    if i < s.events.len() {
        crate::replay::lemma_upcoming(s.events, i + 1);
    }
}

/// A replay succeeds only when every recorded event, but for descriptions of the memory map,
/// was replayed, and something came out of the trace. The process then ended as it is reported
/// to have ended.
pub proof fn law_success_means_complete(s: Replaying, report: Report, end: TraceeTermination, k: int)
    requires
        0 <= s.cursor <= s.events.len(),
        s.delivered is Some ==> s.performed > 0,
        s.performed >= 0,
        crate::replay::replay_step(s, report) is Ok,
        crate::replay::replay_step(s, report)->Ok_0.orders.contains(Order::Done(end)),
    ensures
        s.cursor <= k < s.events.len() ==> s.events[k].is_map_metadata(),
        s.performed > 0,
        report is Status,
        match end {
            TraceeTermination::Exited(code) => crate::status::wait_status(report->Status_0)
                == WaitStatus::Exited(code),
            TraceeTermination::Signaled(signal) => crate::status::wait_status(report->Status_0)
                == WaitStatus::Signaled(signal) && s.delivered == Some(signal),
        },
{
    crate::replay::lemma_upcoming(s.events, s.cursor);
    let step = crate::replay::replay_step(s, report)->Ok_0;
    let j = choose|j: int| 0 <= j < step.orders.len() && step.orders[j] == Order::Done(end);
    assert(step.orders[j] == Order::Done(end));
}

/// The kernel is kept from carrying out a syscall only if the process enters that syscall,
/// the trace holds its entry next, and it is one of the substituted ones.
pub proof fn law_only_substituted_calls_are_suppressed(s: Replaying, report: Report, number: u64)
    requires
        crate::replay::replay_step(s, report) is Ok,
        crate::replay::replay_step(s, report)->Ok_0.orders.contains(Order::Suppress { number }),
    ensures
        crate::trace::substituted(number),
        report is Syscall,
        report->Syscall_0 is Entry,
        report->Syscall_0->Entry_number == number,
        ({
            let e = s.events[crate::replay::upcoming(s.events, s.cursor)];
            e is SyscallEnter && e->SyscallEnter_number == number
        }),
{
    let step = crate::replay::replay_step(s, report)->Ok_0;
    let order = Order::Suppress { number };
    let j = choose|j: int| 0 <= j < step.orders.len() && step.orders[j] == order;
    assert(step.orders[j] == order);
}

/// Data goes to the address that the live process passed to its read, never to the recorded
/// one; it is the recorded data, as long as the result says and no longer than the process has
/// room for; and it is there before the result is.
pub proof fn law_data_goes_to_live_buffer(s: Replaying, report: Report, j: int)
    requires
        0 <= s.cursor <= s.events.len(),
        crate::replay::replay_step(s, report) is Ok,
        0 <= j < crate::replay::replay_step(s, report)->Ok_0.orders.len(),
        crate::replay::replay_step(s, report)->Ok_0.orders[j] is WriteMemory,
    ensures
        ({
            let step = crate::replay::replay_step(s, report)->Ok_0;
            let write = step.orders[j];
            let call = s.pending->0;
            &&& s.pending is Some
            &&& call is SubstitutedRead
            &&& write->address == call->live_buffer_address
            &&& write->WriteMemory_data.len() == call->SubstitutedRead_recorded_result
            &&& call->SubstitutedRead_recorded_result <= call->live_count
            &&& exists|k: int|
                s.cursor <= k < s.events.len() && (#[trigger] s.events[k]) is KernelMemoryWrite
                    && s.events[k]->KernelMemoryWrite_data == write->WriteMemory_data
            &&& j + 1 < step.orders.len()
            &&& step.orders[j + 1] == Order::SetResult(
                crate::bytes::unsigned_of(call->SubstitutedRead_recorded_result),
            )
        }),
{
    let i = crate::replay::upcoming(s.events, s.cursor);
    crate::replay::lemma_upcoming(s.events, s.cursor);
    if i < s.events.len() {
        crate::replay::lemma_upcoming(s.events, i + 1);
    }
}

/// A result is set only at the exit of a suppressed syscall, and it is the recorded one.
pub proof fn law_results_are_recorded_ones(s: Replaying, report: Report, j: int)
    requires
        crate::replay::replay_step(s, report) is Ok,
        0 <= j < crate::replay::replay_step(s, report)->Ok_0.orders.len(),
        crate::replay::replay_step(s, report)->Ok_0.orders[j] is SetResult,
    ensures
        s.pending is Some,
        report is Syscall,
        report->Syscall_0 is Exit,
        report->Syscall_0->Exit_result == crate::replay::SUPPRESSED_RESULT,
        ({
            let result = crate::replay::replay_step(s, report)->Ok_0.orders[j]->SetResult_0;
            match s.pending->0 {
                PendingReplaySyscall::Passthrough { .. } => false,
                PendingReplaySyscall::SubstitutedGetpid { recorded_result, .. } => result
                    == crate::bytes::unsigned_of(recorded_result),
                PendingReplaySyscall::SubstitutedRead { recorded_result, .. } => result
                    == crate::bytes::unsigned_of(recorded_result),
            }
        }),
{
}

/// The number of a pending syscall.
pub open spec fn call_number(call: PendingReplaySyscall) -> u64 {
    match call {
        PendingReplaySyscall::Passthrough { number, .. } => number,
        PendingReplaySyscall::SubstitutedGetpid { .. } => SYS_GETPID_X86_64,
        PendingReplaySyscall::SubstitutedRead { .. } => SYS_READ_X86_64,
    }
}

pub open spec fn open_number(pending: Option<PendingReplaySyscall>) -> Option<u64> {
    match pending {
        None => None,
        Some(call) => Some(call_number(call)),
    }
}

/// The rest of the trace, from the cursor on, is sound for what the scan `x` leaves open, and
/// nothing in it keeps it from being replayed.
pub open spec fn rest_is_sound(s: Replaying, x: Scan) -> bool {
    &&& match crate::structure::scan_from(s.version, s.events, s.cursor, x) {
        Err(_) => false,
        Ok(last) => crate::structure::end_complaint(s.version, last) is None,
    }
    &&& crate::replay::signal_complaint(s.events, s.cursor, open_number(s.pending)) is None
    &&& crate::replay::result_complaint(s.version, s.events, s.cursor) is None
    &&& s.performed == 0 ==> exists|k: int|
        s.cursor <= k < s.events.len() && crate::replay::replayable(#[trigger] s.events[k])
}

/// The pending live syscall is the one that the scan `x` has open.
pub open spec fn pending_agrees(s: Replaying, x: Scan) -> bool {
    let tid = s.events[0].thread();
    &&& x.read is None
    &&& x.open.contains_key(tid) <==> s.pending is Some
    &&& match s.pending {
        None => true,
        Some(call) => {
            &&& x.open[tid].number == call_number(call)
            &&& match call {
                PendingReplaySyscall::Passthrough { number, .. } => !crate::trace::substituted(
                    number,
                ),
                PendingReplaySyscall::SubstitutedGetpid {
                    recorded_exit_event_id,
                    recorded_result,
                    ..
                } => exit_comes_next(s, recorded_exit_event_id, recorded_result),
                PendingReplaySyscall::SubstitutedRead {
                    recorded_exit_event_id,
                    recorded_result,
                    live_count,
                    ..
                } => x.open[tid].count == live_count && exit_comes_next(
                    s,
                    recorded_exit_event_id,
                    recorded_result,
                ),
            }
        },
    }
}

pub open spec fn exit_comes_next(s: Replaying, exit_id: u64, recorded: i64) -> bool {
    let i = crate::replay::upcoming(s.events, s.cursor);
    &&& i < s.events.len()
    &&& s.events[i] is SyscallExit
    &&& s.events[i].id() == exit_id
    &&& s.events[i]->SyscallExit_result == recorded
}

/// A state that a replay can be in, as far as the trace goes.
pub open spec fn in_step(s: Replaying) -> bool {
    &&& 1 <= s.version <= 4
    &&& s.events.len() > 0
    &&& s.events.len() <= usize::MAX
    &&& 0 <= s.cursor <= s.events.len()
    &&& s.performed >= 0
    &&& forall|i: int|
        0 <= i < s.events.len() ==> (#[trigger] s.events[i]).thread() == s.events[0].thread()
    &&& forall|i: int|
        0 <= i < s.events.len() ==> crate::trace_laws::encodable(
            s.version,
            #[trigger] s.events[i],
        )
    &&& exists|x: Scan| #[trigger] rest_is_sound(s, x) && pending_agrees(s, x)
    &&& match s.phase {
        Phase::SignalStop { index } => index == crate::replay::upcoming(s.events, s.cursor)
            && index < s.events.len() && s.events[index as int] is SignalDelivery,
        _ => true,
    }
}

/// The live process does what the trace holds next.
pub open spec fn as_recorded(s: Replaying, report: Report) -> bool {
    let i = crate::replay::upcoming(s.events, s.cursor);
    match (s.phase, report) {
        (Phase::Launched, Report::Status(status)) => status & 0xff == 0x7f
            && crate::status::second_byte(status) == SYSCALL_STOP,
        (Phase::LaunchStop, Report::Syscall(info)) => info is Exit,
        (Phase::Running, Report::Status(status)) => if i < s.events.len() {
            match s.events[i] {
                Event::SignalDelivery { signal_number, .. } => crate::status::wait_status(status)
                    == (WaitStatus::Stopped { signal: signal_number, event: 0 }),
                _ => crate::status::wait_status(status) == (WaitStatus::Stopped {
                    signal: SYSCALL_STOP,
                    event: 0,
                }),
            }
        } else {
            match crate::status::wait_status(status) {
                WaitStatus::Exited(_) => crate::replay::terminating(s.pending),
                WaitStatus::Signaled(signal) => s.delivered == Some(signal),
                _ => false,
            }
        },
        (Phase::SyscallStop, Report::Syscall(info)) => i < s.events.len() && match s.events[i] {
            Event::SyscallEnter { number, args, .. } => {
                &&& info is Entry
                &&& info->Entry_number == number
                &&& number == SYS_READ_X86_64 ==> info->Entry_args@[2] == args[2]
                &&& crate::trace::substituted(number) ==> crate::replay::upcoming(s.events, i + 1)
                    < s.events.len()
            },
            Event::SyscallExit { .. } => {
                &&& info is Exit
                &&& s.pending is Some && !(s.pending->0 is Passthrough) ==> info->Exit_result
                    == crate::replay::SUPPRESSED_RESULT
            },
            _ => false,
        },
        (Phase::SignalStop { index }, Report::Signal(info)) => {
            let e = s.events[index as int];
            let fields = crate::signals::signal_fields(info);
            &&& fields.signo == e->SignalDelivery_signal_number
            &&& fields.errno == e->SignalDelivery_si_errno
            &&& fields.code == e->SignalDelivery_si_code
        },
        _ => false,
    }
}

/// Going over descriptions of the memory map leaves open what was open.
proof fn lemma_skip_metadata(s: Replaying, x: Scan) -> (y: Scan)
    requires
        0 <= s.cursor <= s.events.len(),
        rest_is_sound(s, x),
    ensures
        y.open == x.open,
        y.read == x.read,
        crate::structure::scan_from(s.version, s.events, s.cursor, x)
            == crate::structure::scan_from(
            s.version,
            s.events,
            crate::replay::upcoming(s.events, s.cursor),
            y,
        ),
        crate::replay::signal_complaint(
            s.events,
            crate::replay::upcoming(s.events, s.cursor),
            open_number(s.pending),
        ) is None,
        crate::replay::result_complaint(
            s.version,
            s.events,
            crate::replay::upcoming(s.events, s.cursor),
        ) is None,
        s.performed == 0 ==> exists|k: int|
            crate::replay::upcoming(s.events, s.cursor) <= k < s.events.len()
                && crate::replay::replayable(#[trigger] s.events[k]),
    decreases s.events.len() - s.cursor,
{
    if s.cursor < s.events.len() && s.events[s.cursor].is_map_metadata() {
        let next = crate::structure::scan_step(s.version, s.events, s.cursor, x)->Ok_0;
        let t = Replaying { cursor: s.cursor + 1, ..s };
        if s.performed == 0 {
            let k = choose|k: int|
                s.cursor <= k < s.events.len() && crate::replay::replayable(#[trigger] s.events[k]);
            assert(k != s.cursor);
            assert(t.cursor <= k && crate::replay::replayable(t.events[k]));
        }
        assert(rest_is_sound(t, next));
        lemma_skip_metadata(t, next)
    } else {
        x
    }
}

#[verifier::rlimit(50)]
proof fn lemma_entry_in_step(s: Replaying, report: Report)
    requires
        in_step(s),
        s.phase == Phase::SyscallStop,
        as_recorded(s, report),
        s.events[crate::replay::upcoming(s.events, s.cursor)] is SyscallEnter,
    ensures
        crate::replay::replay_step(s, report) is Ok,
        in_step(crate::replay::replay_step(s, report)->Ok_0.next),
{
    let x = choose|x: Scan| #[trigger] rest_is_sound(s, x) && pending_agrees(s, x);
    let y = lemma_skip_metadata(s, x);
    let i = crate::replay::upcoming(s.events, s.cursor);
    crate::replay::lemma_upcoming(s.events, s.cursor);
    let e = s.events[i];
    let tid = s.events[0].thread();
    assert(e.thread() == tid);
    let number = e->SyscallEnter_number;
    let z = crate::structure::scan_step(s.version, s.events, i, y)->Ok_0;
    assert(crate::structure::scan_step(s.version, s.events, i, y) is Ok);
    assert(s.pending is None);
    crate::replay::lemma_upcoming(s.events, i + 1);
    let mid = Replaying {
        cursor: i + 1,
        pending: Some(
            PendingReplaySyscall::Passthrough { number, recorded_enter_event_id: e.id() },
        ),
        phase: Phase::Running,
        ..s
    };
    if s.performed == 0 {
        let k = choose|k: int|
            i <= k < s.events.len() && crate::replay::replayable(#[trigger] s.events[k]);
        assert(k != i);
        assert(mid.cursor <= k && crate::replay::replayable(mid.events[k]));
    }
    assert(rest_is_sound(mid, z));
    if crate::trace::substituted(number) {
        let w = lemma_skip_metadata(mid, z);
        let k = crate::replay::upcoming(s.events, i + 1);
        lemma_exit_after_entry(s, mid, w, number, k);
        let next = crate::replay::replay_step(s, report)->Ok_0.next;
        assert(crate::replay::recorded_exit(s, i, number) is Ok);
        assert(rest_is_sound(next, z));
        assert(pending_agrees(next, z));
    } else {
        let next = crate::replay::replay_step(s, report)->Ok_0.next;
        assert(next == mid);
        assert(pending_agrees(next, z));
    }
}

/// The exit that follows a substituted entry can be replayed.
proof fn lemma_exit_after_entry(s: Replaying, mid: Replaying, w: Scan, number: u64, k: int)
    requires
        in_step(s),
        mid.events == s.events,
        mid.version == s.version,
        0 <= mid.cursor <= s.events.len(),
        k == crate::replay::upcoming(s.events, mid.cursor) < s.events.len(),
        w.read is None,
        w.open.contains_key(s.events[0].thread()),
        w.open[s.events[0].thread()].number == number,
        crate::trace::substituted(number),
        crate::structure::scan_from(s.version, s.events, k, w) is Ok,
        crate::replay::signal_complaint(s.events, k, Some(number)) is None,
        crate::replay::result_complaint(s.version, s.events, k) is None,
    ensures
        s.events[k] is SyscallExit,
        s.events[k]->SyscallExit_number == number,
        !(number == SYS_READ_X86_64 && s.version < 2 && s.events[k]->SyscallExit_result > 0),
{
    crate::replay::lemma_upcoming(s.events, mid.cursor);
    let step = crate::structure::scan_step(s.version, s.events, k, w);
    assert(step is Ok);
    assert(s.events[k].thread() == s.events[0].thread());
}

/// What is known where the exit of the pending syscall comes next.
#[verifier::rlimit(50)]
proof fn lemma_at_exit(s: Replaying) -> (z: Scan)
    requires
        in_step(s),
        crate::replay::upcoming(s.events, s.cursor) < s.events.len(),
        s.events[crate::replay::upcoming(s.events, s.cursor)] is SyscallExit,
    ensures
        ({
            let i = crate::replay::upcoming(s.events, s.cursor);
            let tid = s.events[0].thread();
            let e = s.events[i];
            let recorded = e->SyscallExit_result;
            &&& s.cursor <= i
            &&& s.pending is Some
            &&& call_number(s.pending->0) == e->SyscallExit_number
            &&& s.pending->0 is Passthrough ==> !crate::trace::substituted(e->SyscallExit_number)
            &&& !z.open.contains_key(tid)
            &&& match crate::structure::scan_from(s.version, s.events, i + 1, z) {
                Err(_) => false,
                Ok(last) => crate::structure::end_complaint(s.version, last) is None,
            }
            &&& crate::replay::signal_complaint(s.events, i + 1, None) is None
            &&& crate::replay::result_complaint(s.version, s.events, i + 1) is None
            &&& s.performed == 0 && !crate::replay::replayable(e) ==> exists|k: int|
                i + 1 <= k < s.events.len() && crate::replay::replayable(#[trigger] s.events[k])
            &&& match s.pending->0 {
                PendingReplaySyscall::Passthrough { .. } => z.read is None,
                PendingReplaySyscall::SubstitutedGetpid {
                    recorded_exit_event_id,
                    recorded_result,
                    ..
                } => z.read is None && recorded_exit_event_id == e.id() && recorded_result
                    == recorded,
                PendingReplaySyscall::SubstitutedRead {
                    recorded_exit_event_id,
                    recorded_result,
                    live_count,
                    ..
                } => {
                    &&& recorded_exit_event_id == e.id()
                    &&& recorded_result == recorded
                    &&& if recorded > 0 {
                        &&& s.version >= 2
                        &&& recorded <= live_count
                        &&& z.read is Some
                        &&& z.read->0.result == recorded
                        &&& z.read->0.event_id == e.id()
                        &&& z.last_exit == Some(
                            crate::structure::CallExit {
                                event_id: e.id(),
                                number: SYS_READ_X86_64,
                            },
                        )
                    } else {
                        z.read is None
                    }
                },
            }
        }),
{
    let x = choose|x: Scan| #[trigger] rest_is_sound(s, x) && pending_agrees(s, x);
    let y = lemma_skip_metadata(s, x);
    let i = crate::replay::upcoming(s.events, s.cursor);
    crate::replay::lemma_upcoming(s.events, s.cursor);
    let e = s.events[i];
    assert(e.thread() == s.events[0].thread());
    assert(crate::structure::scan_step(s.version, s.events, i, y) is Ok);
    let z = crate::structure::scan_step(s.version, s.events, i, y)->Ok_0;
    if s.performed == 0 && !crate::replay::replayable(e) {
        let k = choose|k: int|
            i <= k < s.events.len() && crate::replay::replayable(#[trigger] s.events[k]);
        assert(k != i);
    }
    z
}

/// The data of a read follows its exit.
proof fn lemma_data_follows(s: Replaying, i: int, z: Scan) -> (after: Scan)
    requires
        in_step(s),
        0 <= i < s.events.len(),
        s.version >= 2,
        z.read is Some,
        z.read->0.result > 0,
        z.last_exit is Some,
        z.last_exit->0.number == SYS_READ_X86_64,
        match crate::structure::scan_from(s.version, s.events, i + 1, z) {
            Err(_) => false,
            Ok(last) => crate::structure::end_complaint(s.version, last) is None,
        },
    ensures
        i + 1 < s.events.len(),
        crate::replay::upcoming(s.events, i + 1) == i + 1,
        s.events[i + 1] is KernelMemoryWrite,
        s.events[i + 1]->KernelMemoryWrite_source_event_id == z.read->0.event_id,
        s.events[i + 1]->KernelMemoryWrite_data.len() == z.read->0.result,
        after.read is None,
        after.open == z.open,
        crate::structure::scan_from(s.version, s.events, i + 1, z)
            == crate::structure::scan_from(s.version, s.events, i + 2, after),
{
    let step = crate::structure::scan_step(s.version, s.events, i + 1, z);
    if i + 1 < s.events.len() {
        assert(step is Ok);
    }
    step->Ok_0
}

#[verifier::rlimit(50)]
proof fn lemma_data_exit_in_step(s: Replaying, report: Report)
    requires
        in_step(s),
        s.phase == Phase::SyscallStop,
        as_recorded(s, report),
        s.events[crate::replay::upcoming(s.events, s.cursor)] is SyscallExit,
        s.pending is Some,
        s.pending->0 is SubstitutedRead,
        s.pending->0->SubstitutedRead_recorded_result > 0,
    ensures
        crate::replay::replay_step(s, report) is Ok,
        in_step(crate::replay::replay_step(s, report)->Ok_0.next),
{
    let i = crate::replay::upcoming(s.events, s.cursor);
    let z = lemma_at_exit(s);
    let after = lemma_data_follows(s, i, z);
    let step = crate::replay::replay_step(s, report);
    assert(step is Ok);
    let next = step->Ok_0.next;
    assert(next.cursor == i + 2);
    assert(crate::replay::signal_complaint(s.events, i + 2, None) is None);
    assert(crate::replay::result_complaint(s.version, s.events, i + 2) is None);
    assert(rest_is_sound(next, after));
    assert(pending_agrees(next, after));
}

#[verifier::rlimit(50)]
proof fn lemma_plain_exit_in_step(s: Replaying, report: Report)
    requires
        in_step(s),
        s.phase == Phase::SyscallStop,
        as_recorded(s, report),
        s.events[crate::replay::upcoming(s.events, s.cursor)] is SyscallExit,
        s.pending is Some && s.pending->0 is SubstitutedRead
            ==> s.pending->0->SubstitutedRead_recorded_result <= 0,
    ensures
        crate::replay::replay_step(s, report) is Ok,
        in_step(crate::replay::replay_step(s, report)->Ok_0.next),
{
    let i = crate::replay::upcoming(s.events, s.cursor);
    let z = lemma_at_exit(s);
    let step = crate::replay::replay_step(s, report);
    assert(step is Ok);
    let next = step->Ok_0.next;
    assert(next.cursor == i + 1);
    if next.performed == 0 {
        let k = choose|k: int|
            i + 1 <= k < s.events.len() && crate::replay::replayable(#[trigger] s.events[k]);
        assert(next.cursor <= k && crate::replay::replayable(next.events[k]));
    }
    assert(rest_is_sound(next, z));
    assert(pending_agrees(next, z));
}

#[verifier::rlimit(50)]
proof fn lemma_status_in_step(s: Replaying, report: Report)
    requires
        in_step(s),
        s.phase == Phase::Running,
        as_recorded(s, report),
    ensures
        crate::replay::replay_step(s, report) is Ok,
        in_step(crate::replay::replay_step(s, report)->Ok_0.next),
{
    let x = choose|x: Scan| #[trigger] rest_is_sound(s, x) && pending_agrees(s, x);
    let y = lemma_skip_metadata(s, x);
    let i = crate::replay::upcoming(s.events, s.cursor);
    crate::replay::lemma_upcoming(s.events, s.cursor);
    if i < s.events.len() {
        assert(crate::trace_laws::encodable(s.version, s.events[i]));
    }
    let next = crate::replay::replay_step(s, report)->Ok_0.next;
    assert(crate::replay::replay_step(s, report) is Ok);
    assert(rest_is_sound(next, x));
    assert(pending_agrees(next, x));
}

#[verifier::rlimit(50)]
proof fn lemma_signal_in_step(s: Replaying, report: Report)
    requires
        in_step(s),
        s.phase is SignalStop,
        crate::replay::expected(s.phase, report),
        as_recorded(s, report),
    ensures
        crate::replay::replay_step(s, report) is Ok,
        in_step(crate::replay::replay_step(s, report)->Ok_0.next),
{
    let x = choose|x: Scan| #[trigger] rest_is_sound(s, x) && pending_agrees(s, x);
    let y = lemma_skip_metadata(s, x);
    let i = crate::replay::upcoming(s.events, s.cursor);
    crate::replay::lemma_upcoming(s.events, s.cursor);
    let z = crate::structure::scan_step(s.version, s.events, i, y)->Ok_0;
    assert(crate::structure::scan_step(s.version, s.events, i, y) is Ok);
    let next = crate::replay::replay_step(s, report)->Ok_0.next;
    crate::replay::lemma_upcoming(s.events, i + 1);
    assert(s.pending is Some ==> s.pending->0 is Passthrough);
    assert(rest_is_sound(next, z));
    assert(pending_agrees(next, z));
}

/// A process that does what the trace holds is never taken to diverge: each of its stops is
/// accepted, until the trace is used up and the replay succeeds. A trace that ends right after
/// the entry of a substituted syscall has no result for it and is left out.
pub proof fn law_faithful_process_is_accepted(s: Replaying, report: Report)
    requires
        in_step(s),
        crate::replay::expected(s.phase, report),
        as_recorded(s, report),
    ensures
        crate::replay::replay_step(s, report) is Ok,
        in_step(crate::replay::replay_step(s, report)->Ok_0.next),
{
    match s.phase {
        Phase::Launched => {
            let x = choose|x: Scan| #[trigger] rest_is_sound(s, x) && pending_agrees(s, x);
            let next = crate::replay::replay_step(s, report)->Ok_0.next;
            assert(rest_is_sound(next, x) && pending_agrees(next, x));
        },
        Phase::LaunchStop => {
            let x = choose|x: Scan| #[trigger] rest_is_sound(s, x) && pending_agrees(s, x);
            let next = crate::replay::replay_step(s, report)->Ok_0.next;
            assert(rest_is_sound(next, x) && pending_agrees(next, x));
        },
        Phase::Running => lemma_status_in_step(s, report),
        Phase::SyscallStop => {
            if s.events[crate::replay::upcoming(s.events, s.cursor)] is SyscallEnter {
                lemma_entry_in_step(s, report);
            } else if s.pending is Some && s.pending->0 is SubstitutedRead
                && s.pending->0->SubstitutedRead_recorded_result > 0 {
                lemma_data_exit_in_step(s, report);
            } else {
                lemma_plain_exit_in_step(s, report);
            }
        },
        Phase::SignalStop { .. } => lemma_signal_in_step(s, report),
        Phase::Ended => {},
    }
}

/// A process that does something else than the trace holds next is taken to diverge, at once.
/// A syscall stop alone does not yet tell: it is accepted, and the replay is still in step and
/// asks which syscall it is about.
pub proof fn law_divergence_is_refused(s: Replaying, report: Report)
    requires
        in_step(s),
        !as_recorded(s, report),
    ensures
        if s.phase is Running && report is Status && crate::status::wait_status(report->Status_0)
            == (WaitStatus::Stopped { signal: SYSCALL_STOP, event: 0 }) {
            let step = crate::replay::replay_step(s, report);
            &&& step is Ok
            &&& step->Ok_0.next.phase is SyscallStop
            &&& step->Ok_0.orders == seq![Order::QuerySyscall]
            &&& in_step(step->Ok_0.next)
        } else {
            crate::replay::replay_step(s, report) is Err
        },
{
    let x = choose|x: Scan| #[trigger] rest_is_sound(s, x) && pending_agrees(s, x);
    if s.phase is Running && report is Status && crate::status::wait_status(report->Status_0) == (
    WaitStatus::Stopped { signal: SYSCALL_STOP, event: 0 }) {
        let next = crate::replay::replay_step(s, report)->Ok_0.next;
        assert(rest_is_sound(next, x) && pending_agrees(next, x));
    }
}

/// A replay of a trace that was read and passed the checks before launch begins in step.
pub proof fn law_replay_begins_in_step(s: Replaying)
    requires
        crate::trace_laws::well_formed(Trace { version: s.version, events: s.events }),
        crate::replay::preflight_complaint(Trace { version: s.version, events: s.events }) is None,
        s.events.len() <= usize::MAX,
        s.cursor == 0,
        s.pending is None,
        s.performed == 0,
        s.delivered is None,
        s.phase == Phase::Launched,
    ensures
        in_step(s),
{
    let x = crate::structure::scan_start();
    let t = Trace { version: s.version, events: s.events };
    let k = choose|k: int|
        0 <= k < t.events.len() && crate::replay::replayable(#[trigger] t.events[k]);
    assert(s.cursor <= k && crate::replay::replayable(s.events[k]));
    assert(rest_is_sound(s, x));
    assert(pending_agrees(s, x));
    assert forall|i: int| 0 <= i < s.events.len() implies (#[trigger] s.events[i]).thread()
        == s.events[0].thread() by {
        assert(t.events[i].thread() == t.events[0].thread());
    }
}

/// A trace that passed the checks before launch holds events of one thread only, results that
/// can be given back, and signals that a process sent.
pub proof fn law_preflight_admits_only_replayable(t: Trace, i: int)
    requires
        crate::replay::preflight_complaint(t) is None,
        0 <= i < t.events.len(),
    ensures
        t.events[i].thread() == t.events[0].thread(),
        match t.events[i] {
            Event::SyscallExit { number, result, .. } => {
                &&& number == SYS_GETPID_X86_64 ==> 0 < result <= i32::MAX
                &&& number == SYS_READ_X86_64 && result > 0 ==> t.version >= 2
            },
            Event::SignalDelivery { signal_number, si_code, .. } => {
                &&& !crate::signals::stopping(signal_number)
                &&& crate::signals::sent_by_process(si_code)
            },
            _ => true,
        },
{
    assert(t.events[i].thread() == t.events[0].thread());
    lemma_results_hold(t.version, t.events, 0, i);
    lemma_signals_hold(t.events, 0, None, i, -1);
}

/// A trace that passed the checks before launch has no signal inside a substituted syscall: at
/// a signal, the last syscall that was entered either was left again or passes through.
pub proof fn law_preflight_keeps_signals_out_of_substituted_calls(t: Trace, i: int, j: int)
    requires
        crate::replay::preflight_complaint(t) is None,
        0 <= j < i < t.events.len(),
        t.events[i] is SignalDelivery,
        t.events[j] is SyscallEnter,
        forall|k: int|
            j < k < i ==> !((#[trigger] t.events[k]) is SyscallEnter)
                && !(t.events[k] is SyscallExit),
    ensures
        !crate::trace::substituted(t.events[j]->SyscallEnter_number),
{
    lemma_signals_hold(t.events, 0, None, i, j);
}

proof fn lemma_results_hold(version: u32, es: Seq<Event>, from: int, i: int)
    requires
        0 <= from <= i < es.len(),
        crate::replay::result_complaint(version, es, from) is None,
    ensures
        match es[i] {
            Event::SyscallExit { number, result, .. } => {
                &&& number == SYS_GETPID_X86_64 ==> 0 < result <= i32::MAX
                &&& number == SYS_READ_X86_64 && result > 0 ==> version >= 2
            },
            _ => true,
        },
    decreases i - from,
{
    if from < i {
        lemma_results_hold(version, es, from + 1, i);
    }
}

proof fn lemma_signals_hold(es: Seq<Event>, from: int, open: Option<u64>, i: int, j: int)
    requires
        0 <= from <= i < es.len(),
        j < i,
        crate::replay::signal_complaint(es, from, open) is None,
        forall|k: int|
            0 <= j < k < i ==> !((#[trigger] es[k]) is SyscallEnter) && !(es[k] is SyscallExit),
        0 <= j < from && es[j] is SyscallEnter ==> open == Some(es[j]->SyscallEnter_number),
    ensures
        match es[i] {
            Event::SignalDelivery { signal_number, si_code, .. } => {
                &&& !crate::signals::stopping(signal_number)
                &&& crate::signals::sent_by_process(si_code)
                &&& 0 <= j && es[j] is SyscallEnter ==> !crate::trace::substituted(
                    es[j]->SyscallEnter_number,
                )
            },
            _ => true,
        },
    decreases i - from,
{
    if from < i {
        match es[from] {
            Event::SyscallEnter { number, .. } => lemma_signals_hold(
                es,
                from + 1,
                Some(number),
                i,
                j,
            ),
            Event::SyscallExit { .. } => lemma_signals_hold(es, from + 1, None, i, j),
            _ => lemma_signals_hold(es, from + 1, open, i, j),
        }
    }
}

} // verus!
