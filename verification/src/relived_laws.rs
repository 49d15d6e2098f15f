//! Over a whole replay, the live process does what the trace tells, and is given what the
//! trace holds.
use vstd::prelude::*;
use crate::recorder::SyscallInfo;
use crate::replay::{Order, PendingReplaySyscall, Phase, ReplayCommand, ReplayInput, Replaying, Report};
use crate::testimony_laws::Entered;
use crate::trace::{Event, Trace};

verus! {

/// A thing that the process does or that happens to it.
pub enum Lived {
    Enter { number: u64 },
    Exit { number: u64 },
    Signal { signal: i32 },
}

/// The syscall that the live process last entered.
pub open spec fn last_live_entry(reports: Seq<Report>) -> Option<Entered>
    decreases reports.len(),
{
    if reports.len() == 0 {
        None
    } else {
        match reports.last() {
            Report::Syscall(SyscallInfo::Entry { number, args }) => Some(
                Entered { number, args: args@ },
            ),
            _ => last_live_entry(reports.drop_last()),
        }
    }
}

/// The kernel has reported an exit.
pub open spec fn has_live_exit(reports: Seq<Report>) -> bool
    decreases reports.len(),
{
    reports.len() > 0 && (has_live_exit(reports.drop_last()) || (reports.last() is Syscall
        && reports.last()->Syscall_0 is Exit))
}

/// What the live process does, in order. The first exit is the one from `execve`.
pub open spec fn lived_by_process(reports: Seq<Report>) -> Seq<Lived>
    decreases reports.len(),
{
    if reports.len() == 0 {
        Seq::empty()
    } else {
        let before = lived_by_process(reports.drop_last());
        match reports.last() {
            Report::Syscall(SyscallInfo::Entry { number, .. }) => before.push(
                Lived::Enter { number },
            ),
            Report::Syscall(SyscallInfo::Exit { .. }) => if has_live_exit(reports.drop_last()) {
                before.push(Lived::Exit { number: last_live_entry(reports)->0.number })
            } else {
                before
            },
            Report::Signal(info) => before.push(
                Lived::Signal { signal: crate::signals::signal_fields(info).signo },
            ),
            _ => before,
        }
    }
}

/// What the recorded process did, in order.
pub open spec fn lived_in_trace(es: Seq<Event>) -> Seq<Lived>
    decreases es.len(),
{
    if es.len() == 0 {
        Seq::empty()
    } else {
        let before = lived_in_trace(es.drop_last());
        match es.last() {
            Event::SyscallEnter { number, .. } => before.push(Lived::Enter { number }),
            Event::SyscallExit { number, .. } => before.push(Lived::Exit { number }),
            Event::SignalDelivery { signal_number, .. } => before.push(
                Lived::Signal { signal: signal_number },
            ),
            _ => before,
        }
    }
}

/// The number of the syscall that is under way.
pub open spec fn number_under_way(call: PendingReplaySyscall) -> u64 {
    match call {
        PendingReplaySyscall::Passthrough { number, .. } => number,
        PendingReplaySyscall::SubstitutedGetpid { .. } => 39,
        PendingReplaySyscall::SubstitutedRead { .. } => 0,
    }
}

/// The trace holds an exit with this id, number and result.
pub open spec fn trace_has_exit(es: Seq<Event>, id: u64, number: u64, result: i64) -> bool {
    &&& 1 <= id <= es.len()
    &&& es[id - 1] is SyscallExit
    &&& es[id - 1]->SyscallExit_number == number
    &&& es[id - 1]->SyscallExit_result == result
}

/// How the state of a replay reflects the reports so far.
spec fn relives(t: Trace, s: Replaying, reports: Seq<Report>) -> bool {
    &&& s.events == t.events
    &&& s.version == t.version
    &&& 0 <= s.cursor <= t.events.len()
    &&& lived_in_trace(t.events.take(s.cursor)) == lived_by_process(reports)
    &&& has_live_exit(reports) <==> !(s.phase == Phase::Launched || s.phase == Phase::LaunchStop)
    &&& match s.pending {
        None => true,
        Some(call) => {
            &&& last_live_entry(reports) is Some
            &&& last_live_entry(reports)->0.number == number_under_way(call)
            &&& match call {
                PendingReplaySyscall::Passthrough { .. } => true,
                PendingReplaySyscall::SubstitutedGetpid {
                    recorded_exit_event_id,
                    recorded_result,
                    ..
                } => trace_has_exit(t.events, recorded_exit_event_id, 39, recorded_result),
                PendingReplaySyscall::SubstitutedRead {
                    recorded_exit_event_id,
                    recorded_result,
                    live_buffer_address,
                    live_count,
                    ..
                } => {
                    &&& trace_has_exit(t.events, recorded_exit_event_id, 0, recorded_result)
                    &&& live_buffer_address == last_live_entry(reports)->0.args[1]
                    &&& live_count == last_live_entry(reports)->0.args[2]
                },
            }
        },
    }
    &&& match s.phase {
        Phase::SignalStop { index } => {
            &&& crate::giveback_laws::is_next(t.events, s.cursor, index as int)
            &&& index < t.events.len()
            &&& t.events[index as int] is SignalDelivery
        },
        _ => true,
    }
}

/// Going over descriptions of the memory map and one event.
proof fn lemma_lived_on(es: Seq<Event>, i: int, k: int)
    requires
        crate::giveback_laws::is_next(es, i, k),
    ensures
        lived_in_trace(es.take(k)) == lived_in_trace(es.take(i)),
        k < es.len() ==> lived_in_trace(es.take(k + 1)) == match es[k] {
            Event::SyscallEnter { number, .. } => lived_in_trace(es.take(i)).push(
                Lived::Enter { number },
            ),
            Event::SyscallExit { number, .. } => lived_in_trace(es.take(i)).push(
                Lived::Exit { number },
            ),
            Event::SignalDelivery { signal_number, .. } => lived_in_trace(es.take(i)).push(
                Lived::Signal { signal: signal_number },
            ),
            _ => lived_in_trace(es.take(i)),
        },
    decreases k - i,
{
    if i < k {
        assert(crate::giveback_laws::is_map_event(es[i]));
        assert(es.take(i + 1).drop_last() =~= es.take(i));
        assert(es.take(i + 1).last() == es[i]);
        lemma_lived_on(es, i + 1, k);
    } else if k < es.len() {
        assert(es.take(k + 1).drop_last() =~= es.take(k));
        assert(es.take(k + 1).last() == es[k]);
    }
}

#[verifier::rlimit(50)]
proof fn lemma_step_relives(t: Trace, s: Replaying, reports: Seq<Report>, report: Report)
    requires
        t.events.len() <= usize::MAX,
        forall|i: int| 0 <= i < t.events.len() ==> (#[trigger] t.events[i]).id() == i + 1,
        relives(t, s, reports),
        crate::replay::replay_step(s, report) is Ok,
    ensures
        relives(t, crate::replay::replay_step(s, report)->Ok_0.next, reports.push(report)),
{
    let all = reports.push(report);
    assert(all.drop_last() =~= reports);
    assert(all.last() == report);
    let k = crate::giveback_laws::lemma_some_next(t.events, s.cursor);
    crate::giveback_laws::lemma_next(t.events, s.cursor, k);
    lemma_lived_on(t.events, s.cursor, k);
    let next = crate::replay::replay_step(s, report)->Ok_0.next;
    match s.phase {
        Phase::SyscallStop => {
            if k < t.events.len() {
                let m = crate::giveback_laws::lemma_some_next(t.events, k + 1);
                crate::giveback_laws::lemma_next(t.events, k + 1, m);
                lemma_lived_on(t.events, k + 1, m);
                if m < t.events.len() {
                    assert(t.events[m].id() == m + 1);
                }
                assert(t.events[k].id() == k + 1);
            }
        },
        Phase::SignalStop { index } => {
            crate::giveback_laws::lemma_next(t.events, s.cursor, index as int);
        },
        _ => {},
    }
}

proof fn lemma_relives(pid: i32, t: Trace, reports: Seq<Report>)
    requires
        t.events.len() <= usize::MAX,
        forall|i: int| 0 <= i < t.events.len() ==> (#[trigger] t.events[i]).id() == i + 1,
        crate::run_laws::replaying(crate::run_laws::replay_start(pid, t), reports) is Ok,
    ensures
        relives(
            t,
            crate::run_laws::replaying(crate::run_laws::replay_start(pid, t), reports)->Ok_0,
            reports,
        ),
    decreases reports.len(),
{
    let start = crate::run_laws::replay_start(pid, t);
    if reports.len() == 0 {
        assert(t.events.take(0) =~= Seq::<Event>::empty());
    } else {
        let d = reports.drop_last();
        lemma_relives(pid, t, d);
        let s = crate::run_laws::replaying(start, d)->Ok_0;
        lemma_step_relives(t, s, d, reports.last());
        assert(d.push(reports.last()) =~= reports);
    }
}

/// As long as a replay is accepted, the live process has entered and left the same syscalls and
/// got the same signals, in the same order, as the part of the trace that is replayed.
pub proof fn law_accepted_replay_relives_the_trace(pid: i32, t: Trace, reports: Seq<Report>)
    requires
        crate::trace_laws::well_formed(t),
        t.events.len() <= usize::MAX,
        crate::run_laws::replaying(crate::run_laws::replay_start(pid, t), reports) is Ok,
    ensures
        ({
            let s = crate::run_laws::replaying(
                crate::run_laws::replay_start(pid, t),
                reports,
            )->Ok_0;
            &&& 0 <= s.cursor <= t.events.len()
            &&& lived_in_trace(t.events.take(s.cursor)) == lived_by_process(reports)
        }),
{
    lemma_relives(pid, t, reports);
}

/// A replay that succeeds has relived the whole trace.
pub proof fn law_successful_replay_relives_everything(
    pid: i32,
    t: Trace,
    reports: Seq<Report>,
    report: Report,
    j: int,
)
    requires
        crate::trace_laws::well_formed(t),
        t.events.len() <= usize::MAX,
        crate::run_laws::replaying(crate::run_laws::replay_start(pid, t), reports) is Ok,
        ({
            let s = crate::run_laws::replaying(
                crate::run_laws::replay_start(pid, t),
                reports,
            )->Ok_0;
            let r = crate::replay::replay_step(s, report);
            r is Ok && 0 <= j < r->Ok_0.orders.len() && r->Ok_0.orders[j] is Done
        }),
    ensures
        lived_in_trace(t.events) == lived_by_process(reports),
{
    lemma_relives(pid, t, reports);
    let s = crate::run_laws::replaying(crate::run_laws::replay_start(pid, t), reports)->Ok_0;
    let k = crate::giveback_laws::lemma_some_next(t.events, s.cursor);
    crate::giveback_laws::lemma_next(t.events, s.cursor, k);
    lemma_lived_on(t.events, s.cursor, k);
    lemma_no_other_end(s, report, j);
    assert(k == t.events.len());
    assert(t.events.take(k) =~= t.events);
}

/// Only the end of the process ends a replay.
#[verifier::rlimit(50)]
proof fn lemma_no_other_end(s: Replaying, report: Report, j: int)
    requires
        crate::replay::replay_step(s, report) is Ok,
        0 <= j < crate::replay::replay_step(s, report)->Ok_0.orders.len(),
        crate::replay::replay_step(s, report)->Ok_0.orders[j] is Done,
    ensures
        crate::replay::upcoming(s.events, s.cursor) >= s.events.len(),
{
}

/// Memory is written only first, at the exit of a `read` that was kept from the kernel.
proof fn lemma_write(s: Replaying, report: Report, j: int)
    requires
        crate::replay::replay_step(s, report) is Ok,
        0 <= j < crate::replay::replay_step(s, report)->Ok_0.orders.len(),
        crate::replay::replay_step(s, report)->Ok_0.orders[j] is WriteMemory,
    ensures
        j == 0,
        s.phase == Phase::SyscallStop,
        report is Syscall,
        report->Syscall_0 is Exit,
        s.pending is Some,
        s.pending->0 is SubstitutedRead,
        s.pending->0->SubstitutedRead_recorded_result > 0,
{
}

/// A result is set only first or second, at the exit of a syscall that was kept from the kernel.
proof fn lemma_set(s: Replaying, report: Report, j: int)
    requires
        crate::replay::replay_step(s, report) is Ok,
        0 <= j < crate::replay::replay_step(s, report)->Ok_0.orders.len(),
        crate::replay::replay_step(s, report)->Ok_0.orders[j] is SetResult,
    ensures
        s.phase == Phase::SyscallStop,
        report is Syscall,
        report->Syscall_0 is Exit,
        s.pending is Some,
        !(s.pending->0 is Passthrough),
        s.pending->0 is SubstitutedRead && s.pending->0->SubstitutedRead_recorded_result > 0
            ==> j == 1,
        s.pending->0 is SubstitutedRead && s.pending->0->SubstitutedRead_recorded_result <= 0
            ==> j == 0,
        s.pending->0 is SubstitutedGetpid ==> j == 0,
{
}

/// Over a whole replay, memory is written only at the exit of a `read`, and exactly to the
/// address that the live process passed to it as its second argument, whatever that is; what is
/// written is recorded data that the trace holds for the exit of that `read`, and no more than
/// the process asked for.
pub proof fn law_data_goes_where_the_process_asked(
    pid: i32,
    t: Trace,
    reports: Seq<Report>,
    report: Report,
    j: int,
)
    requires
        crate::trace_laws::well_formed(t),
        t.events.len() <= usize::MAX,
        crate::run_laws::replaying(crate::run_laws::replay_start(pid, t), reports) is Ok,
        ({
            let s = crate::run_laws::replaying(
                crate::run_laws::replay_start(pid, t),
                reports,
            )->Ok_0;
            let r = crate::replay::replay_step(s, report);
            r is Ok && 0 <= j < r->Ok_0.orders.len() && r->Ok_0.orders[j] is WriteMemory
        }),
    ensures
        ({
            let s = crate::run_laws::replaying(
                crate::run_laws::replay_start(pid, t),
                reports,
            )->Ok_0;
            let order = crate::replay::replay_step(s, report)->Ok_0.orders[j];
            let id = order->WriteMemory_event_id;
            &&& report is Syscall && report->Syscall_0 is Exit
            &&& last_live_entry(reports) is Some
            &&& last_live_entry(reports)->0.number == 0
            &&& order->WriteMemory_address == last_live_entry(reports)->0.args[1]
            &&& order->WriteMemory_data.len() <= last_live_entry(reports)->0.args[2]
            &&& 1 <= id <= t.events.len()
            &&& t.events[id - 1] is KernelMemoryWrite
            &&& order->WriteMemory_data == t.events[id - 1]->KernelMemoryWrite_data
            &&& trace_has_exit(
                t.events,
                t.events[id - 1]->KernelMemoryWrite_source_event_id,
                0,
                order->WriteMemory_data.len() as i64,
            )
        }),
{
    lemma_relives(pid, t, reports);
    let s = crate::run_laws::replaying(crate::run_laws::replay_start(pid, t), reports)->Ok_0;
    lemma_write(s, report, j);
    let k = crate::giveback_laws::lemma_some_next(t.events, s.cursor);
    let m = if k < t.events.len() {
        crate::giveback_laws::lemma_some_next(t.events, k + 1)
    } else {
        0
    };
    let result = report->Syscall_0->Exit_result;
    let is_error = report->Syscall_0->Exit_is_error;
    crate::giveback_laws::law_data_is_given_back(s, result, is_error, k, m);
    assert(t.events[m].id() == m + 1);
}

/// Over a whole replay, a result is set only at the exit of a `getpid` or a `read` that was kept
/// from the kernel, and it is the recorded result of the exit that the trace holds for it.
pub proof fn law_result_is_the_recorded_one(
    pid: i32,
    t: Trace,
    reports: Seq<Report>,
    report: Report,
    j: int,
)
    requires
        crate::trace_laws::well_formed(t),
        t.events.len() <= usize::MAX,
        crate::run_laws::replaying(crate::run_laws::replay_start(pid, t), reports) is Ok,
        ({
            let s = crate::run_laws::replaying(
                crate::run_laws::replay_start(pid, t),
                reports,
            )->Ok_0;
            let r = crate::replay::replay_step(s, report);
            r is Ok && 0 <= j < r->Ok_0.orders.len() && r->Ok_0.orders[j] is SetResult
        }),
    ensures
        ({
            let s = crate::run_laws::replaying(
                crate::run_laws::replay_start(pid, t),
                reports,
            )->Ok_0;
            let step = crate::replay::replay_step(s, report)->Ok_0;
            let value = step.orders[j]->SetResult_0;
            let entry = last_live_entry(reports)->0;
            &&& report is Syscall && report->Syscall_0 is Exit
            &&& last_live_entry(reports) is Some
            &&& entry.number == 0 || entry.number == 39
            &&& exists|x: int|
                {
                    &&& s.cursor <= x < step.next.cursor
                    &&& (#[trigger] t.events[x]) is SyscallExit
                    &&& t.events[x]->SyscallExit_number == entry.number
                    &&& value == crate::layout_laws::pattern64(t.events[x]->SyscallExit_result)
                }
        }),
{
    lemma_relives(pid, t, reports);
    let s = crate::run_laws::replaying(crate::run_laws::replay_start(pid, t), reports)->Ok_0;
    lemma_set(s, report, j);
    let k = crate::giveback_laws::lemma_some_next(t.events, s.cursor);
    let result = report->Syscall_0->Exit_result;
    let is_error = report->Syscall_0->Exit_is_error;
    if s.pending->0 is SubstitutedRead && s.pending->0->SubstitutedRead_recorded_result > 0 {
        let m = if k < t.events.len() {
            crate::giveback_laws::lemma_some_next(t.events, k + 1)
        } else {
            0
        };
        crate::giveback_laws::law_data_is_given_back(s, result, is_error, k, m);
    } else {
        crate::giveback_laws::law_result_is_given_back(s, result, is_error, k);
    }
    assert(t.events[k].id() == k + 1);
    let step = crate::replay::replay_step(s, report)->Ok_0;
    assert(s.cursor <= k < step.next.cursor);
    assert(t.events[k] is SyscallExit);
}

/// A report is what it is made of, and so is a command.
pub proof fn law_replay_reports_and_commands(input: ReplayInput, command: ReplayCommand)
    ensures
        match input {
            ReplayInput::Status(status) => input@ == Report::Status(status),
            ReplayInput::Syscall(info) => input@ == Report::Syscall(info),
            ReplayInput::Signal(bytes) => input@ == Report::Signal(bytes@),
        },
        match command {
            ReplayCommand::QuerySyscall => command@ == Order::QuerySyscall,
            ReplayCommand::Suppress { number } => command@ == (Order::Suppress { number }),
            ReplayCommand::WriteMemory { event_id, address, data } => command@ == (
            Order::WriteMemory { event_id, address, data: data@ }),
            ReplayCommand::SetResult(result) => command@ == Order::SetResult(result),
            ReplayCommand::Note(s) => command@ == Order::Note(s@),
            ReplayCommand::RestoreSignal(bytes) => command@ == Order::RestoreSignal(bytes@),
            ReplayCommand::Arm(signal) => command@ == Order::Arm(signal),
            ReplayCommand::Resume(signal) => command@ == Order::Resume(signal),
            ReplayCommand::Done(end) => command@ == Order::Done(end),
        },
{
}

/// A step that is accepted hands out its commands one for one. A step that is refused says why,
/// and nothing can follow it.
pub proof fn law_replay_steps_are_carried_out(
    expected: Result<crate::replay::ReplayStep, Seq<char>>,
    before: Replaying,
    after: Replaying,
    r: Result<Vec<ReplayCommand>, String>,
)
    requires
        crate::replay::replay_outcome(expected, before, after, r),
    ensures
        match expected {
            Ok(step) => {
                &&& r is Ok
                &&& r->Ok_0@.len() == step.orders.len()
                &&& forall|i: int|
                    0 <= i < step.orders.len() ==> (#[trigger] r->Ok_0@[i])@ == step.orders[i]
                &&& after == step.next
            },
            Err(text) => {
                &&& r is Err
                &&& r->Err_0@ == text
                &&& forall|report: Report| #[trigger]
                    crate::replay::replay_step(after, report) is Err
            },
        },
{
    match expected {
        Ok(step) => {
            assert forall|i: int| 0 <= i < step.orders.len() implies (#[trigger] r->Ok_0@[i])@
                == step.orders[i] by {
                assert(crate::replay::orders(r->Ok_0@)[i] == step.orders[i]);
            }
        },
        Err(_) => {},
    }
}

} // verus!
