//! Over a whole recording, the trace tells what the kernel told, in the same order.
use vstd::prelude::*;
use crate::maps::Region;
use crate::recorder::{
    Order, Phase, RecordCommand, RecordInput, RecordStep, Recording, Report, SyscallInfo,
};
use crate::trace::Event;

verus! {

/// A thing that the process did or that happened to it.
#[verifier::ext_equal]
pub enum Told {
    Enter { number: u64, args: Seq<u64> },
    Exit { number: u64, result: i64 },
    Data { address: u64, data: Seq<u8> },
    Signal { info: Seq<u8> },
}

/// The number and the arguments of a syscall.
#[verifier::ext_equal]
pub struct Entered {
    pub number: u64,
    pub args: Seq<u64>,
}

/// The syscall that the kernel last reported the entry of.
pub open spec fn last_entry(reports: Seq<Report>) -> Option<Entered>
    decreases reports.len(),
{
    if reports.len() == 0 {
        None
    } else {
        match reports.last() {
            Report::Syscall(SyscallInfo::Entry { number, args }) => Some(
                Entered { number, args: args@ },
            ),
            _ => last_entry(reports.drop_last()),
        }
    }
}

/// The kernel has reported an exit.
pub open spec fn has_exit(reports: Seq<Report>) -> bool
    decreases reports.len(),
{
    reports.len() > 0 && (has_exit(reports.drop_last()) || (reports.last() is Syscall
        && reports.last()->Syscall_0 is Exit))
}

/// What the kernel told, in order. The first exit is the one from `execve` and belongs to no
/// syscall of the program.
pub open spec fn told_by_kernel(reports: Seq<Report>) -> Seq<Told>
    decreases reports.len(),
{
    if reports.len() == 0 {
        Seq::empty()
    } else {
        let before = told_by_kernel(reports.drop_last());
        match reports.last() {
            Report::Syscall(SyscallInfo::Entry { number, args }) => before.push(
                Told::Enter { number, args: args@ },
            ),
            Report::Syscall(SyscallInfo::Exit { result, .. }) => if has_exit(reports.drop_last()) {
                before.push(Told::Exit { number: last_entry(reports)->0.number, result })
            } else {
                before
            },
            Report::Signal(info) => before.push(Told::Signal { info }),
            Report::Memory(data) => before.push(
                Told::Data { address: last_entry(reports)->0.args[1], data },
            ),
            _ => before,
        }
    }
}

/// What a trace tells besides the memory map, in order.
pub open spec fn told_by_trace(es: Seq<Event>) -> Seq<Told>
    decreases es.len(),
{
    if es.len() == 0 {
        Seq::empty()
    } else {
        let before = told_by_trace(es.drop_last());
        match es.last() {
            Event::SyscallEnter { number, args, .. } => before.push(Told::Enter { number, args }),
            Event::SyscallExit { number, result, .. } => before.push(
                Told::Exit { number, result },
            ),
            Event::KernelMemoryWrite { recorded_address, data, .. } => before.push(
                Told::Data { address: recorded_address, data },
            ),
            Event::SignalDelivery { siginfo_bytes, .. } => before.push(
                Told::Signal { info: siginfo_bytes },
            ),
            _ => before,
        }
    }
}

/// The last map listing that the kernel gave.
pub open spec fn last_listing(reports: Seq<Report>) -> Option<Seq<u8>>
    decreases reports.len(),
{
    if reports.len() == 0 {
        None
    } else {
        match reports.last() {
            Report::Maps(listing) => Some(listing),
            _ => last_listing(reports.drop_last()),
        }
    }
}

/// The maps list the same mappings, label aside.
pub open spec fn same_mappings(a: Seq<Region>, b: Seq<Region>) -> bool {
    &&& a.len() == b.len()
    &&& forall|i: int| 0 <= i < a.len() ==> crate::region_laws::twin(#[trigger] a[i], b[i])
}

/// Descriptions of the memory map tell nothing else.
proof fn lemma_told_metadata(es: Seq<Event>, more: Seq<Event>)
    requires
        forall|k: int|
            0 <= k < more.len() ==> (#[trigger] more[k]) is MemoryMapAdd
                || more[k] is MemoryMapRemove || more[k] is MemoryMapSnapshot,
    ensures
        told_by_trace(es + more) == told_by_trace(es),
    decreases more.len(),
{
    if more.len() == 0 {
        assert(es + more =~= es);
    } else {
        let d = more.drop_last();
        assert forall|k: int| 0 <= k < d.len() implies (#[trigger] d[k]) is MemoryMapAdd
            || d[k] is MemoryMapRemove || d[k] is MemoryMapSnapshot by {
            assert(d[k] == more[k]);
        }
        lemma_told_metadata(es, d);
        assert((es + more).drop_last() =~= es + d);
        assert((es + more).last() == more[more.len() - 1]);
    }
}

proof fn lemma_told_one(es: Seq<Event>, e: Event)
    ensures
        told_by_trace(es + seq![e]) == match e {
            Event::SyscallEnter { number, args, .. } => told_by_trace(es).push(
                Told::Enter { number, args },
            ),
            Event::SyscallExit { number, result, .. } => told_by_trace(es).push(
                Told::Exit { number, result },
            ),
            Event::KernelMemoryWrite { recorded_address, data, .. } => told_by_trace(es).push(
                Told::Data { address: recorded_address, data },
            ),
            Event::SignalDelivery { siginfo_bytes, .. } => told_by_trace(es).push(
                Told::Signal { info: siginfo_bytes },
            ),
            _ => told_by_trace(es),
        },
{
    assert((es + seq![e]).drop_last() =~= es);
}

/// How the state of a recording reflects the reports so far.
spec fn reflects(s: Recording, reports: Seq<Report>) -> bool {
    &&& s.started == has_exit(reports)
    &&& s.pending is Some ==> last_entry(reports) is Some && s.pending->0.number == last_entry(
        reports,
    )->0.number && s.pending->0.args@ == last_entry(reports)->0.args
    &&& s.phase is ReadData ==> last_entry(reports) is Some && s.phase->ReadData_address
        == last_entry(reports)->0.args[1]
    &&& match s.model {
        None => true,
        Some(map) => {
            &&& last_listing(reports) is Some
            &&& crate::proc_maps::listed_map(last_listing(reports)->0) is Ok
            &&& same_mappings(map, crate::proc_maps::listed_map(last_listing(reports)->0)->Ok_0)
        },
    }
}

#[verifier::rlimit(50)]
proof fn lemma_step_reflects(
    s: Recording,
    es: Seq<Event>,
    reports: Seq<Report>,
    report: Report,
    step: RecordStep,
)
    requires
        crate::recorder_laws::recorded(s, es),
        crate::recorder_laws::kernel_like(s, report),
        crate::recorder::record_step(s, report) == Ok::<RecordStep, Seq<char>>(step),
        reflects(s, reports),
        told_by_trace(es) == told_by_kernel(reports),
    ensures
        reflects(step.next, reports.push(report)),
        told_by_trace(es + step.events) == told_by_kernel(reports.push(report)),
{
    let all = reports.push(report);
    assert(all.drop_last() =~= reports);
    assert(all.last() == report);
    match s.phase {
        Phase::FreshMaps { .. } => {
            lemma_fresh(s, es, report, step);
        },
        Phase::FirstMaps => {
            let map = crate::proc_maps::listed_map(report->Maps_0)->Ok_0;
            let e = step.events[0];
            assert(step.events =~= seq![e]);
            lemma_told_one(es, e);
            assert forall|i: int| 0 <= i < map.len() implies crate::region_laws::twin(
                #[trigger] map[i],
                map[i],
            ) by {}
        },
        _ => {
            if step.events.len() == 0 {
                assert(es + step.events =~= es);
            } else {
                let e = step.events[0];
                assert(step.events =~= seq![e]);
                lemma_told_one(es, e);
            }
        },
    }
}

proof fn lemma_fresh(s: Recording, es: Seq<Event>, report: Report, step: RecordStep)
    requires
        crate::recorder_laws::recorded(s, es),
        s.phase is FreshMaps,
        crate::recorder::record_step(s, report) == Ok::<RecordStep, Seq<char>>(step),
    ensures
        told_by_trace(es + step.events) == told_by_trace(es),
        report is Maps,
        crate::proc_maps::listed_map(report->Maps_0) is Ok,
        step.next.model is Some,
        same_mappings(step.next.model->0, crate::proc_maps::listed_map(report->Maps_0)->Ok_0),
        step.next.started == s.started,
        step.next.pending == s.pending,
        step.next.phase == Phase::Running,
{
    let model = s.model->0;
    let fresh = crate::proc_maps::listed_map(report->Maps_0)->Ok_0;
    assert forall|k: int| 0 <= k < step.events.len() implies (
    #[trigger] step.events[k]) is MemoryMapAdd || step.events[k] is MemoryMapRemove
        || step.events[k] is MemoryMapSnapshot by {}
    lemma_told_metadata(es, step.events);
    crate::maps::lemma_order_complaint(fresh);
    let next = step.next.model->0;
    if next == fresh {
        assert forall|i: int| 0 <= i < next.len() implies crate::region_laws::twin(
            #[trigger] next[i],
            fresh[i],
        ) by {}
    } else {
        crate::model_laws::law_difference_is_empty_for_same_mappings(model, fresh);
        assert forall|i: int| 0 <= i < next.len() implies crate::region_laws::twin(
            #[trigger] next[i],
            fresh[i],
        ) by {
            assert(model[i].same_vma(fresh[i]));
            crate::region_laws::lemma_twin(model[i], fresh[i]);
        }
    }
}

#[verifier::spinoff_prover]
#[verifier::rlimit(100)]
proof fn lemma_testimony(pid: i32, reports: Seq<Report>)
    requires
        pid > 0,
        crate::run_laws::kernel_like_throughout(crate::run_laws::recording_start(pid), reports),
        crate::run_laws::recording(crate::run_laws::recording_start(pid), reports) is Ok,
    ensures
        ({
            let run = crate::run_laws::recording(
                crate::run_laws::recording_start(pid),
                reports,
            )->Ok_0;
            reflects(run.state, reports) && told_by_trace(run.events) == told_by_kernel(reports)
        }),
    decreases reports.len(),
{
    let start = crate::run_laws::recording_start(pid);
    if reports.len() > 0 {
        let d = reports.drop_last();
        lemma_testimony(pid, d);
        crate::run_laws::lemma_recording(pid, d);
        let run = crate::run_laws::recording(start, d)->Ok_0;
        let step = crate::recorder::record_step(run.state, reports.last())->Ok_0;
        lemma_step_reflects(run.state, run.events, d, reports.last(), step);
        assert(d.push(reports.last()) =~= reports);
    }
}

/// Whatever the process does, the trace of a recording tells exactly what the kernel told, and
/// in that order: each entry with its number and arguments, each exit with the number of the
/// syscall entered last and the result, the data of each `read` with the buffer address of its
/// entry, and each signal with its siginfo.
pub proof fn law_trace_tells_what_the_kernel_told(pid: i32, reports: Seq<Report>)
    requires
        pid > 0,
        crate::run_laws::kernel_like_throughout(crate::run_laws::recording_start(pid), reports),
        crate::run_laws::recording(crate::run_laws::recording_start(pid), reports) is Ok,
    ensures
        told_by_trace(
            crate::run_laws::recording(
                crate::run_laws::recording_start(pid),
                reports,
            )->Ok_0.events,
        ) == told_by_kernel(reports),
{
    lemma_testimony(pid, reports);
}

/// The map of a recording is always that of the last listing, label aside.
pub proof fn law_recorded_map_is_the_listed_one(pid: i32, reports: Seq<Report>)
    requires
        pid > 0,
        crate::run_laws::kernel_like_throughout(crate::run_laws::recording_start(pid), reports),
        crate::run_laws::recording(crate::run_laws::recording_start(pid), reports) is Ok,
        crate::run_laws::recording(
            crate::run_laws::recording_start(pid),
            reports,
        )->Ok_0.state.model is Some,
    ensures
        ({
            let run = crate::run_laws::recording(
                crate::run_laws::recording_start(pid),
                reports,
            )->Ok_0;
            &&& last_listing(reports) is Some
            &&& crate::proc_maps::listed_map(last_listing(reports)->0) is Ok
            &&& same_mappings(
                run.state.model->0,
                crate::proc_maps::listed_map(last_listing(reports)->0)->Ok_0,
            )
        }),
{
    lemma_testimony(pid, reports);
}

/// A report is what it is made of, and so is a command.
pub proof fn law_reports_and_commands(input: RecordInput, command: RecordCommand)
    ensures
        match input {
            RecordInput::Status(status) => input@ == Report::Status(status),
            RecordInput::Syscall(info) => input@ == Report::Syscall(info),
            RecordInput::Signal(bytes) => input@ == Report::Signal(bytes@),
            RecordInput::Maps(bytes) => input@ == Report::Maps(bytes@),
            RecordInput::Memory(bytes) => input@ == Report::Memory(bytes@),
        },
        match command {
            RecordCommand::Print(s) => command@ == Order::Print(s@),
            RecordCommand::QuerySyscall => command@ == Order::QuerySyscall,
            RecordCommand::QuerySignal => command@ == Order::QuerySignal,
            RecordCommand::ReadMaps => command@ == Order::ReadMaps,
            RecordCommand::ReadMemory { address, len } => command@ == (Order::ReadMemory {
                address,
                len,
            }),
            RecordCommand::Resume(signal) => command@ == Order::Resume(signal),
            RecordCommand::Done(end) => command@ == Order::Done(end),
        },
{
}

/// A step that is accepted hands out its commands one for one and appends the records of its
/// events, and the footer if the process is gone. A step that is refused says why, appends
/// nothing, and nothing can follow it.
pub proof fn law_steps_are_carried_out(
    expected: Result<RecordStep, Seq<char>>,
    after: Recording,
    out_before: Seq<u8>,
    out_after: Seq<u8>,
    r: Result<Vec<RecordCommand>, String>,
)
    requires
        crate::recorder::record_outcome(expected, after, out_before, out_after, r),
    ensures
        match expected {
            Ok(step) => {
                &&& r is Ok
                &&& r->Ok_0@.len() == step.orders.len()
                &&& forall|i: int|
                    0 <= i < step.orders.len() ==> (#[trigger] r->Ok_0@[i])@ == step.orders[i]
                &&& after == step.next
                &&& out_after == out_before + crate::wire::records(step.events) + (
                if step.next.phase == Phase::Ended && step.next.progress is Some {
                    crate::wire::footer(step.next.progress->0.event_count as nat)
                } else {
                    Seq::empty()
                })
            },
            Err(text) => {
                &&& r is Err
                &&& r->Err_0@ == text
                &&& out_after == out_before
                &&& forall|report: Report| #[trigger]
                    crate::recorder::record_step(after, report) is Err
            },
        },
{
    match expected {
        Ok(step) => {
            assert forall|i: int| 0 <= i < step.orders.len() implies (#[trigger] r->Ok_0@[i])@
                == step.orders[i] by {
                assert(crate::recorder::orders(r->Ok_0@)[i] == step.orders[i]);
            }
            let tail = if step.next.phase == Phase::Ended && step.next.progress is Some {
                crate::wire::footer(step.next.progress->0.event_count as nat)
            } else {
                Seq::empty()
            };
            assert(out_before + (crate::wire::records(step.events) + tail) =~= out_before
                + crate::wire::records(step.events) + tail);
        },
        Err(_) => {},
    }
}

} // verus!
