//! What calls that change something do to it.
use vstd::prelude::*;
use crate::maps::{MemoryMapModel, MemoryRegion};
use crate::recorder::{RecordCommand, RecordInput, Recorder};
use crate::replay::{ReplayCommand, ReplayInput, Replayer};
use crate::trace::{Event, ParsedTrace};
use crate::writer::{TraceEncoder, TraceWriter};

verus! {

/// An encoder that is told of a syscall takes an event with the thread, the number and the
/// arguments or the result that it is told.
pub proof fn law_encoding_a_syscall(
    tid: u32,
    number: u64,
    args: [u64; 6],
    result: i64,
    r: Result<u64, String>,
)
    ensures
        forall|e: &mut TraceEncoder, out: &mut Vec<u8>| #[trigger]
            call_ensures(TraceEncoder::syscall_enter, (e, out, tid, number, args), r)
                ==> crate::writer::write_outcome(
                e@,
                out@,
                Event::SyscallEnter {
                    event_id: (e@.event_count + 1) as u64,
                    tid,
                    number,
                    args: args@,
                },
                final(e)@,
                final(out)@,
                r,
            ),
        forall|e: &mut TraceEncoder, out: &mut Vec<u8>| #[trigger]
            call_ensures(TraceEncoder::syscall_exit, (e, out, tid, number, result), r)
                ==> crate::writer::write_outcome(
                e@,
                out@,
                Event::SyscallExit {
                    event_id: (e@.event_count + 1) as u64,
                    tid,
                    number,
                    result,
                },
                final(e)@,
                final(out)@,
                r,
            ),
{
}

/// An encoder that is told of data, of a map or of a signal takes an event with just that.
pub proof fn law_encoding_other_events(
    tid: u32,
    source: u64,
    address: u64,
    data: &[u8],
    regions: &[MemoryRegion],
    region: &MemoryRegion,
    signal: i32,
    errno: i32,
    code: i32,
    r: Result<u64, String>,
)
    ensures
        forall|e: &mut TraceEncoder, out: &mut Vec<u8>| #[trigger]
            call_ensures(
                TraceEncoder::kernel_memory_write,
                (e, out, tid, source, address, data),
                r,
            ) ==> crate::writer::write_outcome(
                e@,
                out@,
                Event::KernelMemoryWrite {
                    event_id: (e@.event_count + 1) as u64,
                    tid,
                    source_event_id: source,
                    recorded_address: address,
                    data: data@,
                },
                final(e)@,
                final(out)@,
                r,
            ),
        forall|e: &mut TraceEncoder, out: &mut Vec<u8>| #[trigger]
            call_ensures(TraceEncoder::memory_map_snapshot, (e, out, tid, regions), r)
                ==> crate::writer::write_outcome(
                e@,
                out@,
                Event::MemoryMapSnapshot {
                    event_id: (e@.event_count + 1) as u64,
                    tid,
                    regions: crate::maps::region_views(regions@),
                },
                final(e)@,
                final(out)@,
                r,
            ),
        forall|e: &mut TraceEncoder, out: &mut Vec<u8>| #[trigger]
            call_ensures(TraceEncoder::memory_map_add, (e, out, tid, source, region), r)
                ==> crate::writer::write_outcome(
                e@,
                out@,
                Event::MemoryMapAdd {
                    event_id: (e@.event_count + 1) as u64,
                    tid,
                    source_event_id: source,
                    region: region@,
                },
                final(e)@,
                final(out)@,
                r,
            ),
        forall|e: &mut TraceEncoder, out: &mut Vec<u8>| #[trigger]
            call_ensures(TraceEncoder::memory_map_remove, (e, out, tid, source, region), r)
                ==> crate::writer::write_outcome(
                e@,
                out@,
                Event::MemoryMapRemove {
                    event_id: (e@.event_count + 1) as u64,
                    tid,
                    source_event_id: source,
                    region: region@,
                },
                final(e)@,
                final(out)@,
                r,
            ),
        forall|e: &mut TraceEncoder, out: &mut Vec<u8>| #[trigger]
            call_ensures(
                TraceEncoder::signal_delivery,
                (e, out, tid, signal, errno, code, data),
                r,
            ) ==> crate::writer::write_outcome(
                e@,
                out@,
                Event::SignalDelivery {
                    event_id: (e@.event_count + 1) as u64,
                    tid,
                    signal_number: signal,
                    si_errno: errno,
                    si_code: code,
                    siginfo_bytes: data@,
                },
                final(e)@,
                final(out)@,
                r,
            ),
{
}

/// A writer does to its buffer what an encoder does.
pub proof fn law_writing_is_encoding(
    tid: u32,
    number: u64,
    args: [u64; 6],
    result: i64,
    source: u64,
    address: u64,
    data: &[u8],
    region: &MemoryRegion,
    r: Result<u64, String>,
)
    ensures
        forall|w: &mut TraceWriter| #[trigger]
            call_ensures(TraceWriter::write_syscall_enter, (w, tid, number, args), r)
                ==> crate::writer::write_outcome(
                w.encoder@,
                w.writer@,
                Event::SyscallEnter {
                    event_id: (w.encoder@.event_count + 1) as u64,
                    tid,
                    number,
                    args: args@,
                },
                final(w).encoder@,
                final(w).writer@,
                r,
            ),
        forall|w: &mut TraceWriter| #[trigger]
            call_ensures(TraceWriter::write_syscall_exit, (w, tid, number, result), r)
                ==> crate::writer::write_outcome(
                w.encoder@,
                w.writer@,
                Event::SyscallExit {
                    event_id: (w.encoder@.event_count + 1) as u64,
                    tid,
                    number,
                    result,
                },
                final(w).encoder@,
                final(w).writer@,
                r,
            ),
        forall|w: &mut TraceWriter| #[trigger]
            call_ensures(
                TraceWriter::write_kernel_memory_write,
                (w, tid, source, address, data),
                r,
            ) ==> crate::writer::write_outcome(
                w.encoder@,
                w.writer@,
                Event::KernelMemoryWrite {
                    event_id: (w.encoder@.event_count + 1) as u64,
                    tid,
                    source_event_id: source,
                    recorded_address: address,
                    data: data@,
                },
                final(w).encoder@,
                final(w).writer@,
                r,
            ),
        forall|w: &mut TraceWriter| #[trigger]
            call_ensures(TraceWriter::write_memory_map_add, (w, tid, source, region), r)
                ==> crate::writer::write_outcome(
                w.encoder@,
                w.writer@,
                Event::MemoryMapAdd {
                    event_id: (w.encoder@.event_count + 1) as u64,
                    tid,
                    source_event_id: source,
                    region: region@,
                },
                final(w).encoder@,
                final(w).writer@,
                r,
            ),
        forall|w: &mut TraceWriter| #[trigger]
            call_ensures(TraceWriter::write_memory_map_remove, (w, tid, source, region), r)
                ==> crate::writer::write_outcome(
                w.encoder@,
                w.writer@,
                Event::MemoryMapRemove {
                    event_id: (w.encoder@.event_count + 1) as u64,
                    tid,
                    source_event_id: source,
                    region: region@,
                },
                final(w).encoder@,
                final(w).writer@,
                r,
            ),
{
}

/// The same of snapshots and signals, and of the end of a trace.
pub proof fn law_writing_the_rest_is_encoding(
    tid: u32,
    regions: &[MemoryRegion],
    signal: i32,
    errno: i32,
    code: i32,
    info: &[u8],
    r: Result<u64, String>,
)
    ensures
        forall|w: &mut TraceWriter| #[trigger]
            call_ensures(TraceWriter::write_memory_map_snapshot, (w, tid, regions), r)
                ==> crate::writer::write_outcome(
                w.encoder@,
                w.writer@,
                Event::MemoryMapSnapshot {
                    event_id: (w.encoder@.event_count + 1) as u64,
                    tid,
                    regions: crate::maps::region_views(regions@),
                },
                final(w).encoder@,
                final(w).writer@,
                r,
            ),
        forall|w: &mut TraceWriter| #[trigger]
            call_ensures(
                TraceWriter::write_signal_delivery,
                (w, tid, signal, errno, code, info),
                r,
            ) ==> crate::writer::write_outcome(
                w.encoder@,
                w.writer@,
                Event::SignalDelivery {
                    event_id: (w.encoder@.event_count + 1) as u64,
                    tid,
                    signal_number: signal,
                    si_errno: errno,
                    si_code: code,
                    siginfo_bytes: info@,
                },
                final(w).encoder@,
                final(w).writer@,
                r,
            ),
        forall|e: &mut TraceEncoder, out: &mut Vec<u8>| #[trigger]
            call_ensures(TraceEncoder::finish, (e, out), ()) ==> {
                &&& final(e)@.finished
                &&& final(e)@.event_count == e@.event_count
                &&& final(e)@.version == e@.version
                &&& final(out)@ == if e@.finished {
                    out@
                } else {
                    out@ + crate::wire::footer(e@.event_count as nat)
                }
            },
{
}

/// A recorder takes the steps that the laws of recordings speak of, and a replayer those that
/// the laws of replays speak of.
pub proof fn law_steps_are_taken(
    input: RecordInput,
    r: Result<Vec<RecordCommand>, String>,
    live: ReplayInput,
    q: Result<Vec<ReplayCommand>, String>,
)
    ensures
        forall|s: &mut Recorder, out: &mut Vec<u8>| #[trigger]
            call_ensures(Recorder::step, (s, input, out), r) ==> crate::recorder::record_outcome(
                crate::recorder::record_step(s@, input@),
                final(s)@,
                out@,
                final(out)@,
                r,
            ),
        forall|s: &mut Replayer| #[trigger]
            call_ensures(Replayer::step, (s, live), q) ==> crate::replay::replay_outcome(
                crate::replay::replay_step(s@, live@),
                s@,
                final(s)@,
                q,
            ),
{
}

/// A change of a map that succeeds is the one that the laws of maps speak of; one that does not
/// leaves the map as it was.
pub proof fn law_maps_are_changed(region: MemoryRegion, r: Result<(), String>)
    ensures
        forall|m: &mut MemoryMapModel| #[trigger]
            call_ensures(MemoryMapModel::apply_add, (m, region), r) ==> match crate::model::added(
                m@,
                region@,
            ) {
                Ok(s) => r is Ok && final(m)@ == s,
                Err(_) => r is Err && final(m)@ == m@,
            },
        forall|m: &mut MemoryMapModel| #[trigger]
            call_ensures(MemoryMapModel::apply_remove, (m, &region), r)
                ==> match crate::model::removed(m@, region@) {
                Ok(s) => r is Ok && final(m)@ == s,
                Err(_) => r is Err && final(m)@ == m@,
            },
{
}

/// A recording begins with nothing seen, and a replay at the beginning of its trace.
pub proof fn law_recordings_and_replays_begin(
    pid: i32,
    encoder: Option<TraceEncoder>,
    recorder: Recorder,
    trace: ParsedTrace,
    replayer: Replayer,
)
    requires
        call_ensures(Recorder::new, (pid, encoder), recorder),
        call_ensures(Replayer::new, (pid, trace), replayer),
    ensures
        recorder@.pid == pid,
        recorder@.progress is Some <==> encoder is Some,
        encoder is Some ==> recorder@.progress->0 == encoder->0@,
        !recorder@.started,
        recorder@.pending is None,
        recorder@.interrupted is None,
        recorder@.model is None,
        recorder@.injected is None,
        recorder@.phase == crate::recorder::Phase::Running,
        replayer@.pid == pid,
        replayer@.version == trace.version,
        replayer@.events == trace@.events,
        replayer@.cursor == 0,
        replayer@.pending is None,
        replayer@.performed == 0,
        replayer@.delivered is None,
        replayer@.phase == crate::replay::Phase::Launched,
{
}

} // verus!
