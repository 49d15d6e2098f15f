//! What an event is: its kind, its id, its thread and what it holds.
use vstd::prelude::*;
use crate::maps::MemoryRegion;
use crate::trace::{Event, ParsedTrace, TraceEvent};

verus! {

/// An event stands for its fields.
pub proof fn law_event_is_its_fields(e: TraceEvent)
    ensures
        match e {
            TraceEvent::SyscallEnter { event_id, tid, number, args } => e@ == (
            Event::SyscallEnter { event_id, tid, number, args: args@ }),
            TraceEvent::SyscallExit { event_id, tid, number, result } => e@ == (
            Event::SyscallExit { event_id, tid, number, result }),
            TraceEvent::KernelMemoryWrite {
                event_id,
                tid,
                source_event_id,
                recorded_address,
                data,
            } => e@ == (Event::KernelMemoryWrite {
                event_id,
                tid,
                source_event_id,
                recorded_address,
                data: data@,
            }),
            TraceEvent::MemoryMapSnapshot { event_id, tid, regions } => {
                &&& e@ is MemoryMapSnapshot
                &&& e@->MemoryMapSnapshot_event_id == event_id
                &&& e@->MemoryMapSnapshot_tid == tid
                &&& e@->MemoryMapSnapshot_regions.len() == regions@.len()
                &&& forall|i: int|
                    0 <= i < regions@.len() ==> e@->MemoryMapSnapshot_regions[i] == (
                    #[trigger] regions@[i])@
            },
            TraceEvent::MemoryMapAdd { event_id, tid, source_event_id, region } => e@ == (
            Event::MemoryMapAdd { event_id, tid, source_event_id, region: region@ }),
            TraceEvent::MemoryMapRemove { event_id, tid, source_event_id, region } => e@ == (
            Event::MemoryMapRemove { event_id, tid, source_event_id, region: region@ }),
            TraceEvent::SignalDelivery {
                event_id,
                tid,
                signal_number,
                si_errno,
                si_code,
                siginfo_bytes,
            } => e@ == (Event::SignalDelivery {
                event_id,
                tid,
                signal_number,
                si_errno,
                si_code,
                siginfo_bytes: siginfo_bytes@,
            }),
        },
{
}

/// A trace stands for its version and its events in order.
pub proof fn law_trace_is_its_events(t: ParsedTrace)
    ensures
        t@.version == t.version,
        t@.events.len() == t.events@.len(),
        forall|i: int| 0 <= i < t.events@.len() ==> t@.events[i] == (#[trigger] t.events@[i])@,
{
}

/// The id and the thread of an event are its own, whatever kind it is; entries and exits have
/// the number of their syscall, other events have none.
pub proof fn law_id_thread_and_number(e: TraceEvent, id: u64, tid: u32, number: Option<u64>)
    requires
        call_ensures(TraceEvent::event_id, (&e,), id),
        call_ensures(TraceEvent::tid, (&e,), tid),
        call_ensures(TraceEvent::syscall_number, (&e,), number),
    ensures
        match e {
            TraceEvent::SyscallEnter { event_id, tid: t, number: n, .. } => id == event_id && tid
                == t && number == Some(n),
            TraceEvent::SyscallExit { event_id, tid: t, number: n, .. } => id == event_id && tid
                == t && number == Some(n),
            TraceEvent::KernelMemoryWrite { event_id, tid: t, .. } => id == event_id && tid == t
                && number is None,
            TraceEvent::MemoryMapSnapshot { event_id, tid: t, .. } => id == event_id && tid == t
                && number is None,
            TraceEvent::MemoryMapAdd { event_id, tid: t, .. } => id == event_id && tid == t
                && number is None,
            TraceEvent::MemoryMapRemove { event_id, tid: t, .. } => id == event_id && tid == t
                && number is None,
            TraceEvent::SignalDelivery { event_id, tid: t, .. } => id == event_id && tid == t
                && number is None,
        },
{
}

/// Two regions are equal exactly when every field is, the label among them.
pub proof fn law_equal_regions(a: MemoryRegion, b: MemoryRegion)
    ensures
        vstd::std_specs::cmp::PartialEqSpec::eq_spec(&a, &b) <==> a.start == b.start && a.end
            == b.end && a.prot_read == b.prot_read && a.prot_write == b.prot_write && a.prot_exec
            == b.prot_exec && a.shared == b.shared && a.file_offset == b.file_offset
            && a.dev_major == b.dev_major && a.dev_minor == b.dev_minor && a.inode == b.inode
            && a.label@ == b.label@,
{
    if a.label@ == b.label@ && a.start == b.start && a.end == b.end && a.prot_read == b.prot_read
        && a.prot_write == b.prot_write && a.prot_exec == b.prot_exec && a.shared == b.shared
        && a.file_offset == b.file_offset && a.dev_major == b.dev_major && a.dev_minor
        == b.dev_minor && a.inode == b.inode {
        assert(a@ =~= b@);
    }
}

/// Two events, or two traces, are equal exactly when they stand for the same.
pub proof fn law_equal_events(a: TraceEvent, b: TraceEvent, s: ParsedTrace, t: ParsedTrace)
    ensures
        vstd::std_specs::cmp::PartialEqSpec::eq_spec(&a, &b) <==> a@ == b@,
        vstd::std_specs::cmp::PartialEqSpec::eq_spec(&s, &t) <==> s.version == t.version
            && s.events@.len() == t.events@.len() && forall|i: int|
            0 <= i < s.events@.len() ==> (#[trigger] s.events@[i])@ == t.events@[i]@,
{
    if s@ == t@ {
        assert(s@.events.len() == t@.events.len());
        assert forall|i: int| 0 <= i < s.events@.len() implies (#[trigger] s.events@[i])@
            == t.events@[i]@ by {
            assert(s@.events[i] == s.events@[i]@);
            assert(t@.events[i] == t.events@[i]@);
        }
    }
    if s.version == t.version && s.events@.len() == t.events@.len() && forall|i: int|
        0 <= i < s.events@.len() ==> (#[trigger] s.events@[i])@ == t.events@[i]@ {
        assert(s@.events =~= t@.events) by {
            assert forall|i: int| 0 <= i < s@.events.len() implies s@.events[i]
                == t@.events[i] by {
                assert(s.events@[i]@ == t.events@[i]@);
            }
        }
        assert(s@ =~= t@);
    }
}

} // verus!
