//! Exactly which sequences of events make a trace.
use vstd::prelude::*;
use crate::maps::{MemoryMapModel, MemoryRegion, Region};
use crate::structure::Scan;
use crate::trace::{Event, ParsedTrace, Trace, TraceEvent};

verus! {

/// The event is a syscall entry or exit of the thread.
pub open spec fn is_call_of(e: Event, tid: u32) -> bool {
    match e {
        Event::SyscallEnter { tid: t, .. } => t == tid,
        Event::SyscallExit { tid: t, .. } => t == tid,
        _ => false,
    }
}

/// The entry that the thread has not left before `i`: its last entry or exit, if that is an
/// entry.
pub open spec fn open_entry(es: Seq<Event>, i: int, tid: u32) -> Option<int>
    decreases i,
{
    if i <= 0 {
        None
    } else if is_call_of(es[i - 1], tid) {
        if es[i - 1] is SyscallEnter {
            Some(i - 1)
        } else {
            None
        }
    } else {
        open_entry(es, i - 1, tid)
    }
}

/// The event right before `i` is the exit of a `read` that returned data.
pub open spec fn data_is_due(es: Seq<Event>, i: int) -> bool {
    &&& i >= 1
    &&& es[i - 1] is SyscallExit
    &&& es[i - 1]->SyscallExit_number == 0
    &&& es[i - 1]->SyscallExit_result > 0
}

pub open spec fn is_delta(e: Event) -> bool {
    e is MemoryMapAdd || e is MemoryMapRemove
}

/// The exit from which only map deltas separate `i`.
pub open spec fn exit_before(es: Seq<Event>, i: int) -> Option<int>
    decreases i,
{
    if i <= 0 {
        None
    } else if es[i - 1] is SyscallExit {
        Some(i - 1)
    } else if is_delta(es[i - 1]) {
        exit_before(es, i - 1)
    } else {
        None
    }
}

/// The map that the events before `i` lead to.
pub open spec fn map_before(es: Seq<Event>, i: int) -> Option<Seq<Region>>
    decreases i,
{
    if i <= 0 {
        None
    } else {
        match (es[i - 1], map_before(es, i - 1)) {
            (Event::MemoryMapSnapshot { regions, .. }, _) => Some(regions),
            (Event::MemoryMapRemove { region, .. }, Some(map)) => Some(
                crate::model::removed(map, region)->Ok_0,
            ),
            (Event::MemoryMapAdd { region, .. }, Some(map)) => Some(
                crate::model::added(map, region)->Ok_0,
            ),
            (_, map) => map,
        }
    }
}

pub open spec fn begins_with_snapshot(es: Seq<Event>) -> bool {
    es.len() > 0 && es[0] is MemoryMapSnapshot
}

/// A delta stands right where its syscall ended or behind other deltas of it, and that syscall
/// can change the map.
pub open spec fn delta_in_place(es: Seq<Event>, i: int, source: u64) -> bool {
    match exit_before(es, i) {
        None => false,
        Some(j) => es[j].id() == source && crate::signal_laws::changes_the_map(
            es[j]->SyscallExit_number as int,
        ),
    }
}

/// The event at `i` fits those before it.
pub open spec fn fits(version: u32, es: Seq<Event>, i: int) -> bool {
    match es[i] {
        Event::MemoryMapSnapshot { regions, .. } => {
            &&& version >= 3
            &&& i == 0
            &&& crate::region_laws::tidy(regions)
        },
        Event::SyscallEnter { tid, .. } => {
            &&& version == 3 ==> begins_with_snapshot(es)
            &&& version >= 2 ==> !data_is_due(es, i)
            &&& open_entry(es, i, tid) is None
        },
        Event::SyscallExit { tid, number, result, .. } => {
            &&& version >= 2 ==> !data_is_due(es, i)
            &&& open_entry(es, i, tid) is Some
            &&& es[open_entry(es, i, tid)->0]->SyscallEnter_number == number
            &&& number == 0 && result > 0 ==> result <= es[open_entry(
                es,
                i,
                tid,
            )->0]->SyscallEnter_args[2]
        },
        Event::KernelMemoryWrite { tid, source_event_id, recorded_address, data, .. } => {
            &&& data_is_due(es, i)
            &&& es[i - 1].thread() == tid
            &&& es[i - 1].id() == source_event_id
            &&& es[i - 1]->SyscallExit_result == data.len()
            &&& es[open_entry(es, i - 1, tid)->0]->SyscallEnter_args[1] == recorded_address
        },
        Event::MemoryMapRemove { source_event_id, region, .. } => {
            &&& delta_in_place(es, i, source_event_id)
            &&& !(es[i - 1] is MemoryMapAdd)
            &&& version >= 3 ==> map_before(es, i) is Some
            &&& match map_before(es, i) {
                Some(map) => crate::region_laws::maps_it(map, region),
                None => true,
            }
        },
        Event::MemoryMapAdd { source_event_id, region, .. } => {
            &&& delta_in_place(es, i, source_event_id)
            &&& version >= 3 ==> map_before(es, i) is Some
            &&& match map_before(es, i) {
                Some(map) => crate::region_laws::whole_pages(region) && forall|k: int|
                    0 <= k < map.len() ==> !crate::region_laws::meet(#[trigger] map[k], region),
                None => true,
            }
        },
        Event::SignalDelivery { signal_number, .. } => {
            &&& version >= 3 ==> begins_with_snapshot(es)
            &&& 1 <= signal_number <= 64
            &&& version >= 2 ==> !data_is_due(es, i)
        },
    }
}

/// Nothing is missing at the end.
pub open spec fn complete(version: u32, es: Seq<Event>) -> bool {
    &&& version == 3 ==> begins_with_snapshot(es)
    &&& version >= 2 ==> !data_is_due(es, es.len() as int)
}

/// How the state of a scan reflects the events before `i`.
pub open spec fn mirrors(es: Seq<Event>, i: int, x: Scan) -> bool {
    &&& forall|tid: u32|
        {
            &&& #[trigger] x.open.contains_key(tid) <==> open_entry(es, i, tid) is Some
            &&& x.open.contains_key(tid) ==> {
                let e = es[open_entry(es, i, tid)->0];
                &&& x.open[tid].number == e->SyscallEnter_number
                &&& x.open[tid].address == e->SyscallEnter_args[1]
                &&& x.open[tid].count == e->SyscallEnter_args[2]
            }
        }
    &&& x.read is Some <==> data_is_due(es, i)
    &&& x.read is Some ==> {
        let e = es[i - 1];
        &&& x.read->0.tid == e.thread()
        &&& x.read->0.result == e->SyscallExit_result
        &&& x.read->0.event_id == e.id()
        &&& open_entry(es, i - 1, e.thread()) is Some
        &&& x.read->0.address == es[open_entry(es, i - 1, e.thread())->0]->SyscallEnter_args[1]
        &&& x.last_exit is Some
        &&& x.last_exit->0.number == 0
    }
    &&& match exit_before(es, i) {
        Some(j) => {
            &&& 0 <= j < i
            &&& es[j] is SyscallExit
            &&& crate::trace::mapping(es[j]->SyscallExit_number) ==> {
                &&& x.last_exit is Some
                &&& x.last_exit->0.event_id == es[j].id()
                &&& x.last_exit->0.number == es[j]->SyscallExit_number
                &&& x.group == Some((es[j].id(), true)) <==> es[i - 1] is MemoryMapAdd
            }
        },
        None => true,
    }
    &&& x.last_exit is Some && crate::trace::mapping(x.last_exit->0.number) ==> {
        &&& exit_before(es, i) is Some
        &&& es[exit_before(es, i)->0].id() == x.last_exit->0.event_id
        &&& es[exit_before(es, i)->0]->SyscallExit_number == x.last_exit->0.number
    }
    &&& x.model == map_before(es, i)
    &&& x.model is Some ==> crate::region_laws::tidy(x.model->0)
    &&& i == 0 ==> x.model is None
    &&& i >= 1 ==> (x.model is Some <==> es[0] is MemoryMapSnapshot)
}

/// Scanning a delta.
#[verifier::rlimit(50)]
pub proof fn lemma_delta_step(version: u32, es: Seq<Event>, i: int, x: Scan)
    requires
        0 <= i < es.len(),
        mirrors(es, i, x),
        is_delta(es[i]),
    ensures
        crate::structure::scan_step(version, es, i, x) is Ok <==> fits(version, es, i),
        crate::structure::scan_step(version, es, i, x) is Ok ==> mirrors(
            es,
            i + 1,
            crate::structure::scan_step(version, es, i, x)->Ok_0,
        ),
{
    let region = match es[i] {
        Event::MemoryMapRemove { region, .. } => region,
        Event::MemoryMapAdd { region, .. } => region,
        _ => arbitrary(),
    };
    if x.model is Some {
        crate::region_laws::law_adding_a_region(x.model->0, region);
        crate::region_laws::law_removing_a_region(x.model->0, region);
        crate::region_laws::lemma_tidy(x.model->0);
        crate::model::law_operations_keep_canonical(x.model->0, region);
        if crate::model::removed(x.model->0, region) is Ok {
            crate::region_laws::lemma_tidy(crate::model::removed(x.model->0, region)->Ok_0);
        }
    }
    assert(forall|tid: u32| #[trigger] x.open.contains_key(tid) ==> open_entry(es, i + 1, tid)
        == open_entry(es, i, tid));
    let y = crate::structure::scan_step(version, es, i, x)->Ok_0;
    if crate::structure::scan_step(version, es, i, x) is Ok {
        assert forall|tid: u32|
            {
                &&& #[trigger] y.open.contains_key(tid) <==> open_entry(es, i + 1, tid) is Some
                &&& y.open.contains_key(tid) ==> {
                    let e = es[open_entry(es, i + 1, tid)->0];
                    &&& y.open[tid].number == e->SyscallEnter_number
                    &&& y.open[tid].address == e->SyscallEnter_args[1]
                    &&& y.open[tid].count == e->SyscallEnter_args[2]
                }
            } by {
            assert(x.open.contains_key(tid) == y.open.contains_key(tid));
            assert(open_entry(es, i + 1, tid) == open_entry(es, i, tid));
        }
    }
}

/// Scanning an event that is no delta.
#[verifier::rlimit(50)]
pub proof fn lemma_other_step(version: u32, es: Seq<Event>, i: int, x: Scan)
    requires
        0 <= i < es.len(),
        mirrors(es, i, x),
        !is_delta(es[i]),
    ensures
        crate::structure::scan_step(version, es, i, x) is Ok <==> fits(version, es, i),
        crate::structure::scan_step(version, es, i, x) is Ok ==> mirrors(
            es,
            i + 1,
            crate::structure::scan_step(version, es, i, x)->Ok_0,
        ),
{
    let e = es[i];
    match e {
        Event::MemoryMapSnapshot { regions, .. } => {
            crate::maps::lemma_order_complaint(regions);
            crate::region_laws::lemma_tidy(regions);
        },
        Event::SyscallEnter { tid, .. } => {
            assert(x.open.contains_key(tid) <==> open_entry(es, i, tid) is Some);
        },
        Event::SyscallExit { tid, .. } => {
            assert(x.open.contains_key(tid) <==> open_entry(es, i, tid) is Some);
        },
        _ => {},
    }
    let y = crate::structure::scan_step(version, es, i, x)->Ok_0;
    if crate::structure::scan_step(version, es, i, x) is Ok {
        assert forall|tid: u32|
            {
                &&& #[trigger] y.open.contains_key(tid) <==> open_entry(es, i + 1, tid) is Some
                &&& y.open.contains_key(tid) ==> {
                    let e = es[open_entry(es, i + 1, tid)->0];
                    &&& y.open[tid].number == e->SyscallEnter_number
                    &&& y.open[tid].address == e->SyscallEnter_args[1]
                    &&& y.open[tid].count == e->SyscallEnter_args[2]
                }
            } by {
            assert(x.open.contains_key(tid) <==> open_entry(es, i, tid) is Some);
            if !is_call_of(es[i], tid) {
                assert(open_entry(es, i + 1, tid) == open_entry(es, i, tid));
                assert(x.open.contains_key(tid) == y.open.contains_key(tid));
            }
        }
    }
}

/// Scanning tells whether the events fit.
pub proof fn lemma_scan(version: u32, es: Seq<Event>, i: int, x: Scan)
    requires
        0 <= i <= es.len(),
        mirrors(es, i, x),
    ensures
        match crate::structure::scan_from(version, es, i, x) {
            Err(_) => !(forall|k: int| #![trigger es[k]] i <= k < es.len() ==> fits(version, es, k)),
            Ok(y) => {
                &&& forall|k: int| #![trigger es[k]] i <= k < es.len() ==> fits(version, es, k)
                &&& crate::structure::end_complaint(version, y) is None <==> complete(version, es)
            },
        },
    decreases es.len() - i,
{
    if i < es.len() {
        if is_delta(es[i]) {
            lemma_delta_step(version, es, i, x);
        } else {
            lemma_other_step(version, es, i, x);
        }
        let next = crate::structure::scan_step(version, es, i, x);
        if next is Ok {
            lemma_scan(version, es, i + 1, next->Ok_0);
        }
    }
}

proof fn lemma_structure(version: u32, es: Seq<Event>)
    ensures
        crate::structure::structure_complaint(version, es) is None <==> (forall|k: int|
            #![trigger es[k]]
            0 <= k < es.len() ==> fits(version, es, k)) && complete(version, es),
{
    assert(mirrors(es, 0, crate::structure::scan_start()));
    lemma_scan(version, es, 0, crate::structure::scan_start());
}

/// Events make a trace exactly when each fits those before it and nothing is missing at the
/// end.
pub proof fn law_trace_structure_is_exact(
    version: u32,
    events: &[TraceEvent],
    r: Result<(), String>,
)
    requires
        call_ensures(crate::structure::validate_trace_structure, (version, events), r),
    ensures
        ({
            let es = crate::trace::event_views(events@);
            r is Ok <==> (forall|k: int|
                #![trigger es[k]]
                0 <= k < es.len() ==> fits(version, es, k)) && complete(version, es)
        }),
{
    lemma_structure(version, crate::trace::event_views(events@));
}

/// A record of the format can hold the event.
pub open spec fn has_a_record(version: u32, e: Event) -> bool {
    &&& e.thread() != 0
    &&& match e {
        Event::SyscallEnter { args, .. } => args.len() == 6,
        Event::SyscallExit { .. } => true,
        Event::KernelMemoryWrite { data, .. } => version >= 2 && 40 + data.len() <= u32::MAX,
        Event::MemoryMapSnapshot { regions, .. } => {
            &&& version >= 3
            &&& regions.len() <= u32::MAX
            &&& 24 + crate::wire::descriptors(regions).len() <= u32::MAX
            &&& crate::region_laws::tidy(regions)
        },
        Event::MemoryMapAdd { region, .. } => version >= 3 && crate::region_laws::whole_pages(
            region,
        ) && 72 + region.label.len() <= u32::MAX,
        Event::MemoryMapRemove { region, .. } => version >= 3 && crate::region_laws::whole_pages(
            region,
        ) && 72 + region.label.len() <= u32::MAX,
        Event::SignalDelivery { signal_number, si_errno, si_code, siginfo_bytes, .. } => {
            &&& version >= 4
            &&& 1 <= signal_number <= 64
            &&& siginfo_bytes.len() == 128
            &&& crate::layout_laws::number_at(siginfo_bytes, 0, 4)
                == crate::layout_laws::pattern32(signal_number)
            &&& crate::layout_laws::number_at(siginfo_bytes, 4, 4)
                == crate::layout_laws::pattern32(si_errno)
            &&& crate::layout_laws::number_at(siginfo_bytes, 8, 4)
                == crate::layout_laws::pattern32(si_code)
        },
    }
}

/// A trace: a format from 1 to 4, and events that are numbered from 1, have a record, and make
/// a trace.
pub open spec fn is_trace(t: Trace) -> bool {
    &&& 1 <= t.version <= 4
    &&& t.events.len() <= u64::MAX
    &&& forall|i: int| 0 <= i < t.events.len() ==> (#[trigger] t.events[i]).id() == i + 1
    &&& forall|i: int| 0 <= i < t.events.len() ==> has_a_record(t.version, #[trigger] t.events[i])
    &&& forall|i: int|
        #![trigger t.events[i]]
        0 <= i < t.events.len() ==> fits(t.version, t.events, i)
    &&& complete(t.version, t.events)
}

proof fn lemma_has_a_record(version: u32, e: Event)
    ensures
        crate::trace_laws::encodable(version, e) <==> has_a_record(version, e),
{
    crate::wire::lemma_body_len(e);
    match e {
        Event::MemoryMapSnapshot { regions, .. } => crate::region_laws::lemma_tidy(regions),
        Event::SignalDelivery { siginfo_bytes, .. } => {
            if siginfo_bytes.len() == 128 {
                crate::signal_laws::lemma_fields(siginfo_bytes);
            }
        },
        _ => {},
    }
}

proof fn lemma_is_trace(t: Trace)
    ensures
        crate::trace_laws::well_formed(t) <==> is_trace(t),
{
    lemma_structure(t.version, t.events);
    assert forall|i: int| 0 <= i < t.events.len() implies crate::trace_laws::encodable(
        t.version,
        #[trigger] t.events[i],
    ) == has_a_record(t.version, t.events[i]) by {
        lemma_has_a_record(t.version, t.events[i]);
    }
    if is_trace(t) {
        assert forall|i: int| 0 <= i < t.events.len() implies crate::trace_laws::encodable(
            t.version,
            #[trigger] t.events[i],
        ) by {
            assert(has_a_record(t.version, t.events[i]));
        }
    }
    if crate::trace_laws::well_formed(t) {
        assert forall|i: int| 0 <= i < t.events.len() implies has_a_record(
            t.version,
            #[trigger] t.events[i],
        ) by {
            assert(crate::trace_laws::encodable(t.version, t.events[i]));
        }
    }
}

/// Exactly the bytes of traces can be read, and what is read is the trace that they are the
/// bytes of. A byte sequence in memory is no longer than `u64::MAX`.
pub proof fn law_exactly_traces_can_be_read(b: Seq<u8>, t: Trace)
    requires
        b.len() <= u64::MAX,
    ensures
        crate::parser::parsed(b) == Ok::<Trace, Seq<char>>(t) <==> is_trace(t)
            && crate::wire::trace_bytes(t.version, t.events) == b,
{
    lemma_is_trace(t);
    if is_trace(t) {
        crate::trace_laws::law_written_trace_reads_back(t);
    }
    if crate::parser::parsed(b) is Ok {
        crate::trace_laws::law_read_trace_writes_back(b);
    }
}

/// Reading gives a trace exactly when the bytes are those of a trace, and then that one.
pub proof fn law_reading_gives_the_trace(bytes: &[u8], r: Result<ParsedTrace, String>, t: Trace)
    requires
        bytes@.len() <= u64::MAX,
        call_ensures(crate::parser::parse_trace_bytes, (bytes,), r),
    ensures
        r is Ok && r->Ok_0@ == t <==> is_trace(t) && crate::wire::trace_bytes(t.version, t.events)
            == bytes@,
{
    law_exactly_traces_can_be_read(bytes@, t);
}

/// The deltas from `target` on end at `end`.
pub open spec fn deltas_end(es: Seq<Event>, target: int, end: int) -> bool {
    &&& target <= end <= es.len()
    &&& forall|j: int| target <= j < end ==> is_delta(#[trigger] es[j])
    &&& end < es.len() ==> !is_delta(es[end])
}

proof fn lemma_exit_before(es: Seq<Event>, i: int, target: int)
    requires
        0 <= target <= i <= es.len(),
        forall|j: int| target <= j < i ==> is_delta(#[trigger] es[j]),
        exit_before(es, i) is Some,
    ensures
        0 <= exit_before(es, i)->0 < target,
    decreases i,
{
    if i > target {
        assert(is_delta(es[i - 1]));
        lemma_exit_before(es, i - 1, target);
    } else if i > 0 && is_delta(es[i - 1]) {
        lemma_exit_in_range(es, i);
    }
}

proof fn lemma_exit_in_range(es: Seq<Event>, i: int)
    requires
        exit_before(es, i) is Some,
    ensures
        0 <= exit_before(es, i)->0 < i,
    decreases i,
{
    if i > 0 && !(es[i - 1] is SyscallExit) {
        lemma_exit_in_range(es, i - 1);
    }
}

proof fn lemma_replayed(t: Trace, index: int, target: u64, end: int)
    requires
        is_trace(t),
        t.version >= 3,
        begins_with_snapshot(t.events),
        1 <= target <= t.events.len(),
        deltas_end(t.events, target as int, end),
        1 <= index <= end,
        map_before(t.events, index) is Some,
    ensures
        crate::history::replayed(t.events, index, target, map_before(t.events, index)) == Ok::<
            Option<Seq<Region>>,
            Seq<char>,
        >(map_before(t.events, end)),
        map_before(t.events, end) is Some,
    decreases end - index,
{
    let es = t.events;
    lemma_map_is_tidy(t, index);
    if index < es.len() {
        assert(es[index].id() == index + 1);
        assert(fits(t.version, es, index));
    }
    if index < end {
        match es[index] {
            Event::MemoryMapRemove { source_event_id, region, .. } => {
                crate::region_laws::law_removing_a_region(map_before(es, index)->0, region);
                lemma_exit_in_range(es, index);
                if index >= target {
                    lemma_exit_before(es, index, target as int);
                }
                assert(es[exit_before(es, index)->0].id() == exit_before(es, index)->0 + 1);
            },
            Event::MemoryMapAdd { source_event_id, region, .. } => {
                crate::region_laws::law_adding_a_region(map_before(es, index)->0, region);
                lemma_exit_in_range(es, index);
                if index >= target {
                    lemma_exit_before(es, index, target as int);
                }
                assert(es[exit_before(es, index)->0].id() == exit_before(es, index)->0 + 1);
            },
            _ => {
                if index >= target {
                    assert(is_delta(es[index]));
                }
            },
        }
        lemma_replayed(t, index + 1, target, end);
    }
}

/// The map of a trace is in order at every point.
proof fn lemma_map_is_tidy(t: Trace, i: int)
    requires
        is_trace(t),
        0 <= i <= t.events.len(),
        map_before(t.events, i) is Some,
    ensures
        crate::region_laws::tidy(map_before(t.events, i)->0),
    decreases i,
{
    let es = t.events;
    if i > 0 {
        assert(fits(t.version, es, i - 1));
        match es[i - 1] {
            Event::MemoryMapSnapshot { .. } => {},
            Event::MemoryMapRemove { region, .. } => {
                lemma_map_is_tidy(t, i - 1);
                let map = map_before(es, i - 1)->0;
                crate::region_laws::law_removing_a_region(map, region);
                crate::region_laws::lemma_tidy(map);
                crate::model::law_operations_keep_canonical(map, region);
                crate::region_laws::lemma_tidy(crate::model::removed(map, region)->Ok_0);
            },
            Event::MemoryMapAdd { region, .. } => {
                lemma_map_is_tidy(t, i - 1);
                crate::region_laws::law_adding_a_region(map_before(es, i - 1)->0, region);
            },
            _ => lemma_map_is_tidy(t, i - 1),
        }
    }
}

proof fn lemma_no_map(t: Trace, index: int, target: u64)
    requires
        is_trace(t),
        t.version >= 3,
        !begins_with_snapshot(t.events),
        0 <= index <= t.events.len(),
    ensures
        map_before(t.events, index) is None,
        crate::history::replayed(t.events, index, target, None) == Ok::<
            Option<Seq<Region>>,
            Seq<char>,
        >(None),
    decreases t.events.len() - index,
{
    lemma_no_map_before(t, index);
    if index < t.events.len() {
        assert(fits(t.version, t.events, index));
        lemma_no_map(t, index + 1, target);
    }
}

proof fn lemma_no_map_before(t: Trace, i: int)
    requires
        is_trace(t),
        !begins_with_snapshot(t.events),
        0 <= i <= t.events.len(),
    ensures
        map_before(t.events, i) is None,
    decreases i,
{
    if i > 0 {
        assert(fits(t.version, t.events, i - 1));
        lemma_no_map_before(t, i - 1);
    }
}

/// The map at an event is the snapshot of the trace with every delta up to that event applied,
/// and with the deltas that follow it at once, which are of the same syscall. It can be given
/// exactly for the events of a trace that is of format 3 at least and begins with a snapshot.
pub proof fn law_map_at_an_event(
    trace: ParsedTrace,
    target: u64,
    r: Result<MemoryMapModel, String>,
    regions: &[MemoryRegion],
    end: int,
)
    requires
        call_ensures(crate::history::reconstruct_maps_at_event, (&trace, target), r),
        r is Ok ==> call_ensures(MemoryMapModel::regions, (&r->Ok_0,), regions),
        is_trace(trace@),
        target <= trace.events@.len() ==> deltas_end(trace@.events, target as int, end),
    ensures
        r is Ok <==> trace.version >= 3 && 1 <= target <= trace.events@.len()
            && begins_with_snapshot(trace@.events),
        r is Ok ==> map_before(trace@.events, end) == Some(crate::maps::region_views(regions@)),
{
    let t = trace@;
    let es = t.events;
    if t.version >= 3 && 1 <= target <= es.len() {
        assert(es[target - 1].id() == target);
        assert(fits(t.version, es, 0));
        assert(es[0].id() == 1);
        if begins_with_snapshot(es) {
            let map = es[0]->MemoryMapSnapshot_regions;
            crate::maps::lemma_order_complaint(map);
            crate::region_laws::lemma_tidy(map);
            assert(map_before(es, 0) is None);
            assert(map_before(es, 1) == Some(map));
            lemma_replayed(t, 1, target, end);
            if target == 1 && end > 1 {
                assert(is_delta(es[1]));
                assert(fits(t.version, es, 1));
                assert(exit_before(es, 1) is None);
            }
        } else {
            lemma_no_map(t, 0, target);
        }
    } else if t.version >= 3 && target != 0 {
        assert forall|i: int| 0 <= i < es.len() implies (#[trigger] es[i]).id() != target by {}
    }
}

} // verus!
