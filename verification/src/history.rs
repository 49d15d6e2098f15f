//! The memory map as it was after a given event.
use vstd::prelude::*;
use vstd::string::*;
use crate::maps::Region;
use crate::model::{MemoryMapModel, copy_regions};
use crate::structure::Scan;
use crate::text::Line;
use crate::trace::{Event, ParsedTrace, TRACE_VERSION_3, Trace, TraceEvent};

verus! {

/// A delta belongs to the map at `target` if it stands no later, or if the syscall that caused
/// it does.
pub open spec fn in_effect(event_id: u64, source_event_id: u64, target: u64) -> bool {
    event_id <= target || source_event_id <= target
}

/// The map at `target`, when the events before `index` led to `model`.
pub open spec fn replayed(es: Seq<Event>, index: int, target: u64, model: Option<Seq<Region>>) -> Result<
    Option<Seq<Region>>,
    Seq<char>,
>
    decreases es.len() - index,
{
    if index < 0 || index >= es.len() {
        Ok(model)
    } else {
        match es[index] {
            Event::MemoryMapSnapshot { event_id, regions, .. } => match crate::maps::order_complaint(
                regions,
            ) {
                Some(text) => Err(text),
                None => if event_id >= target {
                    Ok(Some(regions))
                } else {
                    replayed(es, index + 1, target, Some(regions))
                },
            },
            Event::MemoryMapRemove { event_id, source_event_id, region, .. } => if in_effect(
                event_id,
                source_event_id,
                target,
            ) && model is Some {
                match crate::model::removed(model->0, region) {
                    Err(text) => Err(text),
                    Ok(next) => replayed(es, index + 1, target, Some(next)),
                }
            } else {
                replayed(es, index + 1, target, model)
            },
            Event::MemoryMapAdd { event_id, source_event_id, region, .. } => if in_effect(
                event_id,
                source_event_id,
                target,
            ) && model is Some {
                match crate::model::added(model->0, region) {
                    Err(text) => Err(text),
                    Ok(next) => replayed(es, index + 1, target, Some(next)),
                }
            } else {
                replayed(es, index + 1, target, model)
            },
            e => if e.id() > target {
                Ok(model)
            } else {
                replayed(es, index + 1, target, model)
            },
        }
    }
}

pub open spec fn has_event(es: Seq<Event>, id: u64) -> bool {
    exists|i: int| 0 <= i < es.len() && (#[trigger] es[i]).id() == id
}

/// The memory map right after the event with id `target` and the deltas it caused.
pub open spec fn map_at(t: Trace, target: u64) -> Result<Seq<Region>, Seq<char>> {
    if t.version < TRACE_VERSION_3 {
        Err(
            "trace format V"@ + crate::text::dec(t.version as int)
                + " has no initial memory-map model; record again with V3"@,
        )
    } else if target == 0 {
        Err("event-id must be non-zero"@)
    } else if !has_event(t.events, target) {
        Err(
            "event-id "@ + crate::text::dec(target as int) + " not found in trace (event count: "@
                + crate::text::dec(t.events.len() as int) + ")"@,
        )
    } else {
        match replayed(t.events, 0, target, None) {
            Err(text) => Err(text),
            Ok(None) => Err("trace is missing initial MemoryMapSnapshot event"@),
            Ok(Some(model)) => Ok(model),
        }
    }
}

fn contains_event(trace: &ParsedTrace, id: u64) -> (r: bool)
    ensures
        r == has_event(trace@.events, id),
{
    let mut i: usize = 0;
    while i < trace.events.len()
        invariant
            i <= trace.events@.len(),
            forall|k: int| 0 <= k < i ==> (#[trigger] trace@.events[k]).id() != id,
        decreases trace.events.len() - i,
    {
        assert(trace@.events[i as int] == trace.events@[i as int]@);
        if trace.events[i].event_id() == id {
            return true;
        }
        i += 1;
    }
    false
}

/// What an optional map stands for.
spec fn model_view(model: Option<MemoryMapModel>) -> Option<Seq<Region>> {
    match model {
        None => None,
        Some(m) => Some(m@),
    }
}

/// Goes through the events up to `target`.
fn replay_maps(trace: &ParsedTrace, target: u64) -> (r: Result<Option<MemoryMapModel>, String>)
    ensures
        match replayed(trace@.events, 0, target, None) {
            Ok(model) => r is Ok && model_view(r->Ok_0) == model,
            Err(text) => r is Err && r->Err_0@ == text,
        },
{
    let ghost es = trace@.events;
    let mut model: Option<MemoryMapModel> = None;
    let mut i: usize = 0;
    while i < trace.events.len()
        invariant
            i <= trace.events@.len(),
            es == trace@.events,
            replayed(es, 0, target, None) == replayed(es, i as int, target, model_view(model)),
        decreases trace.events.len() - i,
    {
        let event = &trace.events[i];
        assert(es[i as int] == event@);
        match event {
            TraceEvent::MemoryMapSnapshot { event_id, regions, .. } => {
                match MemoryMapModel::from_canonical_regions(copy_regions(regions.as_slice())) {
                    Err(text) => {
                        return Err(text);
                    },
                    Ok(m) => {
                        model = Some(m);
                    },
                }
                if *event_id >= target {
                    return Ok(model);
                }
            },
            TraceEvent::MemoryMapRemove { event_id, source_event_id, region, .. } => {
                if *event_id <= target || *source_event_id <= target {
                    if let Some(m) = model {
                        let mut next = m;
                        match next.apply_remove(region) {
                            Err(text) => {
                                return Err(text);
                            },
                            Ok(_) => {},
                        }
                        model = Some(next);
                    }
                }
            },
            TraceEvent::MemoryMapAdd { event_id, source_event_id, region, .. } => {
                if *event_id <= target || *source_event_id <= target {
                    if let Some(m) = model {
                        let mut next = m;
                        match next.apply_add(region.clone()) {
                            Err(text) => {
                                return Err(text);
                            },
                            Ok(_) => {},
                        }
                        model = Some(next);
                    }
                }
            },
            _ => {
                if event.event_id() > target {
                    return Ok(model);
                }
            },
        }
        i += 1;
    }
    Ok(model)
}

/// Reconstructs the memory map right after the event `target_event_id`.
pub fn reconstruct_maps_at_event(parsed_trace: &ParsedTrace, target_event_id: u64) -> (r: Result<
    MemoryMapModel,
    String,
>)
    ensures
        match map_at(parsed_trace@, target_event_id) {
            Ok(model) => r is Ok && r->Ok_0@ == model,
            Err(text) => r is Err && r->Err_0@ == text,
        },
{
    if parsed_trace.version < TRACE_VERSION_3 {
        return Err(
            Line::new("trace format V").dec(parsed_trace.version as u64).lit(
                " has no initial memory-map model; record again with V3",
            ).done(),
        );
    }
    if target_event_id == 0 {
        return Err(Line::new("event-id must be non-zero").done());
    }
    if !contains_event(parsed_trace, target_event_id) {
        return Err(
            Line::new("event-id ").dec(target_event_id).lit(
                " not found in trace (event count: ",
            ).dec(parsed_trace.events.len() as u64).lit(")").done(),
        );
    }
    match replay_maps(parsed_trace, target_event_id) {
        Err(text) => Err(text),
        Ok(None) => Err(Line::new("trace is missing initial MemoryMapSnapshot event").done()),
        Ok(Some(model)) => Ok(model),
    }
}

spec fn numbered(es: Seq<Event>) -> bool {
    forall|i: int| 0 <= i < es.len() ==> (#[trigger] es[i]).id() == i + 1
}

/// The deltas of a scanned trace fit the map that they meet.
proof fn lemma_replay_succeeds(version: u32, es: Seq<Event>, index: int, s: Scan, target: u64)
    requires
        version >= 3,
        0 <= index,
        numbered(es),
        crate::structure::scan_from(version, es, index, s) is Ok,
        s.model is Some,
        crate::maps::canonical(s.model->0),
        s.last_exit is Some ==> s.last_exit->0.event_id <= target,
    ensures
        replayed(es, index, target, s.model) is Ok,
        replayed(es, index, target, s.model)->Ok_0 is Some,
        crate::maps::canonical(replayed(es, index, target, s.model)->Ok_0->0),
    decreases es.len() - index,
{
    if index < es.len() {
        let e = es[index];
        assert(e.id() == index + 1);
        let next = crate::structure::scan_step(version, es, index, s);
        assert(next is Ok);
        match e {
            Event::MemoryMapRemove { region, .. } => {
                crate::model::law_operations_keep_canonical(s.model->0, region);
                lemma_replay_succeeds(version, es, index + 1, next->Ok_0, target);
            },
            Event::MemoryMapAdd { region, .. } => {
                crate::model::law_operations_keep_canonical(s.model->0, region);
                lemma_replay_succeeds(version, es, index + 1, next->Ok_0, target);
            },
            Event::MemoryMapSnapshot { .. } => {},
            _ => {
                if e.id() <= target {
                    lemma_replay_succeeds(version, es, index + 1, next->Ok_0, target);
                }
            },
        }
    }
}

/// In a well-formed trace that begins with a snapshot, the map can be reconstructed at every
/// event, and it is in canonical order.
pub proof fn law_every_event_has_a_map(t: Trace, target: u64)
    requires
        crate::trace_laws::well_formed(t),
        t.version >= 3,
        t.events.len() > 0,
        t.events[0] is MemoryMapSnapshot,
        1 <= target <= t.events.len(),
    ensures
        map_at(t, target) is Ok,
        crate::maps::canonical(map_at(t, target)->Ok_0),
{
    let es = t.events;
    assert(es[target - 1].id() == target);
    let s = crate::structure::scan_start();
    let next = crate::structure::scan_step(t.version, es, 0, s);
    assert(crate::structure::scan_from(t.version, es, 0, s) is Ok);
    assert(next is Ok);
    let regions = es[0]->MemoryMapSnapshot_regions;
    crate::maps::lemma_order_complaint(regions);
    lemma_replay_succeeds(t.version, es, 1, next->Ok_0, target);
}

/// A well-formed trace has a snapshot first in format 3, and in format 4 as soon as it holds a
/// signal delivery or a map delta.
pub proof fn law_snapshot_comes_first(t: Trace, k: int)
    requires
        crate::trace_laws::well_formed(t),
        0 <= k < t.events.len(),
        t.version == 3 || (t.version == 4 && (t.events[k] is SignalDelivery
            || t.events[k].is_map_metadata())),
    ensures
        t.events[0] is MemoryMapSnapshot,
{
    if !(t.events[0] is MemoryMapSnapshot) {
        lemma_no_snapshot(t.version, t.events, 0, crate::structure::scan_start(), k);
    }
}

proof fn lemma_no_snapshot(version: u32, es: Seq<Event>, index: int, s: Scan, k: int)
    requires
        0 <= index <= k < es.len(),
        s.model is None,
        index == 0 ==> !(es[0] is MemoryMapSnapshot),
        version == 3 ==> index == 0 && s == crate::structure::scan_start(),
        version == 3 || (version == 4 && (es[k] is SignalDelivery || es[k].is_map_metadata())),
    ensures
        crate::structure::scan_from(version, es, index, s) is Err,
    decreases es.len() - index,
{
    let next = crate::structure::scan_step(version, es, index, s);
    if version == 4 && index < k && next is Ok {
        lemma_no_snapshot(version, es, index + 1, next->Ok_0, k);
    }
}

/// While a delta is due to an exit before `target`, replaying up to `target` or up to the
/// event before it makes no difference.
proof fn lemma_same_tail(
    version: u32,
    es: Seq<Event>,
    index: int,
    s: Scan,
    target: u64,
    model: Option<Seq<Region>>,
)
    requires
        version >= 3,
        1 <= index,
        index + 1 >= target,
        target >= 2,
        numbered(es),
        s.model is Some,
        crate::structure::scan_from(version, es, index, s) is Ok,
        s.last_exit is Some ==> s.last_exit->0.event_id < target,
        index < es.len() ==> index + 1 > target || es[index] is MemoryMapAdd
            || es[index] is MemoryMapRemove,
    ensures
        replayed(es, index, target, model) == replayed(es, index, (target - 1) as u64, model),
    decreases es.len() - index,
{
    if index < es.len() {
        let e = es[index];
        assert(e.id() == index + 1);
        let next = crate::structure::scan_step(version, es, index, s);
        assert(next is Ok);
        match e {
            Event::MemoryMapRemove { region, .. } => {
                if model is Some {
                    if crate::model::removed(model->0, region) is Ok {
                        lemma_same_tail(
                            version,
                            es,
                            index + 1,
                            next->Ok_0,
                            target,
                            Some(crate::model::removed(model->0, region)->Ok_0),
                        );
                    }
                } else {
                    lemma_same_tail(version, es, index + 1, next->Ok_0, target, model);
                }
            },
            Event::MemoryMapAdd { region, .. } => {
                if model is Some {
                    if crate::model::added(model->0, region) is Ok {
                        lemma_same_tail(
                            version,
                            es,
                            index + 1,
                            next->Ok_0,
                            target,
                            Some(crate::model::added(model->0, region)->Ok_0),
                        );
                    }
                } else {
                    lemma_same_tail(version, es, index + 1, next->Ok_0, target, model);
                }
            },
            _ => {},
        }
    }
}

/// Event `t` is the exit of a mapping syscall, and a delta that it caused follows.
pub open spec fn changes_map(es: Seq<Event>, t: int) -> bool {
    &&& 1 <= t < es.len()
    &&& es[t - 1] is SyscallExit
    &&& crate::trace::mapping(es[t - 1]->SyscallExit_number)
    &&& match es[t] {
        Event::MemoryMapAdd { source_event_id, .. } => source_event_id == t,
        Event::MemoryMapRemove { source_event_id, .. } => source_event_id == t,
        _ => false,
    }
}

#[verifier::rlimit(50)]
proof fn lemma_map_changes(version: u32, es: Seq<Event>, index: int, s: Scan, target: u64, model: Option<
    Seq<Region>,
>)
    requires
        version >= 3,
        1 <= index < target,
        2 <= target <= es.len(),
        numbered(es),
        s.model is Some,
        crate::structure::scan_from(version, es, index, s) is Ok,
        s.last_exit is Some ==> s.last_exit->0.event_id <= index,
        s.read is Some ==> s.last_exit is Some && s.last_exit->0.number
            == crate::trace::SYS_READ_X86_64,
        !changes_map(es, target as int),
    ensures
        replayed(es, index, target, model) == replayed(es, index, (target - 1) as u64, model),
    decreases es.len() - index,
{
    let e = es[index];
    assert(e.id() == index + 1);
    let next = crate::structure::scan_step(version, es, index, s);
    assert(next is Ok);
    if index + 1 == target {
        match e {
            Event::MemoryMapAdd { .. } => {
                lemma_same_tail(version, es, index, s, target, model);
            },
            Event::MemoryMapRemove { .. } => {
                lemma_same_tail(version, es, index, s, target, model);
            },
            Event::MemoryMapSnapshot { .. } => {},
            _ => {
                assert(crate::structure::scan_from(version, es, index + 1, next->Ok_0) is Ok);
                if target < es.len() {
                    let f = es[target as int];
                    assert(f.id() == target + 1);
                    let after = crate::structure::scan_step(
                        version,
                        es,
                        target as int,
                        next->Ok_0,
                    );
                    assert(after is Ok);
                }
                assert(replayed(es, index + 1, target, model) == Ok::<
                    Option<Seq<Region>>,
                    Seq<char>,
                >(model));
            },
        }
    } else {
        match e {
            Event::MemoryMapRemove { region, .. } => {
                if model is Some {
                    if crate::model::removed(model->0, region) is Ok {
                        lemma_map_changes(
                            version,
                            es,
                            index + 1,
                            next->Ok_0,
                            target,
                            Some(crate::model::removed(model->0, region)->Ok_0),
                        );
                    }
                } else {
                    lemma_map_changes(version, es, index + 1, next->Ok_0, target, model);
                }
            },
            Event::MemoryMapAdd { region, .. } => {
                if model is Some {
                    if crate::model::added(model->0, region) is Ok {
                        lemma_map_changes(
                            version,
                            es,
                            index + 1,
                            next->Ok_0,
                            target,
                            Some(crate::model::added(model->0, region)->Ok_0),
                        );
                    }
                } else {
                    lemma_map_changes(version, es, index + 1, next->Ok_0, target, model);
                }
            },
            Event::MemoryMapSnapshot { .. } => {},
            _ => {
                lemma_map_changes(version, es, index + 1, next->Ok_0, target, model);
            },
        }
    }
}

/// Up to `target`, reconstruction goes along with the scan of the events.
proof fn lemma_replay_follows_scan(version: u32, es: Seq<Event>, index: int, s: Scan, target: u64)
    requires
        version >= 3,
        1 <= index <= target <= es.len(),
        numbered(es),
        s.model is Some,
        crate::structure::scan_from(version, es.take(target as int), index, s) is Ok,
        crate::structure::scan_from(version, es, index, s) is Ok,
        target < es.len() ==> !(es[target as int] is MemoryMapAdd)
            && !(es[target as int] is MemoryMapRemove),
    ensures
        ({
            let last = crate::structure::scan_from(version, es.take(target as int), index, s)->Ok_0;
            &&& last.model is Some
            &&& replayed(es, index, target, s.model) == Ok::<Option<Seq<Region>>, Seq<char>>(
                last.model,
            )
        }),
    decreases es.len() - index,
{
    let first = es.take(target as int);
    if index < target {
        assert(first[index] == es[index]);
        let next = crate::structure::scan_step(version, es, index, s);
        assert(next is Ok);
        assert(crate::structure::scan_step(version, first, index, s) == next);
        assert(es[index].id() == index + 1);
        lemma_replay_follows_scan(version, es, index + 1, next->Ok_0, target);
    } else if index < es.len() {
        assert(es[index].id() == index + 1);
        assert(crate::structure::scan_step(version, es, index, s) is Ok);
    }
}

/// The map at an event is the one that the events up to it build up, wherever the next event
/// is no delta that still belongs to it.
pub proof fn law_map_is_built_by_events_so_far(t: Trace, target: u64)
    requires
        crate::trace_laws::well_formed(t),
        t.version >= 3,
        1 <= target <= t.events.len(),
        t.events[0] is MemoryMapSnapshot,
        target < t.events.len() ==> !(t.events[target as int] is MemoryMapAdd)
            && !(t.events[target as int] is MemoryMapRemove),
    ensures
        match crate::structure::scan_from(
            t.version,
            t.events.take(target as int),
            0,
            crate::structure::scan_start(),
        ) {
            Err(_) => false,
            Ok(scan) => scan.model is Some && map_at(t, target) == Ok::<Seq<Region>, Seq<char>>(
                scan.model->0,
            ),
        },
{
    let es = t.events;
    let first = es.take(target as int);
    let s = crate::structure::scan_start();
    assert(es =~= first + es.skip(target as int));
    assert(es[target - 1].id() == target);
    assert(es[0].id() == 1);
    assert(first[0] == es[0]);
    crate::structure::lemma_scan_prefix(t.version, first, es.skip(target as int), 0, s);
    let next = crate::structure::scan_step(t.version, es, 0, s);
    assert(next is Ok);
    assert(crate::structure::scan_step(t.version, first, 0, s) == next);
    lemma_replay_follows_scan(t.version, es, 1, next->Ok_0, target);
    let regions = es[0]->MemoryMapSnapshot_regions;
    if target == 1 {
        assert(crate::structure::scan_from(t.version, first, 1, next->Ok_0) == Ok::<
            Scan,
            Seq<char>,
        >(next->Ok_0));
    }
}

/// The map changes at an event only if that event is the exit of a mapping syscall that a delta
/// follows: a mapping syscall that failed leaves the map as it was.
pub proof fn law_map_changes_only_with_deltas(t: Trace, target: u64)
    requires
        crate::trace_laws::well_formed(t),
        t.version >= 3,
        2 <= target <= t.events.len(),
        t.events[0] is MemoryMapSnapshot,
        !changes_map(t.events, target as int),
    ensures
        map_at(t, target) == map_at(t, (target - 1) as u64),
{
    let es = t.events;
    assert(es[target - 1].id() == target);
    assert(es[target - 2].id() == target - 1);
    let s = crate::structure::scan_start();
    let next = crate::structure::scan_step(t.version, es, 0, s);
    assert(crate::structure::scan_from(t.version, es, 0, s) is Ok);
    assert(next is Ok);
    let regions = es[0]->MemoryMapSnapshot_regions;
    assert(es[0].id() == 1);
    lemma_map_changes(t.version, es, 1, next->Ok_0, target, Some(regions));
    if target == 2 {
        assert(crate::structure::scan_step(t.version, es, 1, next->Ok_0) is Ok);
        assert(es[1].id() == 2);
        assert(replayed(es, 1, 1, Some(regions)) == Ok::<Option<Seq<Region>>, Seq<char>>(
            Some(regions),
        ));
    }
}

} // verus!
