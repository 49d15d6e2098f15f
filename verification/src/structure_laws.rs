//! What holds of the events of every well-formed trace.
use vstd::prelude::*;
use crate::structure::Scan;
use crate::trace::{Event, SYS_READ_X86_64, Trace};

verus! {

/// What the first `i` events leave open.
pub open spec fn scan_at(version: u32, es: Seq<Event>, i: int) -> Scan
    decreases i,
{
    if i <= 0 {
        crate::structure::scan_start()
    } else {
        crate::structure::scan_step(version, es, i - 1, scan_at(version, es, i - 1))->Ok_0
    }
}

/// A map delta of the syscall whose exit has the given event id.
pub open spec fn is_delta_of(e: Event, exit_id: u64) -> bool {
    match e {
        Event::MemoryMapAdd { source_event_id, .. } => source_event_id == exit_id,
        Event::MemoryMapRemove { source_event_id, .. } => source_event_id == exit_id,
        _ => false,
    }
}

/// The event at `j` is the entry of a syscall of the thread, and neither an entry nor an exit
/// of that thread comes between it and `i`.
pub open spec fn entered_at(es: Seq<Event>, tid: u32, number: u64, j: int, i: int) -> bool {
    &&& 0 <= j < i <= es.len()
    &&& es[j] is SyscallEnter
    &&& es[j].thread() == tid
    &&& es[j]->SyscallEnter_number == number
    &&& forall|k: int|
        j < k < i ==> !((#[trigger] es[k]).number() is Some && es[k].thread() == tid)
}

/// How the state of a scan reflects the events before it.
spec fn reflects(es: Seq<Event>, i: int, x: Scan) -> bool {
    &&& x.read is Some ==> {
        &&& i >= 1
        &&& es[i - 1] is SyscallExit
        &&& es[i - 1].id() == x.read->0.event_id
        &&& es[i - 1].thread() == x.read->0.tid
        &&& es[i - 1]->SyscallExit_number == SYS_READ_X86_64
        &&& es[i - 1]->SyscallExit_result == x.read->0.result
        &&& x.read->0.result > 0
        &&& x.last_exit is Some
        &&& x.last_exit->0.number == SYS_READ_X86_64
    }
    &&& x.last_exit is Some ==> {
        let id = x.last_exit->0.event_id;
        &&& 1 <= id <= i
        &&& es[id - 1] is SyscallExit
        &&& es[id - 1]->SyscallExit_number == x.last_exit->0.number
        &&& crate::trace::mapping(x.last_exit->0.number) ==> forall|k: int|
            id <= k < i ==> is_delta_of(#[trigger] es[k], id)
        &&& crate::trace::mapping(x.last_exit->0.number) && x.group != Some((id, true))
            ==> forall|k: int| id <= k < i ==> (#[trigger] es[k]) is MemoryMapRemove
    }
    &&& forall|tid: u32| #[trigger]
        x.open.contains_key(tid) ==> exists|j: int|
            #[trigger] entered_at(es, tid, x.open[tid].number, j, i)
}

proof fn lemma_scans_on(version: u32, es: Seq<Event>, i: int)
    requires
        0 <= i <= es.len(),
        crate::structure::scan_from(version, es, 0, crate::structure::scan_start()) is Ok,
    ensures
        crate::structure::scan_from(version, es, 0, crate::structure::scan_start())
            == crate::structure::scan_from(version, es, i, scan_at(version, es, i)),
        i < es.len() ==> crate::structure::scan_step(version, es, i, scan_at(version, es, i)) is Ok,
    decreases i,
{
    if i > 0 {
        lemma_scans_on(version, es, i - 1);
    }
}

/// A pair of entry and exit stays open over events that belong to neither.
proof fn lemma_still_entered(es: Seq<Event>, tid: u32, number: u64, i: int)
    requires
        0 <= i < es.len(),
        exists|j: int| #[trigger] entered_at(es, tid, number, j, i),
        !(es[i].number() is Some && es[i].thread() == tid),
    ensures
        exists|j: int| #[trigger] entered_at(es, tid, number, j, i + 1),
{
    let j = choose|j: int| #[trigger] entered_at(es, tid, number, j, i);
    assert(entered_at(es, tid, number, j, i + 1));
}

proof fn lemma_step_reflects(version: u32, es: Seq<Event>, i: int, x: Scan)
    requires
        0 <= i < es.len(),
        forall|k: int| 0 <= k < es.len() ==> (#[trigger] es[k]).id() == k + 1,
        version < 3 ==> forall|k: int|
            0 <= k < es.len() ==> !(#[trigger] es[k]).is_map_metadata(),
        reflects(es, i, x),
        crate::structure::scan_step(version, es, i, x) is Ok,
    ensures
        reflects(es, i + 1, crate::structure::scan_step(version, es, i, x)->Ok_0),
{
    let y = crate::structure::scan_step(version, es, i, x)->Ok_0;
    let e = es[i];
    assert(e.id() == i + 1);
    assert forall|tid: u32| #[trigger] y.open.contains_key(tid) implies exists|j: int|
        #[trigger] entered_at(es, tid, y.open[tid].number, j, i + 1) by {
        if e.number() is Some && e.thread() == tid {
            assert(e is SyscallEnter);
            assert(entered_at(es, tid, y.open[tid].number, i, i + 1));
        } else {
            assert(x.open.contains_key(tid));
            assert(y.open[tid] == x.open[tid]);
            lemma_still_entered(es, tid, x.open[tid].number, i);
        }
    }
}

proof fn lemma_reflects(t: Trace, i: int)
    requires
        crate::trace_laws::well_formed(t),
        0 <= i <= t.events.len(),
    ensures
        reflects(t.events, i, scan_at(t.version, t.events, i)),
    decreases i,
{
    if i > 0 {
        lemma_reflects(t, i - 1);
        lemma_scans_on(t.version, t.events, i - 1);
        if t.version < 3 {
            assert forall|k: int| 0 <= k < t.events.len() implies !(
            #[trigger] t.events[k]).is_map_metadata() by {
                assert(crate::trace_laws::encodable(t.version, t.events[k]));
            }
        }
        lemma_step_reflects(
            t.version,
            t.events,
            i - 1,
            scan_at(t.version, t.events, i - 1),
        );
    }
}

/// Every exit has its entry: the same syscall of the same thread, with no other entry or exit
/// of that thread between them.
pub proof fn law_exit_has_its_entry(t: Trace, i: int)
    requires
        crate::trace_laws::well_formed(t),
        0 <= i < t.events.len(),
        t.events[i] is SyscallExit,
    ensures
        exists|j: int| #[trigger]
            entered_at(
                t.events,
                t.events[i].thread(),
                t.events[i]->SyscallExit_number,
                j,
                i,
            ),
{
    lemma_reflects(t, i);
    lemma_scans_on(t.version, t.events, i);
    let x = scan_at(t.version, t.events, i);
    assert(x.open.contains_key(t.events[i].thread()));
}

/// From format 2 on, a read that returned data is followed at once by that data.
pub proof fn law_read_is_followed_by_its_data(t: Trace, i: int)
    requires
        crate::trace_laws::well_formed(t),
        t.version >= 2,
        0 <= i < t.events.len(),
        t.events[i] is SyscallExit,
        t.events[i]->SyscallExit_number == SYS_READ_X86_64,
        t.events[i]->SyscallExit_result > 0,
    ensures
        i + 1 < t.events.len(),
        ({
            let d = t.events[i + 1];
            &&& d is KernelMemoryWrite
            &&& d.thread() == t.events[i].thread()
            &&& d->KernelMemoryWrite_source_event_id == t.events[i].id()
            &&& d->KernelMemoryWrite_data.len() == t.events[i]->SyscallExit_result
        }),
{
    lemma_scans_on(t.version, t.events, i);
    lemma_scans_on(t.version, t.events, i + 1);
    let x = scan_at(t.version, t.events, i);
    let y = scan_at(t.version, t.events, i + 1);
    assert(y == crate::structure::scan_step(t.version, t.events, i, x)->Ok_0);
    assert(y.read is Some);
    assert(y.last_exit is Some && y.last_exit->0.number == SYS_READ_X86_64);
    if i + 1 < t.events.len() {
        assert(crate::structure::scan_step(t.version, t.events, i + 1, y) is Ok);
        if t.version < 3 {
            assert(crate::trace_laws::encodable(t.version, t.events[i + 1]));
        }
    }
}

/// Data stands only right behind the read that returned it, and there is as much of it as the
/// read returned.
pub proof fn law_data_follows_its_read(t: Trace, i: int)
    requires
        crate::trace_laws::well_formed(t),
        0 <= i < t.events.len(),
        t.events[i] is KernelMemoryWrite,
    ensures
        i >= 1,
        ({
            let e = t.events[i - 1];
            &&& e is SyscallExit
            &&& e->SyscallExit_number == SYS_READ_X86_64
            &&& e->SyscallExit_result == t.events[i]->KernelMemoryWrite_data.len()
            &&& e->SyscallExit_result > 0
            &&& e.id() == t.events[i]->KernelMemoryWrite_source_event_id
            &&& e.thread() == t.events[i].thread()
        }),
{
    lemma_reflects(t, i);
    lemma_scans_on(t.version, t.events, i);
}

/// A map delta belongs to the exit of a mapping syscall, from which only deltas of that
/// syscall separate it; no region is taken out once one was put in.
pub proof fn law_delta_follows_its_syscall(t: Trace, i: int, exit_id: u64)
    requires
        crate::trace_laws::well_formed(t),
        0 <= i < t.events.len(),
        is_delta_of(t.events[i], exit_id),
    ensures
        1 <= exit_id <= i,
        t.events[exit_id - 1] is SyscallExit,
        crate::trace::mapping(t.events[exit_id - 1]->SyscallExit_number),
        forall|k: int| exit_id <= k < i ==> is_delta_of(#[trigger] t.events[k], exit_id),
        t.events[i] is MemoryMapRemove ==> forall|k: int|
            exit_id <= k < i ==> (#[trigger] t.events[k]) is MemoryMapRemove,
{
    lemma_reflects(t, i);
    lemma_scans_on(t.version, t.events, i);
}

/// A snapshot stands only at the very beginning.
pub proof fn law_snapshot_stands_first(t: Trace, i: int)
    requires
        crate::trace_laws::well_formed(t),
        0 <= i < t.events.len(),
        t.events[i] is MemoryMapSnapshot,
    ensures
        i == 0,
{
    lemma_scans_on(t.version, t.events, i);
}

} // verus!
