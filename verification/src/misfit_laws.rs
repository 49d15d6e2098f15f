//! What is said of events that do not make a trace.
use vstd::prelude::*;
use crate::saying_laws::Saying;
use crate::structure::Scan;
use crate::trace::Event;

verus! {

pub open spec fn about_event(id: u64) -> Saying {
    crate::saying_laws::line("trace event "@).number(id as int)
}

pub open spec fn data_missing(exit_id: u64) -> Saying {
    crate::saying_laws::line("positive SYS_read at exit event "@).number(exit_id as int).words(
        " missing required KernelMemoryWrite event"@,
    )
}

/// What is wrong with the place of a delta.
pub open spec fn delta_misplaced(es: Seq<Event>, x: Scan, id: u64, source: u64, name: Seq<char>) -> Saying {
    if x.last_exit is None || x.last_exit->0.event_id != source {
        about_event(id).words(": "@).words(name).words(" source_event_id "@).number(
            source as int,
        ).words(" is not contiguous with triggering SyscallExit"@)
    } else {
        about_event(id).words(": "@).words(name).words(
            " sourced by non-mapping syscall nr="@,
        ).number(x.last_exit->0.number as int)
    }
}

/// What is said of data that is not due, by the event that its number says is before it.
pub open spec fn data_astray(es: Seq<Event>, id: u64, source: u64) -> Saying {
    let plain = about_event(id).words(
        ": KernelMemoryWrite does not immediately follow a positive SYS_read exit"@,
    );
    if id <= 1 || id - 2 >= es.len() {
        plain
    } else {
        match es[id - 2] {
            Event::SyscallEnter { .. } => about_event(id).words(
                ": KernelMemoryWrite source_event_id "@,
            ).number(source as int).words(" points to a SyscallEnter, expected SyscallExit"@),
            Event::SyscallExit { event_id, number, result, .. } => if number != 0 {
                about_event(id).words(": KernelMemoryWrite attached to SyscallExit nr="@).number(
                    number as int,
                ).words(", expected SYS_read (0)"@)
            } else if result == 0 {
                about_event(id).words(
                    ": KernelMemoryWrite attached to zero-result read exit event "@,
                ).number(event_id as int)
            } else if result < 0 {
                about_event(id).words(
                    ": KernelMemoryWrite attached to failed read exit event "@,
                ).number(event_id as int).words(" (result="@).number(result as int).words(")"@)
            } else {
                plain
            },
            _ => plain,
        }
    }
}

/// What is said of the event at `i` that does not fit those before it.
pub open spec fn misfit_told(version: u32, es: Seq<Event>, i: int, x: Scan, text: Seq<char>) -> bool {
    match es[i] {
        Event::MemoryMapSnapshot { event_id, regions, .. } => if version < 3 {
            crate::saying_laws::says(
                text,
                crate::saying_laws::line("MemoryMapSnapshot event in trace format V"@).number(
                    version as int,
                ),
            )
        } else if crate::shape_laws::map_before(es, i) is Some {
            crate::saying_laws::says(
                text,
                crate::saying_laws::line("duplicate MemoryMapSnapshot event "@).number(
                    event_id as int,
                ).words(" in V3 trace"@),
            )
        } else if i != 0 {
            crate::saying_laws::says(
                text,
                crate::saying_laws::line("MemoryMapSnapshot event "@).number(
                    event_id as int,
                ).words(" must be the first event in a V3 trace"@),
            )
        } else {
            crate::reason_laws::order_told(regions, text)
        },
        Event::SyscallEnter { event_id, tid, number, .. } => if version == 3
            && !crate::shape_laws::begins_with_snapshot(es) {
            crate::saying_laws::says(
                text,
                crate::saying_laws::line(
                    "V3 trace missing initial MemoryMapSnapshot before SyscallEnter event "@,
                ).number(event_id as int),
            )
        } else if version >= 2 && crate::shape_laws::data_is_due(es, i) {
            crate::saying_laws::says(text, data_missing(es[i - 1].id()))
        } else {
            crate::saying_laws::says(
                text,
                crate::saying_laws::line("structural pairing error at event "@).number(
                    event_id as int,
                ).words(": SyscallEnter nr="@).number(number as int).words(" on tid "@).number(
                    tid as int,
                ).words(" while previous nr="@).number(
                    es[crate::shape_laws::open_entry(es, i, tid)->0]->SyscallEnter_number as int,
                ).words(" is pending"@),
            )
        },
        Event::SyscallExit { event_id, tid, number, result } => {
            let head = crate::saying_laws::line("structural pairing error at event "@).number(
                event_id as int,
            ).words(": SyscallExit nr="@).number(number as int).words(" on tid "@).number(
                tid as int,
            );
            let open = crate::shape_laws::open_entry(es, i, tid);
            if version >= 2 && crate::shape_laws::data_is_due(es, i) {
                crate::saying_laws::says(text, data_missing(es[i - 1].id()))
            } else if open is None {
                crate::saying_laws::says(text, head.words(" with no pending SyscallEnter"@))
            } else if es[open->0]->SyscallEnter_number != number {
                crate::saying_laws::says(
                    text,
                    head.words(" does not match pending nr="@).number(
                        es[open->0]->SyscallEnter_number as int,
                    ),
                )
            } else {
                crate::saying_laws::says(
                    text,
                    about_event(event_id).words(": SYS_read result "@).number(
                        result as int,
                    ).words(" exceeds requested count "@).number(
                        es[open->0]->SyscallEnter_args[2] as int,
                    ),
                )
            }
        },
        Event::KernelMemoryWrite { event_id, tid, source_event_id, recorded_address, data } => if !crate::shape_laws::data_is_due(
            es,
            i,
        ) {
            crate::saying_laws::says(text, data_astray(es, event_id, source_event_id))
        } else if es[i - 1].thread() != tid {
            crate::saying_laws::says(
                text,
                about_event(event_id).words(": KernelMemoryWrite tid "@).number(
                    tid as int,
                ).words(" does not match source exit tid "@).number(es[i - 1].thread() as int),
            )
        } else if es[i - 1].id() != source_event_id {
            crate::saying_laws::says(
                text,
                about_event(event_id).words(": KernelMemoryWrite source_event_id "@).number(
                    source_event_id as int,
                ).words(" does not match immediately preceding exit event "@).number(
                    es[i - 1].id() as int,
                ),
            )
        } else if es[i - 1]->SyscallExit_result != data.len() {
            crate::saying_laws::says(
                text,
                about_event(event_id).words(": KernelMemoryWrite data length "@).number(
                    data.len() as int,
                ).words(" does not match read result "@).number(
                    es[i - 1]->SyscallExit_result as int,
                ),
            )
        } else {
            crate::saying_laws::says(
                text,
                about_event(event_id).words(": KernelMemoryWrite recorded_address 0x"@).hex(
                    recorded_address as int,
                    1,
                ).words(" does not match read entry buffer address 0x"@).hex(
                    es[crate::shape_laws::open_entry(
                        es,
                        i - 1,
                        tid,
                    )->0]->SyscallEnter_args[1] as int,
                    1,
                ),
            )
        },
        Event::MemoryMapRemove { event_id, source_event_id, region, .. } => if !crate::shape_laws::delta_in_place(
            es,
            i,
            source_event_id,
        ) {
            crate::saying_laws::says(
                text,
                delta_misplaced(es, x, event_id, source_event_id, "MemoryMapRemove"@),
            )
        } else if es[i - 1] is MemoryMapAdd {
            crate::saying_laws::says(
                text,
                about_event(event_id).words(
                    ": MemoryMapRemove emitted after MemoryMapAdd for source event "@,
                ).number(source_event_id as int),
            )
        } else if crate::shape_laws::map_before(es, i) is None {
            crate::saying_laws::says(text, snapshot_missing(version))
        } else {
            text == crate::model::removed(
                crate::shape_laws::map_before(es, i)->0,
                region,
            )->Err_0
        },
        Event::MemoryMapAdd { event_id, source_event_id, region, .. } => if !crate::shape_laws::delta_in_place(
            es,
            i,
            source_event_id,
        ) {
            crate::saying_laws::says(
                text,
                delta_misplaced(es, x, event_id, source_event_id, "MemoryMapAdd"@),
            )
        } else if crate::shape_laws::map_before(es, i) is None {
            crate::saying_laws::says(text, snapshot_missing(version))
        } else {
            text == crate::model::added(crate::shape_laws::map_before(es, i)->0, region)->Err_0
        },
        Event::SignalDelivery { event_id, signal_number, .. } => if version >= 3
            && !crate::shape_laws::begins_with_snapshot(es) {
            crate::saying_laws::says(
                text,
                crate::saying_laws::line("V"@).number(version as int).words(
                    " trace missing initial MemoryMapSnapshot before SignalDelivery event "@,
                ).number(event_id as int),
            )
        } else if signal_number <= 0 || signal_number > 64 {
            crate::saying_laws::says(
                text,
                about_event(event_id).words(": invalid signal number "@).number(
                    signal_number as int,
                ),
            )
        } else {
            crate::saying_laws::says(
                text,
                crate::saying_laws::line("SignalDelivery event "@).number(event_id as int).words(
                    " interposes before required KernelMemoryWrite for positive SYS_read exit "@,
                ).number(es[i - 1].id() as int),
            )
        },
    }
}

pub open spec fn snapshot_missing(version: u32) -> Saying {
    crate::saying_laws::line("V"@).number(version as int).words(
        " trace is missing required initial MemoryMapSnapshot event"@,
    )
}

/// What is said at the end.
pub open spec fn end_told(version: u32, es: Seq<Event>, text: Seq<char>) -> bool {
    if version == 3 && !crate::shape_laws::begins_with_snapshot(es) {
        crate::saying_laws::says(text, snapshot_missing(version))
    } else {
        crate::saying_laws::says(
            text,
            crate::saying_laws::line("positive SYS_read at exit event "@).number(
                es[es.len() - 1].id() as int,
            ).words(" at end of trace missing required KernelMemoryWrite event"@),
        )
    }
}

#[verifier::rlimit(50)]
proof fn lemma_misfit(version: u32, es: Seq<Event>, i: int, x: Scan)
    requires
        0 <= i < es.len(),
        crate::shape_laws::mirrors(es, i, x),
        crate::structure::scan_step(version, es, i, x) is Err,
    ensures
        misfit_told(
            version,
            es,
            i,
            x,
            crate::structure::scan_step(version, es, i, x)->Err_0,
        ),
{
    broadcast use crate::saying_laws::group_says;

    match es[i] {
        Event::MemoryMapSnapshot { regions, .. } => {
            if crate::maps::order_complaint(regions) is Some {
                crate::reason_laws::lemma_order_told(regions);
            }
        },
        Event::SyscallEnter { tid, .. } => {
            assert(x.open.contains_key(tid) <==> crate::shape_laws::open_entry(
                es,
                i,
                tid,
            ) is Some);
        },
        Event::SyscallExit { tid, .. } => {
            assert(x.open.contains_key(tid) <==> crate::shape_laws::open_entry(
                es,
                i,
                tid,
            ) is Some);
        },
        _ => {},
    }
}

/// The event at `k` is the first that does not fit, and this is said of it.
pub open spec fn first_misfit_told(version: u32, es: Seq<Event>, k: int, x: Scan, text: Seq<char>) -> bool {
    &&& 0 <= k < es.len()
    &&& !crate::shape_laws::fits(version, es, k)
    &&& forall|j: int|
        #![trigger es[j]]
        0 <= j < k ==> crate::shape_laws::fits(version, es, j)
    &&& crate::shape_laws::mirrors(es, k, x)
    &&& misfit_told(version, es, k, x, text)
}

#[verifier::spinoff_prover]
#[verifier::rlimit(100)]
proof fn lemma_told(version: u32, es: Seq<Event>, i: int, x: Scan)
    requires
        0 <= i <= es.len(),
        crate::shape_laws::mirrors(es, i, x),
        forall|j: int|
            #![trigger es[j]]
            0 <= j < i ==> crate::shape_laws::fits(version, es, j),
    ensures
        match crate::structure::scan_from(version, es, i, x) {
            Err(text) => exists|k: int, y: Scan| #[trigger]
                first_misfit_told(version, es, k, y, text),
            Ok(y) => crate::structure::end_complaint(version, y) is Some ==> end_told(
                version,
                es,
                crate::structure::end_complaint(version, y)->0,
            ),
        },
    decreases es.len() - i,
{
    broadcast use crate::saying_laws::group_says;

    if i < es.len() {
        if crate::shape_laws::is_delta(es[i]) {
            crate::shape_laws::lemma_delta_step(version, es, i, x);
        } else {
            crate::shape_laws::lemma_other_step(version, es, i, x);
        }
        let next = crate::structure::scan_step(version, es, i, x);
        if next is Ok {
            lemma_told(version, es, i + 1, next->Ok_0);
        } else {
            lemma_misfit(version, es, i, x);
            assert(first_misfit_told(version, es, i, x, next->Err_0));
        }
    }
}

/// Each event fits those before it.
pub open spec fn all_fit(version: u32, es: Seq<Event>) -> bool {
    forall|j: int|
        #![trigger es[j]]
        0 <= j < es.len() ==> crate::shape_laws::fits(version, es, j)
}

/// Events that do not make a trace are told the first event that does not fit, and why, or what
/// is missing at the end.
pub open spec fn structure_told(version: u32, es: Seq<Event>, text: Seq<char>) -> bool {
    if all_fit(version, es) {
        end_told(version, es, text)
    } else {
        exists|k: int, x: Scan| #[trigger] first_misfit_told(version, es, k, x, text)
    }
}

proof fn lemma_all_fit(version: u32, es: Seq<Event>)
    ensures
        crate::structure::scan_from(version, es, 0, crate::structure::scan_start()) is Ok
            <==> all_fit(version, es),
        crate::shape_laws::mirrors(es, 0, crate::structure::scan_start()),
{
    let start = crate::structure::scan_start();
    assert(crate::shape_laws::mirrors(es, 0, start));
    crate::shape_laws::lemma_scan(version, es, 0, start);
}

/// Events that do not make a trace are told why.
pub proof fn law_misfits_are_explained(version: u32, es: Seq<Event>)
    requires
        crate::structure::structure_complaint(version, es) is Some,
    ensures
        structure_told(version, es, crate::structure::structure_complaint(version, es)->0),
{
    lemma_all_fit(version, es);
    lemma_told(version, es, 0, crate::structure::scan_start());
}

} // verus!
