//! What a recorder writes is a trace.
use vstd::prelude::*;
use crate::maps::Region;
use crate::recorder::{Phase, Recording, Report, SyscallInfo};
use crate::structure::{CallExit, OpenCall, ReadExit, Scan};
use crate::trace::{Event, SYS_READ_X86_64, TRACE_VERSION_4, Trace};
use crate::writer::Progress;

verus! {

/// The events scanned so far agree with the state of the recording.
pub open spec fn agrees(s: Recording, scan: Scan) -> bool {
    &&& scan.model == s.model
    &&& scan.open == match s.pending {
        None => Map::<u32, OpenCall>::empty(),
        Some(call) => Map::<u32, OpenCall>::empty().insert(
            s.tid(),
            OpenCall { number: call.number, address: call.args@[1], count: call.args@[2] },
        ),
    }
    &&& match s.phase {
        Phase::ReadData { exit_id, address, len } => {
            &&& s.pending is None
            &&& len <= i64::MAX
            &&& scan.read == Some(
                ReadExit { tid: s.tid(), result: len as i64, event_id: exit_id, address },
            )
        },
        _ => scan.read is None,
    }
    &&& match s.phase {
        Phase::FreshMaps { exit_id, number, .. } => {
            &&& s.pending is None
            &&& s.model is Some
            &&& crate::trace::mapping(number)
            &&& scan.last_exit == Some(CallExit { event_id: exit_id, number })
            &&& scan.group is None
        },
        _ => true,
    }
}

/// `es` are the events of a recording that has come to state `s`.
pub open spec fn recorded(s: Recording, es: Seq<Event>) -> bool {
    &&& s.pid > 0
    &&& s.progress == Some(
        Progress {
            version: TRACE_VERSION_4,
            event_count: es.len() as u64,
            finished: s.phase == Phase::Ended,
        },
    )
    &&& es.len() <= u64::MAX
    &&& forall|i: int| 0 <= i < es.len() ==> (#[trigger] es[i]).id() == i + 1
    &&& forall|i: int|
        0 <= i < es.len() ==> crate::trace_laws::encodable(TRACE_VERSION_4, #[trigger] es[i])
    &&& match crate::structure::scan_from(
        TRACE_VERSION_4,
        es,
        0,
        crate::structure::scan_start(),
    ) {
        Err(_) => false,
        Ok(scan) => agrees(s, scan),
    }
    &&& match s.model {
        None => es.len() == 0 && s.pending is None && (s.started <==> s.phase
            == Phase::FirstMaps),
        Some(map) => s.started && s.phase != Phase::FirstMaps && crate::maps::canonical(map),
    }
}

/// What the kernel keeps to: the first syscall stop is the exit from `execve`, a read returns
/// no more than was asked for, and signals are numbered from 1 to 64.
pub open spec fn kernel_like(s: Recording, report: Report) -> bool {
    match (s.phase, report) {
        (Phase::SyscallStop { .. }, Report::Syscall(SyscallInfo::Entry { .. })) => s.started,
        (Phase::SyscallStop { .. }, Report::Syscall(SyscallInfo::Exit { result, .. })) =>
            s.pending is Some && s.pending->0.number == SYS_READ_X86_64 ==> result
                <= s.pending->0.args@[2],
        (Phase::SignalStop { signal }, _) => 1 <= signal <= 64,
        _ => true,
    }
}

/// A recording goes on with one more event.
proof fn lemma_one_event(s: Recording, es: Seq<Event>, e: Event, next: Recording, scan: Scan)
    requires
        recorded(s, es),
        s.phase != Phase::Ended,
        es.len() < u64::MAX,
        next.pid == s.pid,
        next.progress == Some(
            Progress {
                version: TRACE_VERSION_4,
                event_count: (es.len() + 1) as u64,
                finished: false,
            },
        ),
        next.phase != Phase::Ended,
        e.id() == es.len() + 1,
        crate::trace_laws::encodable(TRACE_VERSION_4, e),
        ({
            let before = crate::structure::scan_from(
                TRACE_VERSION_4,
                es,
                0,
                crate::structure::scan_start(),
            )->Ok_0;
            crate::structure::scan_step(TRACE_VERSION_4, es + seq![e], es.len() as int, before)
                == Ok::<Scan, Seq<char>>(scan)
        }),
        agrees(next, scan),
        match next.model {
            None => false,
            Some(map) => next.started && next.phase != Phase::FirstMaps && crate::maps::canonical(
                map,
            ),
        },
    ensures
        recorded(next, es + seq![e]),
{
    let all = es + seq![e];
    crate::structure::lemma_scan_extend(
        TRACE_VERSION_4,
        es,
        seq![e],
        0,
        crate::structure::scan_start(),
    );
    assert(crate::structure::scan_from(TRACE_VERSION_4, all, all.len() as int, scan) == Ok::<
        Scan,
        Seq<char>,
    >(scan));
    assert forall|i: int| 0 <= i < all.len() implies (#[trigger] all[i]).id() == i + 1 by {
        if i < es.len() {
            assert(all[i] == es[i]);
        }
    }
    assert forall|i: int| 0 <= i < all.len() implies crate::trace_laws::encodable(
        TRACE_VERSION_4,
        #[trigger] all[i],
    ) by {
        if i < es.len() {
            assert(all[i] == es[i]);
        }
    }
}

/// A recording goes on without an event.
proof fn lemma_no_event(s: Recording, es: Seq<Event>, next: Recording)
    requires
        recorded(s, es),
        recorded(next, es),
    ensures
        recorded(next, es + Seq::<Event>::empty()),
{
    assert(es + Seq::<Event>::empty() =~= es);
}

proof fn lemma_status(s: Recording, es: Seq<Event>, report: Report)
    requires
        recorded(s, es),
        s.phase == Phase::Running,
        crate::recorder::record_step(s, report) is Ok,
    ensures
        ({
            let step = crate::recorder::record_step(s, report)->Ok_0;
            recorded(step.next, es + step.events)
        }),
{
    let step = crate::recorder::record_step(s, report)->Ok_0;
    lemma_no_event(s, es, step.next);
}

#[verifier::rlimit(50)]
proof fn lemma_syscall(s: Recording, es: Seq<Event>, report: Report)
    requires
        recorded(s, es),
        kernel_like(s, report),
        s.phase is SyscallStop,
        crate::recorder::record_step(s, report) is Ok,
    ensures
        ({
            let step = crate::recorder::record_step(s, report)->Ok_0;
            recorded(step.next, es + step.events)
        }),
{
    let step = crate::recorder::record_step(s, report)->Ok_0;
    let scan = crate::structure::scan_from(
        TRACE_VERSION_4,
        es,
        0,
        crate::structure::scan_start(),
    )->Ok_0;
    match report->Syscall_0 {
        SyscallInfo::Entry { number, args } => {
            let e = step.events[0];
            assert(step.events =~= seq![e]);
            assert((es + seq![e])[es.len() as int] == e);
            crate::wire::lemma_body_len(e);
            let after = crate::structure::scan_enter(
                TRACE_VERSION_4,
                scan,
                e.id(),
                s.tid(),
                number,
                args@,
            )->Ok_0;
            lemma_one_event(s, es, e, step.next, after);
        },
        SyscallInfo::Exit { result, .. } => {
            if !s.started {
                lemma_no_event(s, es, step.next);
            } else {
                let call = s.pending->0;
                let e = step.events[0];
                assert(step.events =~= seq![e]);
                assert((es + seq![e])[es.len() as int] == e);
                crate::wire::lemma_body_len(e);
                let after = crate::structure::scan_exit(
                    TRACE_VERSION_4,
                    scan,
                    e.id(),
                    s.tid(),
                    call.number,
                    result,
                )->Ok_0;
                assert(after.open =~= Map::<u32, OpenCall>::empty());
                lemma_one_event(s, es, e, step.next, after);
            }
        },
        _ => {},
    }
}

proof fn lemma_signal(s: Recording, es: Seq<Event>, report: Report)
    requires
        recorded(s, es),
        kernel_like(s, report),
        s.phase is SignalStop,
        crate::recorder::record_step(s, report) is Ok,
    ensures
        ({
            let step = crate::recorder::record_step(s, report)->Ok_0;
            recorded(step.next, es + step.events)
        }),
{
    let step = crate::recorder::record_step(s, report)->Ok_0;
    let scan = crate::structure::scan_from(
        TRACE_VERSION_4,
        es,
        0,
        crate::structure::scan_start(),
    )->Ok_0;
    let e = step.events[0];
    assert(step.events =~= seq![e]);
    assert((es + seq![e])[es.len() as int] == e);
    crate::wire::lemma_body_len(e);
    let after = crate::structure::scan_signal(
        TRACE_VERSION_4,
        scan,
        e.id(),
        s.phase->SignalStop_signal,
    )->Ok_0;
    lemma_one_event(s, es, e, step.next, after);
}

proof fn lemma_snapshot_encodable(tid: u32, map: Seq<Region>)
    requires
        tid != 0,
        crate::maps::canonical(map),
        map.len() <= u32::MAX,
        24 + crate::wire::descriptors(map).len() <= u32::MAX,
    ensures
        crate::trace_laws::encodable(
            TRACE_VERSION_4,
            Event::MemoryMapSnapshot { event_id: 1, tid, regions: map },
        ),
{
    crate::wire::lemma_body_len(Event::MemoryMapSnapshot { event_id: 1, tid, regions: map });
}

proof fn lemma_snapshot_scans(tid: u32, map: Seq<Region>)
    requires
        crate::maps::canonical(map),
    ensures
        crate::structure::scan_from(
            TRACE_VERSION_4,
            seq![Event::MemoryMapSnapshot { event_id: 1, tid, regions: map }],
            0,
            crate::structure::scan_start(),
        ) == Ok::<Scan, Seq<char>>(
            Scan { model: Some(map), ..crate::structure::scan_start() },
        ),
{
    crate::maps::lemma_order_complaint(map);
    let all = seq![Event::MemoryMapSnapshot { event_id: 1, tid, regions: map }];
    let start = crate::structure::scan_start();
    let after = Scan { model: Some(map), ..start };
    assert(crate::structure::scan_step(TRACE_VERSION_4, all, 0, start) == Ok::<Scan, Seq<char>>(
        after,
    ));
    assert(crate::structure::scan_from(TRACE_VERSION_4, all, 1, after) == Ok::<Scan, Seq<char>>(
        after,
    ));
}

/// The snapshot of a map that fits its record opens the events of a recording.
#[verifier::rlimit(50)]
proof fn lemma_snapshot(s: Recording, es: Seq<Event>, map: Seq<Region>)
    requires
        recorded(s, es),
        s.phase == Phase::FirstMaps,
        crate::maps::canonical(map),
        map.len() <= u32::MAX,
        24 + crate::wire::descriptors(map).len() <= u32::MAX,
    ensures
        recorded(
            Recording {
                progress: Some(
                    Progress { version: TRACE_VERSION_4, event_count: 1, finished: false },
                ),
                model: Some(map),
                phase: Phase::Running,
                ..s
            },
            es + seq![Event::MemoryMapSnapshot { event_id: 1, tid: s.tid(), regions: map }],
        ),
{
    let e = Event::MemoryMapSnapshot { event_id: 1, tid: s.tid(), regions: map };
    assert(es + seq![e] =~= seq![e]);
    lemma_snapshot_encodable(s.tid(), map);
    lemma_snapshot_scans(s.tid(), map);
}

proof fn lemma_first_maps(s: Recording, es: Seq<Event>, report: Report)
    requires
        recorded(s, es),
        kernel_like(s, report),
        s.phase == Phase::FirstMaps,
        crate::recorder::record_step(s, report) is Ok,
    ensures
        ({
            let step = crate::recorder::record_step(s, report)->Ok_0;
            recorded(step.next, es + step.events)
        }),
{
    let listing = report->Maps_0;
    let step = crate::recorder::first_maps_step(s, listing)->Ok_0;
    let map = crate::proc_maps::listed_map(listing)->Ok_0;
    crate::maps::lemma_order_complaint(map);
    lemma_snapshot(s, es, map);
    assert(step.events =~= seq![
        Event::MemoryMapSnapshot { event_id: 1, tid: s.tid(), regions: map },
    ]);
}

proof fn lemma_data(s: Recording, es: Seq<Event>, report: Report)
    requires
        recorded(s, es),
        s.phase is ReadData,
        crate::recorder::record_step(s, report) is Ok,
    ensures
        ({
            let step = crate::recorder::record_step(s, report)->Ok_0;
            recorded(step.next, es + step.events)
        }),
{
    let step = crate::recorder::record_step(s, report)->Ok_0;
    let scan = crate::structure::scan_from(
        TRACE_VERSION_4,
        es,
        0,
        crate::structure::scan_start(),
    )->Ok_0;
    let e = step.events[0];
    assert(step.events =~= seq![e]);
    assert((es + seq![e])[es.len() as int] == e);
    crate::wire::lemma_body_len(e);
    let after = Scan { read: None, ..scan };
    lemma_one_event(s, es, e, step.next, after);
}

/// Deltas that lead from the map to `fresh` scan to that map.
#[verifier::rlimit(50)]
proof fn lemma_scan_deltas(
    all: Seq<Event>,
    n: int,
    k: int,
    s: Scan,
    count: u64,
    tid: u32,
    exit_id: u64,
    removes: Seq<Region>,
    adds: Seq<Region>,
    kept: Seq<Region>,
    fresh: Seq<Region>,
)
    requires
        0 <= n,
        0 <= k <= removes.len() + adds.len(),
        all.len() == n + removes.len() + adds.len(),
        ({
            let ds = crate::recorder::delta_events(count, tid, exit_id, removes, adds);
            forall|j: int| 0 <= j < ds.len() ==> all[n + j] == #[trigger] ds[j]
        }),
        s.model is Some,
        s.last_exit is Some,
        s.last_exit->0.event_id == exit_id,
        crate::trace::mapping(s.last_exit->0.number),
        k < removes.len() ==> {
            &&& s.group != Some((exit_id, true))
            &&& crate::model_laws::removed_all(s.model->0, removes.skip(k)) == Ok::<
                Seq<Region>,
                Seq<char>,
            >(kept)
            &&& crate::model_laws::added_all(kept, adds) == Ok::<Seq<Region>, Seq<char>>(fresh)
        },
        k >= removes.len() ==> crate::model_laws::added_all(
            s.model->0,
            adds.skip(k - removes.len()),
        ) == Ok::<Seq<Region>, Seq<char>>(fresh),
    ensures
        ({
            let r = crate::structure::scan_from(TRACE_VERSION_4, all, n + k, s);
            &&& r is Ok
            &&& r->Ok_0.model == Some(fresh)
            &&& r->Ok_0.open == s.open
            &&& r->Ok_0.read == s.read
        }),
    decreases removes.len() + adds.len() - k,
{
    let ds = crate::recorder::delta_events(count, tid, exit_id, removes, adds);
    if k == removes.len() + adds.len() {
        assert(adds.skip(k - removes.len()).len() == 0);
    } else {
        assert(all[n + k] == ds[k]);
        if k < removes.len() {
            let rest = removes.skip(k);
            assert(rest[0] == removes[k]);
            assert(rest.drop_first() =~= removes.skip(k + 1));
            let next = crate::structure::scan_step(TRACE_VERSION_4, all, n + k, s)->Ok_0;
            if k + 1 == removes.len() {
                assert(removes.skip(k + 1).len() == 0);
                assert(adds.skip(0) =~= adds);
            }
            lemma_scan_deltas(
                all,
                n,
                k + 1,
                next,
                count,
                tid,
                exit_id,
                removes,
                adds,
                kept,
                fresh,
            );
        } else {
            let rest = adds.skip(k - removes.len());
            assert(rest[0] == adds[k - removes.len()]);
            assert(rest.drop_first() =~= adds.skip(k + 1 - removes.len()));
            let next = crate::structure::scan_step(TRACE_VERSION_4, all, n + k, s)->Ok_0;
            lemma_scan_deltas(
                all,
                n,
                k + 1,
                next,
                count,
                tid,
                exit_id,
                removes,
                adds,
                kept,
                fresh,
            );
        }
    }
}

proof fn lemma_not_in_members(a: Seq<Region>, b: Seq<Region>, i: int)
    requires
        0 <= i < crate::model::not_in(a, b).len(),
    ensures
        exists|k: int| 0 <= k < a.len() && a[k] == crate::model::not_in(a, b)[i],
{
    let p = |r: Region| !crate::model::has_vma(b, r);
    a.lemma_filter_contains_rev(p, crate::model::not_in(a, b)[i]);
}

#[verifier::rlimit(50)]
proof fn lemma_fresh_maps(s: Recording, es: Seq<Event>, report: Report)
    requires
        recorded(s, es),
        kernel_like(s, report),
        s.phase is FreshMaps,
        crate::recorder::record_step(s, report) is Ok,
    ensures
        ({
            let step = crate::recorder::record_step(s, report)->Ok_0;
            recorded(step.next, es + step.events)
        }),
{
    let step = crate::recorder::record_step(s, report)->Ok_0;
    let exit_id = s.phase->FreshMaps_exit_id;
    let number = s.phase->FreshMaps_number;
    let result = s.phase->FreshMaps_result;
    let start = crate::structure::scan_start();
    let scan = crate::structure::scan_from(TRACE_VERSION_4, es, 0, start)->Ok_0;
    let model = s.model->0;
    let fresh = crate::proc_maps::listed_map(report->Maps_0)->Ok_0;
    let removes = crate::model::not_in(model, fresh);
    let adds = crate::model::not_in(fresh, model);
    let p = s.progress->0;
    crate::maps::lemma_order_complaint(fresh);
    if crate::recorder::failed_mapping(number, result) {
        lemma_no_event(s, es, step.next);
    } else {
        let ds = crate::recorder::delta_events(p.event_count, s.tid(), exit_id, removes, adds);
        let all = es + ds;
        let n = es.len() as int;
        crate::recorder::lemma_deltas_written(p, ds, 0);
        let kept = crate::model_laws::removed_all(model, removes)->Ok_0;
        assert(crate::recorder::diff_complaint(model, removes, adds, fresh) is None);
        assert(removes.skip(0) =~= removes);
        assert(adds.skip(0) =~= adds);
        assert forall|j: int| 0 <= j < ds.len() implies all[n + j] == #[trigger] ds[j] by {}
        if removes.len() == 0 {
            assert(kept == model);
        }
        lemma_scan_deltas(
            all,
            n,
            0,
            scan,
            p.event_count,
            s.tid(),
            exit_id,
            removes,
            adds,
            kept,
            fresh,
        );
        crate::structure::lemma_scan_extend(TRACE_VERSION_4, es, ds, 0, start);
        assert forall|i: int| 0 <= i < all.len() implies (#[trigger] all[i]).id() == i + 1 by {
            if i < n {
                assert(all[i] == es[i]);
            } else {
                assert(all[i] == ds[i - n]);
            }
        }
        assert forall|i: int| 0 <= i < all.len() implies crate::trace_laws::encodable(
            TRACE_VERSION_4,
            #[trigger] all[i],
        ) by {
            if i < n {
                assert(all[i] == es[i]);
            } else {
                let e = ds[i - n];
                assert(all[i] == e);
                if i - n < removes.len() {
                    lemma_not_in_members(model, fresh, i - n);
                    let k = choose|k: int| 0 <= k < model.len() && model[k] == removes[i - n];
                    assert(model[k].valid());
                } else {
                    lemma_not_in_members(fresh, model, i - n - removes.len());
                    let k = choose|k: int|
                        0 <= k < fresh.len() && fresh[k] == adds[i - n - removes.len()];
                    assert(fresh[k].valid());
                }
            }
        }
    }
}

/// Each step of a recording extends a sound sequence of events to a sound one, whatever the
/// process does, as long as the kernel keeps to its rules.
pub proof fn law_recording_stays_sound(s: Recording, es: Seq<Event>, report: Report)
    requires
        recorded(s, es),
        kernel_like(s, report),
        crate::recorder::record_step(s, report) is Ok,
    ensures
        ({
            let step = crate::recorder::record_step(s, report)->Ok_0;
            recorded(step.next, es + step.events)
        }),
{
    match s.phase {
        Phase::Running => lemma_status(s, es, report),
        Phase::SyscallStop { .. } => lemma_syscall(s, es, report),
        Phase::SignalStop { .. } => lemma_signal(s, es, report),
        Phase::FirstMaps => lemma_first_maps(s, es, report),
        Phase::ReadData { .. } => lemma_data(s, es, report),
        Phase::FreshMaps { .. } => lemma_fresh_maps(s, es, report),
        Phase::Ended => {},
    }
}

/// A recording begins with no events.
pub proof fn law_recording_begins_sound(s: Recording)
    requires
        s.pid > 0,
        s.progress == Some(
            Progress { version: TRACE_VERSION_4, event_count: 0, finished: false },
        ),
        !s.started,
        s.pending is None,
        s.interrupted is None,
        s.model is None,
        s.injected is None,
        s.phase == Phase::Running,
    ensures
        recorded(s, Seq::empty()),
{
}

/// A recording that came to its end reads back as the events it wrote.
pub proof fn law_finished_recording_reads_back(s: Recording, es: Seq<Event>)
    requires
        recorded(s, es),
        s.phase == Phase::Ended,
    ensures
        crate::parser::parsed(crate::wire::trace_bytes(TRACE_VERSION_4, es)) == Ok::<
            Trace,
            Seq<char>,
        >(Trace { version: TRACE_VERSION_4, events: es }),
{
    crate::trace_laws::law_written_trace_reads_back(
        Trace { version: TRACE_VERSION_4, events: es },
    );
}

/// The bytes of the steps, behind the header, are the bytes of the trace.
pub proof fn law_recording_output_adds_up(s: Recording, es: Seq<Event>, report: Report)
    requires
        recorded(s, es),
        crate::recorder::record_step(s, report) is Ok,
    ensures
        ({
            let step = crate::recorder::record_step(s, report)->Ok_0;
            let before = crate::wire::header(TRACE_VERSION_4) + crate::wire::records(es);
            before + step.output() == if step.next.phase == Phase::Ended {
                crate::wire::trace_bytes(TRACE_VERSION_4, es + step.events)
            } else {
                crate::wire::header(TRACE_VERSION_4) + crate::wire::records(es + step.events)
            }
        }),
{
    let step = crate::recorder::record_step(s, report)->Ok_0;
    crate::trace_laws::lemma_records_split(es, step.events);
    let before = crate::wire::header(TRACE_VERSION_4) + crate::wire::records(es);
    assert(before + step.output() =~= if step.next.phase == Phase::Ended {
        crate::wire::trace_bytes(TRACE_VERSION_4, es + step.events)
    } else {
        crate::wire::header(TRACE_VERSION_4) + crate::wire::records(es + step.events)
    });
}

/// A failed mapping syscall adds no event, and the map stays as it was.
pub proof fn law_failed_mapping_leaves_map(s: Recording, report: Report)
    requires
        s.phase is FreshMaps,
        report is Maps,
        crate::recorder::failed_mapping(s.phase->FreshMaps_number, s.phase->FreshMaps_result),
        crate::recorder::record_step(s, report) is Ok,
    ensures
        ({
            let step = crate::recorder::record_step(s, report)->Ok_0;
            step.events.len() == 0 && step.next.model == s.model
        }),
{
}

/// The map that the recorder has when the process runs is the one that is reconstructed from
/// the finished trace at the last event written by then.
pub proof fn law_history_matches_recording(s: Recording, es: Seq<Event>, more: Seq<Event>)
    requires
        recorded(s, es),
        s.phase == Phase::Running,
        s.model is Some,
        crate::trace_laws::well_formed(Trace { version: TRACE_VERSION_4, events: es + more }),
        more.len() > 0 ==> !(more[0] is MemoryMapAdd) && !(more[0] is MemoryMapRemove),
        es.len() > 0,
    ensures
        crate::history::map_at(
            Trace { version: TRACE_VERSION_4, events: es + more },
            es.len() as u64,
        ) == Ok::<Seq<Region>, Seq<char>>(s.model->0),
{
    let t = Trace { version: TRACE_VERSION_4, events: es + more };
    let start = crate::structure::scan_start();
    assert(t.events.take(es.len() as int) =~= es);
    if more.len() > 0 {
        assert(t.events[es.len() as int] == more[0]);
    }
    if !(es[0] is MemoryMapSnapshot) {
        lemma_no_map_without_snapshot(es, 0, start);
    }
    assert(t.events[0] == es[0]);
    crate::history::law_map_is_built_by_events_so_far(t, es.len() as u64);
}

/// Only a snapshot, which comes first, brings a map.
proof fn lemma_no_map_without_snapshot(es: Seq<Event>, i: int, scan: Scan)
    requires
        0 <= i <= es.len(),
        scan.model is None,
        i == 0 && es.len() > 0 ==> !(es[0] is MemoryMapSnapshot),
        crate::structure::scan_from(TRACE_VERSION_4, es, i, scan) is Ok,
    ensures
        crate::structure::scan_from(TRACE_VERSION_4, es, i, scan)->Ok_0.model is None,
    decreases es.len() - i,
{
    if i < es.len() {
        let next = crate::structure::scan_step(TRACE_VERSION_4, es, i, scan);
        assert(next is Ok);
        lemma_no_map_without_snapshot(es, i + 1, next->Ok_0);
    }
}

} // verus!
