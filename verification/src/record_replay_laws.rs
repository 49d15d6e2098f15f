//! What was recorded can be replayed.
use vstd::prelude::*;
use crate::recorder::{Phase, Recording, Report, SyscallInfo};
use crate::trace::{Event, SYS_GETPID_X86_64, TRACE_VERSION_4, Trace};

verus! {

/// The syscall that the events from `i` on leave open, when `open` was.
pub open spec fn open_after(es: Seq<Event>, i: int, open: Option<u64>) -> Option<u64>
    decreases es.len() - i,
{
    if i < 0 || i >= es.len() {
        open
    } else {
        match es[i] {
            Event::SyscallEnter { number, .. } => open_after(es, i + 1, Some(number)),
            Event::SyscallExit { .. } => open_after(es, i + 1, None),
            _ => open_after(es, i + 1, open),
        }
    }
}

/// Nothing in the events of a recording keeps them from being replayed.
pub open spec fn replayable_so_far(s: Recording, es: Seq<Event>) -> bool {
    &&& forall|i: int| 0 <= i < es.len() ==> (#[trigger] es[i]).thread() == s.tid()
    &&& crate::replay::signal_complaint(es, 0, None) is None
    &&& crate::replay::result_complaint(TRACE_VERSION_4, es, 0) is None
    &&& open_after(es, 0, None) == match s.pending {
        None => None,
        Some(call) => Some(call.number),
    }
}

/// The kernel numbers processes from 1 to the greatest 32-bit signed integer.
pub open spec fn pids_in_range(s: Recording, report: Report) -> bool {
    match report {
        Report::Syscall(SyscallInfo::Exit { result, .. }) => s.started && s.pending is Some
            && s.pending->0.number == SYS_GETPID_X86_64 ==> 0 < result <= i32::MAX,
        _ => true,
    }
}

proof fn lemma_complaints_extend(es: Seq<Event>, more: Seq<Event>, i: int, open: Option<u64>)
    requires
        0 <= i <= es.len(),
    ensures
        crate::replay::signal_complaint(es, i, open) is None
            ==> crate::replay::signal_complaint(es + more, i, open)
            == crate::replay::signal_complaint(
            es + more,
            es.len() as int,
            open_after(es, i, open),
        ),
        crate::replay::result_complaint(TRACE_VERSION_4, es, i) is None
            ==> crate::replay::result_complaint(TRACE_VERSION_4, es + more, i)
            == crate::replay::result_complaint(TRACE_VERSION_4, es + more, es.len() as int),
        open_after(es + more, i, open) == open_after(
            es + more,
            es.len() as int,
            open_after(es, i, open),
        ),
    decreases es.len() - i,
{
    if i < es.len() {
        assert((es + more)[i] == es[i]);
        match es[i] {
            Event::SyscallEnter { number, .. } => lemma_complaints_extend(
                es,
                more,
                i + 1,
                Some(number),
            ),
            Event::SyscallExit { .. } => lemma_complaints_extend(es, more, i + 1, None),
            _ => lemma_complaints_extend(es, more, i + 1, open),
        }
    }
}

/// Map deltas have no bearing on whether a trace can be replayed.
proof fn lemma_metadata_harmless(es: Seq<Event>, i: int, open: Option<u64>)
    requires
        0 <= i <= es.len(),
        forall|k: int| i <= k < es.len() ==> (#[trigger] es[k]).is_map_metadata(),
    ensures
        crate::replay::signal_complaint(es, i, open) is None,
        crate::replay::result_complaint(TRACE_VERSION_4, es, i) is None,
        open_after(es, i, open) == open,
    decreases es.len() - i,
{
    if i < es.len() {
        assert(es[i].is_map_metadata());
        lemma_metadata_harmless(es, i + 1, open);
    }
}

/// One more event keeps what was recorded replayable.
proof fn lemma_one_more(s: Recording, es: Seq<Event>, e: Event, next: Recording)
    requires
        replayable_so_far(s, es),
        next.pid == s.pid,
        e.thread() == s.tid(),
        ({
            let open = match s.pending {
                None => None,
                Some(call) => Some(call.number),
            };
            let all = es + seq![e];
            &&& crate::replay::signal_complaint(all, es.len() as int, open) is None
            &&& crate::replay::result_complaint(TRACE_VERSION_4, all, es.len() as int) is None
            &&& open_after(all, es.len() as int, open) == match next.pending {
                None => None,
                Some(call) => Some(call.number),
            }
        }),
    ensures
        replayable_so_far(next, es + seq![e]),
{
    let all = es + seq![e];
    lemma_complaints_extend(es, seq![e], 0, None);
    assert forall|i: int| 0 <= i < all.len() implies (#[trigger] all[i]).thread()
        == next.tid() by {
        if i < es.len() {
            assert(all[i] == es[i]);
        }
    }
}

/// Each step of a recording keeps what is recorded fit for replay.
pub proof fn law_recording_stays_replayable(s: Recording, es: Seq<Event>, report: Report)
    requires
        crate::recorder_laws::recorded(s, es),
        replayable_so_far(s, es),
        crate::recorder_laws::kernel_like(s, report),
        pids_in_range(s, report),
        crate::recorder::record_step(s, report) is Ok,
    ensures
        ({
            let step = crate::recorder::record_step(s, report)->Ok_0;
            replayable_so_far(step.next, es + step.events)
        }),
{
    let step = crate::recorder::record_step(s, report)->Ok_0;
    let n = es.len() as int;
    let open = match s.pending {
        None => None,
        Some(call) => Some(call.number),
    };
    match s.phase {
        Phase::FreshMaps { .. } => {
            let all = es + step.events;
            lemma_complaints_extend(es, step.events, 0, None);
            assert forall|k: int| n <= k < all.len() implies (
            #[trigger] all[k]).is_map_metadata() && all[k].thread() == s.tid() by {
                assert(all[k] == step.events[k - n]);
            }
            lemma_metadata_harmless(all, n, open);
            assert forall|i: int| 0 <= i < all.len() implies (#[trigger] all[i]).thread()
                == step.next.tid() by {
                if i < n {
                    assert(all[i] == es[i]);
                }
            }
        },
        _ => {
            if step.events.len() == 0 {
                assert(es + step.events =~= es);
            } else {
                let e = step.events[0];
                let all = es + seq![e];
                assert(step.events =~= seq![e]);
                assert(all[n] == e);
                reveal_with_fuel(crate::replay::signal_complaint, 2);
                reveal_with_fuel(crate::replay::result_complaint, 2);
                reveal_with_fuel(open_after, 2);
                lemma_one_more(s, es, e, step.next);
            }
        },
    }
}

/// A recording that came to its end, and in which a substituted syscall returned or a signal
/// was delivered, passes the checks before a replay is launched.
pub proof fn law_finished_recording_can_be_replayed(s: Recording, es: Seq<Event>, k: int)
    requires
        crate::recorder_laws::recorded(s, es),
        replayable_so_far(s, es),
        s.phase == Phase::Ended,
        0 <= k < es.len(),
        crate::replay::replayable(es[k]),
    ensures
        crate::parser::parsed(crate::wire::trace_bytes(TRACE_VERSION_4, es)) == Ok::<
            Trace,
            Seq<char>,
        >(Trace { version: TRACE_VERSION_4, events: es }),
        crate::replay::preflight_complaint(Trace { version: TRACE_VERSION_4, events: es }) is None,
{
    crate::recorder_laws::law_finished_recording_reads_back(s, es);
    let t = Trace { version: TRACE_VERSION_4, events: es };
    assert(crate::replay::replayable(t.events[k]));
    assert forall|i: int| 0 <= i < t.events.len() implies (#[trigger] t.events[i]).thread()
        == t.events[0].thread() by {
        assert(es[i].thread() == s.tid());
        assert(es[0].thread() == s.tid());
    }
}

/// A recording begins fit for replay.
pub proof fn law_recording_begins_replayable(s: Recording)
    requires
        s.pending is None,
    ensures
        replayable_so_far(s, Seq::empty()),
{
}

} // verus!
