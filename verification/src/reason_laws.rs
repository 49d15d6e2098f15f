//! What is said of regions, maps, events and traces that are not what they should be.
use vstd::prelude::*;
use crate::maps::{MemoryRegion, Region};
use crate::saying_laws::Saying;
use crate::trace::{Event, Trace};

verus! {

/// What is wrong with the bounds of a region.
pub open spec fn bounds_trouble(r: Region) -> Saying {
    if r.start >= r.end {
        crate::saying_laws::line("invalid region bounds: start 0x"@).hex(r.start as int, 1).words(
            " >= end 0x"@,
        ).hex(r.end as int, 1)
    } else if r.start % 4096 != 0 {
        crate::saying_laws::line("region start 0x"@).hex(r.start as int, 1).words(
            " is not aligned to 4096-byte page boundary"@,
        )
    } else {
        crate::saying_laws::line("region end 0x"@).hex(r.end as int, 1).words(
            " is not aligned to 4096-byte page boundary"@,
        )
    }
}

/// What is said of an invalid region names the bound that is wrong.
pub proof fn law_invalid_region_is_explained(r: MemoryRegion, x: Result<(), String>)
    requires
        call_ensures(MemoryRegion::validate, (&r,), x),
        x is Err,
    ensures
        crate::saying_laws::says(x->Err_0@, bounds_trouble(r@)),
{
    broadcast use crate::saying_laws::group_says;

}

/// One region comes before the other.
pub open spec fn in_turn(a: Region, b: Region) -> bool {
    a.start < b.start && a.end <= b.start
}

/// What is wrong with two regions that do not come in turn.
pub open spec fn turn_trouble(a: Region, b: Region) -> Saying {
    if a.start >= b.start {
        crate::saying_laws::line("non-canonical snapshot ordering: region start 0x"@).hex(
            a.start as int,
            1,
        ).words(" is not strictly less than subsequent region start 0x"@).hex(b.start as int, 1)
    } else {
        crate::saying_laws::line("overlapping regions detected: [0x"@).hex(
            a.start as int,
            1,
        ).words(", 0x"@).hex(a.end as int, 1).words(") overlaps with [0x"@).hex(
            b.start as int,
            1,
        ).words(", 0x"@).hex(b.end as int, 1).words(")"@)
    }
}

/// The region at `k` is the first one with wrong bounds.
pub open spec fn first_odd(s: Seq<Region>, k: int) -> bool {
    &&& 0 <= k < s.len()
    &&& !crate::region_laws::whole_pages(s[k])
    &&& forall|j: int| 0 <= j < k ==> crate::region_laws::whole_pages(#[trigger] s[j])
}

/// The region at `k` is the first one that does not come after the one before it.
pub open spec fn first_out_of_turn(s: Seq<Region>, k: int) -> bool {
    &&& 1 <= k < s.len()
    &&& !in_turn(s[k - 1], s[k])
    &&& forall|j: int| 1 <= j < k ==> in_turn(s[j - 1], #[trigger] s[j])
}

/// What is said of regions that are not in order: the first one with wrong bounds, or else the
/// first one out of turn.
pub open spec fn order_told(s: Seq<Region>, text: Seq<char>) -> bool {
    ||| exists|k: int| #[trigger]
        first_odd(s, k) && crate::saying_laws::says(text, bounds_trouble(s[k]))
    ||| (forall|j: int| 0 <= j < s.len() ==> crate::region_laws::whole_pages(#[trigger] s[j]))
        && exists|k: int| #[trigger]
        first_out_of_turn(s, k) && crate::saying_laws::says(text, turn_trouble(s[k - 1], s[k]))
}

proof fn lemma_first_odd(s: Seq<Region>, i: int)
    requires
        0 <= i <= s.len(),
        forall|j: int| 0 <= j < i ==> crate::region_laws::whole_pages(#[trigger] s[j]),
    ensures
        match crate::maps::first_invalid(s, i) {
            Some(text) => exists|k: int| #[trigger]
                first_odd(s, k) && crate::saying_laws::says(text, bounds_trouble(s[k])),
            None => forall|j: int|
                0 <= j < s.len() ==> crate::region_laws::whole_pages(#[trigger] s[j]),
        },
    decreases s.len() - i,
{
    broadcast use crate::saying_laws::group_says;

    if i < s.len() {
        if s[i].complaint() is Some {
            assert(first_odd(s, i));
            assert(crate::saying_laws::says(s[i].complaint()->0, bounds_trouble(s[i])));
        } else {
            lemma_first_odd(s, i + 1);
        }
    }
}

proof fn lemma_first_out_of_turn(s: Seq<Region>, i: int)
    requires
        1 <= i,
        forall|j: int| 1 <= j < i && j < s.len() ==> in_turn(s[j - 1], #[trigger] s[j]),
    ensures
        match crate::maps::first_disorder(s, i) {
            Some(text) => exists|k: int| #[trigger]
                first_out_of_turn(s, k) && crate::saying_laws::says(
                    text,
                    turn_trouble(s[k - 1], s[k]),
                ),
            None => true,
        },
    decreases s.len() - i,
{
    broadcast use crate::saying_laws::group_says;

    if i < s.len() {
        if !in_turn(s[i - 1], s[i]) {
            let text = crate::maps::first_disorder(s, i)->0;
            assert(first_out_of_turn(s, i));
            assert(crate::saying_laws::says(text, turn_trouble(s[i - 1], s[i])));
        } else {
            lemma_first_out_of_turn(s, i + 1);
        }
    }
}

/// Regions out of order, and what is said of them.
pub proof fn lemma_order_told(s: Seq<Region>)
    requires
        crate::maps::order_complaint(s) is Some,
    ensures
        order_told(s, crate::maps::order_complaint(s)->0),
{
    lemma_first_odd(s, 0);
    lemma_first_out_of_turn(s, 1);
}

/// What is said of regions out of order names the first that is wrong.
pub proof fn law_disorder_is_explained(slice: &[MemoryRegion], checked: Result<(), String>)
    requires
        call_ensures(crate::maps::validate_regions_canonical_order, (slice,), checked),
        checked is Err,
    ensures
        order_told(crate::maps::region_views(slice@), checked->Err_0@),
{
    lemma_order_told(crate::maps::region_views(slice@));
}

/// The region at `k` is the first one that `r` overlaps.
pub open spec fn first_met(s: Seq<Region>, r: Region, k: int) -> bool {
    &&& 0 <= k < s.len()
    &&& r.overlaps(s[k])
    &&& forall|j: int| 0 <= j < k ==> !r.overlaps(#[trigger] s[j])
}

/// What is said of a region that cannot be put in or taken out names its bounds and those of the
/// first region that it meets.
pub proof fn law_refused_change_is_explained(s: Seq<Region>, r: Region)
    ensures
        crate::model::removed(s, r) is Err ==> crate::saying_laws::says(
            crate::model::removed(s, r)->Err_0,
            crate::saying_laws::line(
                "semantic error: attempt to remove non-existent memory region [0x"@,
            ).hex(r.start as int, 1).words(", 0x"@).hex(r.end as int, 1).words(")"@),
        ),
        crate::model::added(s, r) is Err && !crate::region_laws::whole_pages(r)
            ==> crate::saying_laws::says(crate::model::added(s, r)->Err_0, bounds_trouble(r)),
        crate::model::added(s, r) is Err && crate::region_laws::whole_pages(r) ==> exists|k: int| #[trigger]
            first_met(s, r, k) && crate::saying_laws::says(
                crate::model::added(s, r)->Err_0,
                meeting_trouble(r, s[k]),
            ),
{
    broadcast use crate::saying_laws::group_says;

    crate::model::lemma_overlap_position(s, r, 0);
    if crate::model::added(s, r) is Err && crate::region_laws::whole_pages(r) {
        let k = crate::model::overlap_position(s, r, 0)->0;
        assert(r.complaint() is None);
        assert(crate::model::overlap_position(s, r, 0) is Some);
        lemma_first_met(s, r, 0);
        assert(crate::saying_laws::says(
            crate::model::added(s, r)->Err_0,
            meeting_trouble(r, s[k]),
        ));
    }
}

proof fn lemma_first_met(s: Seq<Region>, r: Region, i: int)
    requires
        0 <= i <= s.len(),
        forall|j: int| 0 <= j < i ==> !r.overlaps(#[trigger] s[j]),
        crate::model::overlap_position(s, r, i) is Some,
    ensures
        first_met(s, r, crate::model::overlap_position(s, r, i)->0),
    decreases s.len() - i,
{
    if i < s.len() && !r.overlaps(s[i]) {
        lemma_first_met(s, r, i + 1);
    }
}

pub open spec fn meeting_trouble(r: Region, met: Region) -> Saying {
    crate::saying_laws::line("semantic error: attempt to add region [0x"@).hex(
        r.start as int,
        1,
    ).words(", 0x"@).hex(r.end as int, 1).words(") which overlaps with existing [0x"@).hex(
        met.start as int,
        1,
    ).words(", 0x"@).hex(met.end as int, 1).words(")"@)
}

/// What is said where there is no map for an event.
pub proof fn law_missing_map_is_explained(t: Trace, target: u64)
    requires
        crate::history::map_at(t, target) is Err,
    ensures
        ({
            let text = crate::history::map_at(t, target)->Err_0;
            &&& t.version < 3 ==> crate::saying_laws::says(
                text,
                crate::saying_laws::line("trace format V"@).number(t.version as int).words(
                    " has no initial memory-map model; record again with V3"@,
                ),
            )
            &&& t.version >= 3 && target == 0 ==> text == "event-id must be non-zero"@
            &&& t.version >= 3 && target != 0 && (forall|i: int|
                0 <= i < t.events.len() ==> (#[trigger] t.events[i]).id() != target)
                ==> crate::saying_laws::says(
                text,
                crate::saying_laws::line("event-id "@).number(target as int).words(
                    " not found in trace (event count: "@,
                ).number(t.events.len() as int).words(")"@),
            )
        }),
{
    broadcast use crate::saying_laws::group_says;

}

/// Which trouble a trace has that is not replayed. Signals come before results.
pub open spec fn preflight_told(t: Trace, text: Seq<char>) -> bool {
    let es = t.events;
    if es.len() == 0 {
        text == "M4 replay trace contains no events"@
    } else if exists|i: int| 0 <= i < es.len() && (#[trigger] es[i]).thread() != es[0].thread() {
        text == "M4 replay does not support multi-threaded trace with multiple TIDs"@
    } else if exists|i: int| #[trigger] first_unfit(t, i, true) {
        exists|i: int| #[trigger]
            first_unfit(t, i, true) && crate::saying_laws::says(text, unfit_signal(t, i))
    } else if exists|i: int| #[trigger] first_unfit(t, i, false) {
        exists|i: int| #[trigger]
            first_unfit(t, i, false) && crate::saying_laws::says(text, unfit_result(t, i))
    } else {
        text
            == "M4 replay trace contains no supported SYS_getpid substitution, SYS_read substitution or signal delivery"@
    }
}

/// The event at `i` is the first signal, or else the first exit, that cannot be replayed.
pub open spec fn first_unfit(t: Trace, i: int, signal: bool) -> bool {
    &&& 0 <= i < t.events.len()
    &&& if signal {
        t.events[i] is SignalDelivery
    } else {
        t.events[i] is SyscallExit
    }
    &&& !crate::signal_laws::event_can_be_replayed(t, i)
    &&& forall|j: int|
        #![trigger t.events[j]]
        0 <= j < i && (if signal {
            t.events[j] is SignalDelivery
        } else {
            t.events[j] is SyscallExit
        }) ==> crate::signal_laws::event_can_be_replayed(t, j)
}

pub open spec fn unfit_signal(t: Trace, i: int) -> Saying {
    let e = t.events[i];
    let signal = e->SignalDelivery_signal_number as int;
    let code = e->SignalDelivery_si_code as int;
    let head = crate::saying_laws::line("trace event "@).number(e.id() as int).words(": "@);
    if crate::signal_laws::out_of_reach(signal) {
        head.words("signal "@).number(signal).words(
            " is unsupported in M6 deterministic replay"@,
        )
    } else if !crate::signal_laws::from_a_process(code) {
        head.and(
            crate::saying_laws::line("signal "@).number(signal).words(
                " with unsupported si_code "@,
            ).number(code).words(
                " is outside M6 supported deterministic class (only SI_USER and SI_TKILL are supported)"@,
            ),
        )
    } else {
        head.words("SignalDelivery interposed inside substituted "@).words(
            if crate::signal_laws::call_in_progress(t.events, i) == Some(39u64) {
                "SYS_getpid"@
            } else {
                "SYS_read"@
            },
        ).words(" pair"@)
    }
}

pub open spec fn unfit_result(t: Trace, i: int) -> Saying {
    let e = t.events[i];
    if e->SyscallExit_number == 39 {
        crate::saying_laws::line(
            "M4 replay trace contains invalid recorded getpid result "@,
        ).number(e->SyscallExit_result as int)
    } else {
        crate::saying_laws::line(
            "V1 trace cannot replay SYS_read memory output; record again with Trace Format V2"@,
        )
    }
}

proof fn lemma_unfit_signal(t: Trace, i: int)
    requires
        0 <= i <= t.events.len(),
        forall|j: int|
            #![trigger t.events[j]]
            0 <= j < i && t.events[j] is SignalDelivery
                ==> crate::signal_laws::event_can_be_replayed(t, j),
    ensures
        match crate::replay::signal_complaint(
            t.events,
            i,
            crate::signal_laws::call_in_progress(t.events, i),
        ) {
            Some(text) => exists|k: int| #[trigger]
                first_unfit(t, k, true) && crate::saying_laws::says(text, unfit_signal(t, k)),
            None => forall|k: int| !#[trigger] first_unfit(t, k, true),
        },
    decreases t.events.len() - i,
{
    broadcast use {crate::saying_laws::group_says, crate::saying_laws::lemma_says_and};

    if i < t.events.len() {
        assert(crate::signal_laws::call_in_progress(t.events, i + 1) == match t.events[i] {
            Event::SyscallEnter { number, .. } => Some(number),
            Event::SyscallExit { .. } => None,
            _ => crate::signal_laws::call_in_progress(t.events, i),
        });
        if t.events[i] is SignalDelivery && !crate::signal_laws::event_can_be_replayed(t, i) {
            let text = crate::replay::signal_complaint(
                t.events,
                i,
                crate::signal_laws::call_in_progress(t.events, i),
            )->0;
            assert(first_unfit(t, i, true));
            assert(crate::saying_laws::says(text, unfit_signal(t, i)));
        } else {
            lemma_unfit_signal(t, i + 1);
        }
    } else {
        assert forall|k: int| !#[trigger] first_unfit(t, k, true) by {
            if first_unfit(t, k, true) {
                assert(t.events[k] is SignalDelivery);
            }
        }
    }
}

proof fn lemma_unfit_result(t: Trace, i: int)
    requires
        0 <= i <= t.events.len(),
        forall|j: int|
            #![trigger t.events[j]]
            0 <= j < i && t.events[j] is SyscallExit
                ==> crate::signal_laws::event_can_be_replayed(t, j),
    ensures
        match crate::replay::result_complaint(t.version, t.events, i) {
            Some(text) => exists|k: int| #[trigger]
                first_unfit(t, k, false) && crate::saying_laws::says(text, unfit_result(t, k)),
            None => forall|k: int| !#[trigger] first_unfit(t, k, false),
        },
    decreases t.events.len() - i,
{
    broadcast use crate::saying_laws::group_says;

    if i < t.events.len() {
        if t.events[i] is SyscallExit && !crate::signal_laws::event_can_be_replayed(t, i) {
            let text = crate::replay::result_complaint(t.version, t.events, i)->0;
            assert(first_unfit(t, i, false));
            assert(crate::saying_laws::says(text, unfit_result(t, i)));
        } else {
            lemma_unfit_result(t, i + 1);
        }
    } else {
        assert forall|k: int| !#[trigger] first_unfit(t, k, false) by {
            if first_unfit(t, k, false) {
                assert(t.events[k] is SyscallExit);
            }
        }
    }
}

/// A trace that is not replayed is told the first thing that keeps it from it.
pub proof fn law_refused_trace_is_explained(t: Trace)
    requires
        crate::replay::preflight_complaint(t) is Some,
    ensures
        preflight_told(t, crate::replay::preflight_complaint(t)->0),
{
    lemma_unfit_signal(t, 0);
    lemma_unfit_result(t, 0);
}

/// What is said of a status at which a launch fails.
pub proof fn law_odd_launch_is_explained(pid: i32, status: i32)
    ensures
        crate::saying_laws::says(
            crate::tracer::odd_startup(pid, status),
            crate::saying_laws::line("unexpected initial stop state for pid "@).number(
                pid as int,
            ).words(" in state AwaitingStartupStop: raw status=0x"@).hex(
                crate::layout_laws::pattern32(status),
                1,
            ).words(", WIFSTOPPED="@).words(
                crate::refusal_laws::truth_words(status & 0xff == 0x7f),
            ).words(", WSTOPSIG="@).number(((status >> 8) & 0xff) as int).words(
                ", WIFEXITED="@,
            ).words(crate::refusal_laws::truth_words(status & 0x7f == 0)).words(
                ", WIFSIGNALED="@,
            ).words(
                crate::refusal_laws::truth_words(status & 0x7f != 0 && status & 0x7f != 0x7f),
            ),
        ),
        crate::saying_laws::says(
            crate::tracer::odd_exec(pid, status),
            crate::saying_laws::line("failed to observe PTRACE_EVENT_EXEC for pid "@).number(
                pid as int,
            ).words(" in state AwaitingExec: raw status=0x"@).hex(
                crate::layout_laws::pattern32(status),
                1,
            ).words(", WIFSTOPPED="@).words(
                crate::refusal_laws::truth_words(status & 0xff == 0x7f),
            ).words(", WSTOPSIG="@).number(((status >> 8) & 0xff) as int).words(
                ", event="@,
            ).number((status >> 16) as int),
        ),
{
    broadcast use crate::saying_laws::group_says;

    assert(0 <= status & 0x7f <= 0x7f) by (bit_vector);
}

} // verus!
