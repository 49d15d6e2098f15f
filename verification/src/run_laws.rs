//! What holds of whole recordings and replays, from the launch of the process to its end.
use vstd::prelude::*;
use crate::recorder::Recording;
use crate::replay::Replaying;
use crate::trace::{Event, TRACE_VERSION_4, Trace};
use crate::writer::Progress;

verus! {

/// What a recording has come to after a number of reports: its state, the events it wrote, and
/// their bytes.
#[verifier::ext_equal]
pub struct Recorded {
    pub state: Recording,
    pub events: Seq<Event>,
    pub output: Seq<u8>,
}

/// A recording that takes the reports in turn, or what ends it.
pub open spec fn recording(start: Recording, reports: Seq<crate::recorder::Report>) -> Result<
    Recorded,
    Seq<char>,
>
    decreases reports.len(),
{
    if reports.len() == 0 {
        Ok(Recorded { state: start, events: Seq::empty(), output: Seq::empty() })
    } else {
        match recording(start, reports.drop_last()) {
            Err(text) => Err(text),
            Ok(run) => match crate::recorder::record_step(run.state, reports.last()) {
                Err(text) => Err(text),
                Ok(step) => Ok(
                    Recorded {
                        state: step.next,
                        events: run.events + step.events,
                        output: run.output + step.output(),
                    },
                ),
            },
        }
    }
}

/// The kernel keeps to its rules in every report.
pub open spec fn kernel_like_throughout(
    start: Recording,
    reports: Seq<crate::recorder::Report>,
) -> bool
    decreases reports.len(),
{
    reports.len() > 0 ==> {
        &&& kernel_like_throughout(start, reports.drop_last())
        &&& match recording(start, reports.drop_last()) {
            Err(_) => true,
            Ok(run) => {
                &&& crate::recorder_laws::kernel_like(run.state, reports.last())
                &&& crate::record_replay_laws::pids_in_range(run.state, reports.last())
            },
        }
    }
}

/// The state of a recorder that was just made for a format-4 trace.
pub open spec fn recording_start(pid: i32) -> Recording {
    Recording {
        pid,
        progress: Some(Progress { version: TRACE_VERSION_4, event_count: 0, finished: false }),
        started: false,
        pending: None,
        interrupted: None,
        model: None,
        injected: None,
        phase: crate::recorder::Phase::Running,
    }
}

/// The bytes of a recording so far.
pub open spec fn bytes_so_far(run: Recorded) -> Seq<u8> {
    if run.state.phase == crate::recorder::Phase::Ended {
        crate::wire::trace_bytes(TRACE_VERSION_4, run.events)
    } else {
        crate::wire::header(TRACE_VERSION_4) + crate::wire::records(run.events)
    }
}

/// What holds of a recording at every point.
pub proof fn lemma_recording(pid: i32, reports: Seq<crate::recorder::Report>)
    requires
        pid > 0,
        kernel_like_throughout(recording_start(pid), reports),
        recording(recording_start(pid), reports) is Ok,
    ensures
        ({
            let run = recording(recording_start(pid), reports)->Ok_0;
            &&& crate::recorder_laws::recorded(run.state, run.events)
            &&& crate::record_replay_laws::replayable_so_far(run.state, run.events)
            &&& crate::wire::header(TRACE_VERSION_4) + run.output == bytes_so_far(run)
        }),
    decreases reports.len(),
{
    let start = recording_start(pid);
    let header = crate::wire::header(TRACE_VERSION_4);
    if reports.len() == 0 {
        crate::recorder_laws::law_recording_begins_sound(start);
        crate::record_replay_laws::law_recording_begins_replayable(start);
        let run = recording(start, reports)->Ok_0;
        assert(run.events =~= Seq::<Event>::empty());
        assert(crate::wire::records(run.events) =~= Seq::<u8>::empty());
        assert(header + run.output =~= header + crate::wire::records(run.events));
    } else {
        lemma_recording(pid, reports.drop_last());
        let run = recording(start, reports.drop_last())->Ok_0;
        let report = reports.last();
        let step = crate::recorder::record_step(run.state, report)->Ok_0;
        crate::recorder_laws::law_recording_stays_sound(run.state, run.events, report);
        crate::record_replay_laws::law_recording_stays_replayable(run.state, run.events, report);
        crate::recorder_laws::law_recording_output_adds_up(run.state, run.events, report);
        assert(header + (run.output + step.output()) =~= header + run.output + step.output());
    }
}

/// A recording that came to its end reads back: its bytes, behind the header, hold exactly the
/// events it wrote. If a substituted syscall returned or a signal was delivered in it, it also
/// passes the checks before a replay. This holds whatever the process does, as long as the
/// kernel keeps to its rules.
pub proof fn law_complete_recording_reads_back(
    pid: i32,
    reports: Seq<crate::recorder::Report>,
)
    requires
        pid > 0,
        kernel_like_throughout(recording_start(pid), reports),
        recording(recording_start(pid), reports) is Ok,
        recording(recording_start(pid), reports)->Ok_0.state.phase
            == crate::recorder::Phase::Ended,
    ensures
        ({
            let run = recording(recording_start(pid), reports)->Ok_0;
            let t = Trace { version: TRACE_VERSION_4, events: run.events };
            &&& crate::parser::parsed(crate::wire::header(TRACE_VERSION_4) + run.output) == Ok::<
                Trace,
                Seq<char>,
            >(t)
            &&& (exists|k: int|
                0 <= k < run.events.len() && crate::replay::replayable(#[trigger] run.events[k]))
                ==> crate::replay::preflight_complaint(t) is None
        }),
{
    lemma_recording(pid, reports);
    let run = recording(recording_start(pid), reports)->Ok_0;
    crate::recorder_laws::law_finished_recording_reads_back(run.state, run.events);
    if exists|k: int|
        0 <= k < run.events.len() && crate::replay::replayable(#[trigger] run.events[k]) {
        let k = choose|k: int|
            0 <= k < run.events.len() && crate::replay::replayable(#[trigger] run.events[k]);
        crate::record_replay_laws::law_finished_recording_can_be_replayed(
            run.state,
            run.events,
            k,
        );
    }
}

/// A replay that takes the reports in turn, or what ends it.
pub open spec fn replaying(start: Replaying, reports: Seq<crate::replay::Report>) -> Result<
    Replaying,
    Seq<char>,
>
    decreases reports.len(),
{
    if reports.len() == 0 {
        Ok(start)
    } else {
        match replaying(start, reports.drop_last()) {
            Err(text) => Err(text),
            Ok(s) => match crate::replay::replay_step(s, reports.last()) {
                Err(text) => Err(text),
                Ok(step) => Ok(step.next),
            },
        }
    }
}

/// Every report is one that is waited for, and tells of what the trace holds next.
pub open spec fn as_recorded_throughout(
    start: Replaying,
    reports: Seq<crate::replay::Report>,
) -> bool
    decreases reports.len(),
{
    reports.len() > 0 ==> {
        &&& as_recorded_throughout(start, reports.drop_last())
        &&& match replaying(start, reports.drop_last()) {
            Err(_) => true,
            Ok(s) => crate::replay::expected(s.phase, reports.last())
                && crate::replay_laws::as_recorded(s, reports.last()),
        }
    }
}

/// The state of a replay that was just made.
pub open spec fn replay_start(pid: i32, t: Trace) -> Replaying {
    Replaying {
        pid,
        version: t.version,
        events: t.events,
        cursor: 0,
        pending: None,
        performed: 0,
        delivered: None,
        phase: crate::replay::Phase::Launched,
    }
}

/// A process that does, from beginning to end, what the trace holds is never taken to diverge.
/// The trace is one that was read and passed the checks before launch.
pub proof fn law_faithful_replay_never_diverges(
    pid: i32,
    t: Trace,
    reports: Seq<crate::replay::Report>,
)
    requires
        crate::trace_laws::well_formed(t),
        t.events.len() <= usize::MAX,
        crate::replay::preflight_complaint(t) is None,
        as_recorded_throughout(replay_start(pid, t), reports),
    ensures
        replaying(replay_start(pid, t), reports) is Ok,
        crate::replay_laws::in_step(replaying(replay_start(pid, t), reports)->Ok_0),
    decreases reports.len(),
{
    let start = replay_start(pid, t);
    if reports.len() == 0 {
        assert(Trace { version: start.version, events: start.events } == t);
        crate::replay_laws::law_replay_begins_in_step(start);
    } else {
        law_faithful_replay_never_diverges(pid, t, reports.drop_last());
        let s = replaying(start, reports.drop_last())->Ok_0;
        crate::replay_laws::law_faithful_process_is_accepted(s, reports.last());
    }
}

} // verus!
