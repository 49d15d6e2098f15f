//! What holds of every sequence of calls that a writer gets.
use vstd::prelude::*;
use crate::maps::Region;
use crate::trace::{Event, TRACE_VERSION_3, Trace};
use crate::writer::Progress;

verus! {

/// Where a writer stands: how far it is, and all that its output holds.
#[verifier::ext_equal]
pub struct Standing {
    pub progress: Progress,
    pub output: Seq<u8>,
}

/// A call that a writer got: to write an event under the next number, with what was returned,
/// or to end the trace.
pub enum Call {
    Write { event: Event, result: Result<u64, String> },
    Finish,
}

/// The call leads from one standing to the other, as the writer's functions promise.
pub open spec fn call_outcome(before: Standing, call: Call, after: Standing) -> bool {
    match call {
        Call::Write { event, result } => {
            &&& before.progress.event_count < u64::MAX - 1
            &&& event.id() == before.progress.event_count + 1
            &&& crate::writer::write_outcome(
                before.progress,
                before.output,
                event,
                after.progress,
                after.output,
                result,
            )
        },
        Call::Finish => crate::writer::finish_outcome(
            before.progress,
            before.output,
            after.progress,
            after.output,
        ),
    }
}

/// A writer began a trace behind the bytes of `start`, got the calls one after the other, and
/// stood at `at[i]` once it had got the first `i` of them.
pub open spec fn session(version: u32, start: Seq<u8>, calls: Seq<Call>, at: Seq<Standing>) -> bool {
    &&& at.len() == calls.len() + 1
    &&& at[0] == (Standing {
        progress: Progress { version, event_count: 0, finished: false },
        output: start + crate::wire::header(version),
    })
    &&& forall|i: int|
        0 <= i < calls.len() ==> call_outcome(at[i], #[trigger] calls[i], at[i + 1])
}

/// The events of the calls that returned a number.
pub open spec fn accepted(calls: Seq<Call>) -> Seq<Event>
    decreases calls.len(),
{
    if calls.len() == 0 {
        Seq::empty()
    } else {
        match calls.last() {
            Call::Write { event, result: Ok(_) } => accepted(calls.drop_last()).push(event),
            _ => accepted(calls.drop_last()),
        }
    }
}

/// One of the calls ends the trace.
pub open spec fn ended(calls: Seq<Call>) -> bool {
    exists|i: int| 0 <= i < calls.len() && #[trigger] calls[i] is Finish
}

/// The id of an event stands in bytes 8 to 15 of its record, lowest byte first.
pub proof fn law_record_holds_its_id(e: Event)
    ensures
        crate::wire::record(e).len() >= 20,
        crate::wire::record(e).subrange(8, 16) == crate::bytes::le_bytes(e.id() as nat, 8),
{
    crate::wire::lemma_event_header_len(e);
    crate::bytes::lemma_le_bytes_len(crate::wire::body(e).len(), 4);
    crate::bytes::lemma_le_bytes_len(e.id() as nat, 8);
    assert(crate::wire::record(e).subrange(8, 16) =~= crate::bytes::le_bytes(e.id() as nat, 8));
}

/// The first calls of a session are a session.
proof fn lemma_session_take(
    version: u32,
    start: Seq<u8>,
    calls: Seq<Call>,
    at: Seq<Standing>,
    n: int,
)
    requires
        session(version, start, calls, at),
        0 <= n <= calls.len(),
    ensures
        session(version, start, calls.take(n), at.take(n + 1)),
{
    let c = calls.take(n);
    let a = at.take(n + 1);
    assert forall|i: int| 0 <= i < c.len() implies call_outcome(a[i], #[trigger] c[i], a[i + 1]) by {
        assert(call_outcome(at[i], calls[i], at[i + 1]));
    }
}

/// After any calls a writer has counted the calls that returned a number, their events have
/// the numbers 1, 2, 3 and so on without a gap, and the output is the trace of these events,
/// with its footer once the writer was told to finish.
pub proof fn law_writer_numbers_without_gaps(
    version: u32,
    start: Seq<u8>,
    calls: Seq<Call>,
    at: Seq<Standing>,
)
    requires
        session(version, start, calls, at),
    ensures
        at.last().progress == (Progress {
            version,
            event_count: accepted(calls).len() as u64,
            finished: ended(calls),
        }),
        accepted(calls).len() <= u64::MAX - 1,
        forall|i: int| 0 <= i < accepted(calls).len() ==> (#[trigger] accepted(calls)[i]).id() == i + 1,
        at.last().output == if ended(calls) {
            start + crate::wire::trace_bytes(version, accepted(calls))
        } else {
            start + crate::wire::header(version) + crate::wire::records(accepted(calls))
        },
    decreases calls.len(),
{
    let head = start + crate::wire::header(version);
    if calls.len() == 0 {
        assert(head + crate::wire::records(accepted(calls)) =~= head);
    } else {
        let n = calls.len() - 1;
        let d = calls.drop_last();
        let es = accepted(d);
        assert(calls.take(n) =~= d);
        lemma_session_take(version, start, calls, at, n);
        law_writer_numbers_without_gaps(version, start, d, at.take(n + 1));
        assert(at.take(n + 1).last() == at[n]);
        assert(call_outcome(at[n], calls[n], at[n + 1]));
        lemma_ended(calls);
        match calls.last() {
            Call::Write { event, result } => {
                if result is Ok {
                    assert(es.push(event).drop_last() =~= es);
                    assert(head + crate::wire::records(es) + crate::wire::record(event) =~= head
                        + crate::wire::records(es.push(event)));
                }
            },
            Call::Finish => {
                if !ended(d) {
                    assert(head + crate::wire::records(es) + crate::wire::footer(es.len())
                        =~= start + crate::wire::trace_bytes(version, es));
                }
            },
        }
    }
}

/// Whether the trace is ended by all calls, seen from all but the last.
proof fn lemma_ended(calls: Seq<Call>)
    requires
        calls.len() > 0,
    ensures
        ended(calls) <==> ended(calls.drop_last()) || calls.last() is Finish,
{
    let d = calls.drop_last();
    if ended(d) {
        let i = choose|i: int| 0 <= i < d.len() && #[trigger] d[i] is Finish;
        assert(calls[i] is Finish);
    }
    if ended(calls) {
        let i = choose|i: int| 0 <= i < calls.len() && #[trigger] calls[i] is Finish;
        if i < d.len() {
            assert(d[i] is Finish);
        }
    }
    if calls.last() is Finish {
        assert(calls[calls.len() - 1] is Finish);
    }
}

/// A call to write that comes after any other calls is given the number behind those given out
/// before, and its record, which holds that number, is appended; or it is refused, takes no
/// number and writes nothing. The entry and the exit of a syscall are refused only once the
/// trace was ended.
pub proof fn law_write_takes_the_next_id(
    version: u32,
    start: Seq<u8>,
    calls: Seq<Call>,
    at: Seq<Standing>,
    event: Event,
    result: Result<u64, String>,
    after: Standing,
)
    requires
        session(version, start, calls, at),
        call_outcome(at.last(), Call::Write { event, result }, after),
    ensures
        match result {
            Ok(id) => {
                &&& id == accepted(calls).len() + 1
                &&& after.progress == (Progress { event_count: id, ..at.last().progress })
                &&& after.output == at.last().output + crate::wire::record(event)
                &&& crate::wire::record(event).subrange(8, 16) == crate::bytes::le_bytes(
                    id as nat,
                    8,
                )
            },
            Err(_) => after == at.last(),
        },
        event is SyscallEnter || event is SyscallExit ==> (result is Ok <==> !ended(calls)),
{
    law_writer_numbers_without_gaps(version, start, calls, at);
    law_record_holds_its_id(event);
}

/// Every event that was given a number fits its record.
proof fn lemma_accepted_events_fit(
    version: u32,
    start: Seq<u8>,
    calls: Seq<Call>,
    at: Seq<Standing>,
)
    requires
        session(version, start, calls, at),
    ensures
        forall|i: int|
            0 <= i < accepted(calls).len() ==> crate::wire::body(
                #[trigger] accepted(calls)[i],
            ).len() <= u32::MAX,
    decreases calls.len(),
{
    if calls.len() > 0 {
        let n = calls.len() - 1;
        assert(calls.take(n) =~= calls.drop_last());
        lemma_session_take(version, start, calls, at, n);
        lemma_accepted_events_fit(version, start, calls.drop_last(), at.take(n + 1));
        assert(call_outcome(at[n], calls[n], at[n + 1]));
        let es = accepted(calls.drop_last());
        match calls.last() {
            Call::Write { event, result: Ok(_) } => {
                crate::trace_laws::law_accepted_event_fits_its_record(at[n].progress, event);
                assert forall|i: int| 0 <= i < accepted(calls).len() implies crate::wire::body(
                    #[trigger] accepted(calls)[i],
                ).len() <= u32::MAX by {
                    if i < es.len() {
                        assert(accepted(calls)[i] == es[i]);
                    }
                }
            },
            _ => {
                assert(accepted(calls) == es);
            },
        }
    }
}

/// The output of a writer cannot be read before it was told to finish, whatever it was told to
/// write. From then on it reads back as the events that were given a number, if they make a
/// well-formed trace.
pub proof fn law_only_finished_output_is_readable(
    version: u32,
    calls: Seq<Call>,
    at: Seq<Standing>,
)
    requires
        session(version, Seq::empty(), calls, at),
    ensures
        !ended(calls) ==> crate::parser::parsed(at.last().output) is Err,
        ended(calls) && crate::trace_laws::well_formed(
            Trace { version, events: accepted(calls) },
        ) ==> crate::parser::parsed(at.last().output) == Ok::<Trace, Seq<char>>(
            Trace { version, events: accepted(calls) },
        ),
{
    let empty = Seq::<u8>::empty();
    let es = accepted(calls);
    law_writer_numbers_without_gaps(version, empty, calls, at);
    lemma_accepted_events_fit(version, empty, calls, at);
    if ended(calls) {
        assert(empty + crate::wire::trace_bytes(version, es) =~= crate::wire::trace_bytes(
            version,
            es,
        ));
        if crate::trace_laws::well_formed(Trace { version, events: es }) {
            crate::trace_laws::law_written_trace_reads_back(Trace { version, events: es });
        }
    } else {
        crate::trace_laws::law_trace_without_footer_is_refused(version, es);
        assert(empty + crate::wire::header(version) + crate::wire::records(es)
            =~= crate::wire::header(version) + crate::wire::records(es));
    }
}

/// The first call to finish appends the number of events written and the closing mark. From
/// then on nothing is appended: each further call to finish changes nothing, and each further
/// call to write is refused.
pub proof fn law_finish_closes_the_trace(
    version: u32,
    start: Seq<u8>,
    calls: Seq<Call>,
    at: Seq<Standing>,
    k: int,
    j: int,
)
    requires
        session(version, start, calls, at),
        0 <= k < j <= calls.len(),
        calls[k] is Finish,
        !ended(calls.take(k)),
    ensures
        at[k + 1].output == at[k].output + (crate::bytes::le_bytes(accepted(calls.take(k)).len(), 8)
            + crate::trace::TRACE_FOOTER_MAGIC@),
        at[j] == at[k + 1],
        j < calls.len() ==> at[j + 1] == at[k + 1],
        j < calls.len() && calls[j] is Write ==> calls[j]->result is Err,
    decreases j,
{
    lemma_session_take(version, start, calls, at, k);
    law_writer_numbers_without_gaps(version, start, calls.take(k), at.take(k + 1));
    assert(at.take(k + 1).last() == at[k]);
    assert(call_outcome(at[k], calls[k], at[k + 1]));
    if j > k + 1 {
        law_finish_closes_the_trace(version, start, calls, at, k, j - 1);
    }
    if j < calls.len() {
        assert(call_outcome(at[j], calls[j], at[j + 1]));
    }
}

/// A delta's record is as long as its parts, and the kind is its fifth byte.
proof fn lemma_delta_record(e: Event)
    requires
        e is MemoryMapAdd || e is MemoryMapRemove,
    ensures
        crate::wire::record(e).len() == 76 + (match e {
            Event::MemoryMapAdd { region, .. } => region.label.len(),
            Event::MemoryMapRemove { region, .. } => region.label.len(),
            _ => 0,
        }),
        crate::wire::record(e) == crate::bytes::le_bytes(crate::wire::body(e).len(), 4) + seq![
            crate::wire::kind(e),
        ] + crate::wire::body(e).skip(1),
        crate::bytes::le_bytes(crate::wire::body(e).len(), 4).len() == 4,
{
    crate::wire::lemma_body_len(e);
    crate::bytes::lemma_le_bytes_len(crate::wire::body(e).len(), 4);
    assert(crate::wire::body(e)[0] == crate::wire::kind(e));
    assert(seq![crate::wire::kind(e)] + crate::wire::body(e).skip(1) =~= crate::wire::body(e));
    assert(crate::bytes::le_bytes(crate::wire::body(e).len(), 4) + seq![crate::wire::kind(e)]
        + crate::wire::body(e).skip(1) =~= crate::wire::record(e));
}

/// Writing that a region appeared and writing that it went away differ in one byte: the kind,
/// the fifth of the record, is 5 or 6. Either both are accepted or both are refused: they are
/// refused in a format that has no memory map, behind the end of the trace, and for a label
/// that leaves the length of the record no room. Refused, neither writes anything.
pub proof fn law_add_and_remove_differ_in_kind(
    before: Progress,
    out: Seq<u8>,
    tid: u32,
    source_event_id: u64,
    region: Region,
    add: Result<u64, String>,
    add_after: Standing,
    remove: Result<u64, String>,
    remove_after: Standing,
)
    requires
        before.event_count < u64::MAX - 1,
        crate::writer::write_outcome(
            before,
            out,
            Event::MemoryMapAdd {
                event_id: (before.event_count + 1) as u64,
                tid,
                source_event_id,
                region,
            },
            add_after.progress,
            add_after.output,
            add,
        ),
        crate::writer::write_outcome(
            before,
            out,
            Event::MemoryMapRemove {
                event_id: (before.event_count + 1) as u64,
                tid,
                source_event_id,
                region,
            },
            remove_after.progress,
            remove_after.output,
            remove,
        ),
    ensures
        add is Ok <==> !before.finished && before.version >= TRACE_VERSION_3 && 72
            + region.label.len() <= u32::MAX,
        remove is Ok <==> add is Ok,
        add is Ok ==> {
            &&& add->Ok_0 == before.event_count + 1
            &&& remove->Ok_0 == before.event_count + 1
            &&& add_after.progress == remove_after.progress
            &&& add_after.output.len() == out.len() + 76 + region.label.len()
            &&& add_after.output[out.len() as int + 4] == 5
            &&& remove_after.output == add_after.output.update(out.len() as int + 4, 6)
        },
        add is Err ==> add_after == (Standing { progress: before, output: out }) && remove_after
            == add_after,
{
    let event_id = (before.event_count + 1) as u64;
    let a = Event::MemoryMapAdd { event_id, tid, source_event_id, region };
    let r = Event::MemoryMapRemove { event_id, tid, source_event_id, region };
    crate::descriptor::lemma_descriptor_len(region);
    if add is Ok {
        lemma_delta_record(a);
        lemma_delta_record(r);
        assert(crate::wire::body(a).skip(1) =~= crate::wire::body(r).skip(1)) by {
            crate::wire::lemma_body_len(a);
            crate::wire::lemma_body_len(r);
            crate::wire::lemma_event_header_len(a);
            crate::wire::lemma_event_header_len(r);
            assert(crate::wire::event_header(a).skip(1) =~= crate::wire::event_header(r).skip(1));
            assert(crate::wire::body(a).skip(1) =~= crate::wire::event_header(a).skip(1)
                + crate::wire::payload(a));
            assert(crate::wire::body(r).skip(1) =~= crate::wire::event_header(r).skip(1)
                + crate::wire::payload(r));
        }
        assert(crate::wire::record(r) =~= crate::wire::record(a).update(4, 6));
        assert(remove_after.output =~= add_after.output.update(out.len() as int + 4, 6));
    }
}

/// The format has the event, and the record of the event is not too long for its length field.
pub open spec fn format_takes(version: u32, e: Event) -> bool {
    match e {
        Event::SyscallEnter { .. } => true,
        Event::SyscallExit { .. } => true,
        Event::KernelMemoryWrite { data, .. } => version >= 2 && 40 + data.len() <= u32::MAX,
        Event::MemoryMapSnapshot { regions, .. } => version >= 3 && regions.len() <= u32::MAX && 24
            + crate::wire::descriptors(regions).len() <= u32::MAX,
        Event::MemoryMapAdd { region, .. } => version >= 3 && 72 + region.label.len() <= u32::MAX,
        Event::MemoryMapRemove { region, .. } => version >= 3 && 72 + region.label.len()
            <= u32::MAX,
        Event::SignalDelivery { siginfo_bytes, .. } => version >= 4 && siginfo_bytes.len() == 128,
    }
}

/// A writer takes an event exactly when it was not told to finish, the format has such events,
/// and the event fits its record. What it takes it appends as one record, and it returns the
/// number of the event; what it refuses it does not write. Every refusal says why.
pub proof fn law_what_a_writer_takes(
    before: Progress,
    out: Seq<u8>,
    e: Event,
    after: Progress,
    out_after: Seq<u8>,
    r: Result<u64, String>,
)
    requires
        before.event_count < u64::MAX - 1,
        crate::writer::write_outcome(before, out, e, after, out_after, r),
    ensures
        r is Ok <==> !before.finished && format_takes(before.version, e),
        r is Ok ==> {
            &&& r->Ok_0 == e.id()
            &&& out_after == out + crate::wire::record(e)
            &&& after.event_count == before.event_count + 1
            &&& after.version == before.version
            &&& !after.finished
        },
        r is Err ==> out_after == out && after == before,
        r is Err && before.finished ==> r->Err_0@ == "cannot write event to finished trace writer"@,
        r is Err && !before.finished ==> match e {
            Event::KernelMemoryWrite { data, .. } => if before.version < 2 {
                r->Err_0@ == "cannot write KernelMemoryWrite in trace format V1"@
            } else if data.len() > 0xffff_ffff {
                r->Err_0@ == "data length exceeds u32::MAX"@
            } else {
                r->Err_0@ == "record length overflow in KernelMemoryWrite"@
            },
            Event::MemoryMapSnapshot { regions, .. } => if before.version < 3 {
                r->Err_0@ == "cannot write MemoryMapSnapshot in trace format V1 or V2"@
            } else if regions.len() > 0xffff_ffff {
                r->Err_0@ == "region count exceeds u32::MAX"@
            } else {
                r->Err_0@ == "record length overflow in MemoryMapSnapshot"@
            },
            Event::MemoryMapAdd { .. } => if before.version < 3 {
                r->Err_0@ == "cannot write MemoryMapAdd in trace format V1 or V2"@
            } else {
                r->Err_0@ == "record length overflow in MemoryMapAdd"@
            },
            Event::MemoryMapRemove { .. } => if before.version < 3 {
                r->Err_0@ == "cannot write MemoryMapRemove in trace format V1 or V2"@
            } else {
                r->Err_0@ == "record length overflow in MemoryMapRemove"@
            },
            Event::SignalDelivery { siginfo_bytes, .. } => if before.version < 4 {
                r->Err_0@ == "cannot write SignalDelivery in trace format V1, V2, or V3"@
            } else {
                crate::saying_laws::says(
                    r->Err_0@,
                    crate::saying_laws::line("invalid siginfo bytes length "@).number(
                        siginfo_bytes.len() as int,
                    ).words("; expected 128"@),
                )
            },
            _ => false,
        },
{
    broadcast use crate::saying_laws::group_says;

    match e {
        Event::MemoryMapAdd { region, .. } => crate::descriptor::lemma_descriptor_len(region),
        Event::MemoryMapRemove { region, .. } => crate::descriptor::lemma_descriptor_len(region),
        _ => {},
    }
}

} // verus!
