//! Traces as text, one line to an event.
use vstd::prelude::*;
use vstd::string::*;
use crate::parser::parse_trace_bytes;
use crate::text::Line;
use crate::trace::{Event, ParsedTrace, TraceEvent};

verus! {

/// The bytes in hexadecimal, two digits each.
pub open spec fn hex_bytes(s: Seq<u8>) -> Seq<char>
    decreases s.len(),
{
    if s.len() == 0 {
        Seq::empty()
    } else {
        hex_bytes(s.drop_last()) + crate::text::zero_padded(crate::text::hex(s.last() as int), 2)
    }
}

/// All of the bytes if they are few, else the first of them.
pub open spec fn hex_preview(s: Seq<u8>) -> Seq<char> {
    if s.len() <= 32 {
        hex_bytes(s)
    } else {
        hex_bytes(s.take(16)) + "..."@
    }
}

/// An event id, padded to six digits.
pub open spec fn padded_id(id: u64) -> Seq<char> {
    crate::text::zero_padded(crate::text::dec(id as int), 6)
}

/// The line of a map delta, with `region_line` for the region.
pub open spec fn delta_text(
    event_id: u64,
    name: Seq<char>,
    tid: u32,
    source_event_id: u64,
    region_line: Seq<char>,
) -> Seq<char> {
    padded_id(event_id) + name + crate::text::dec(tid as int) + " source="@ + padded_id(
        source_event_id,
    ) + " "@ + region_line
}

/// The line of an event.
pub open spec fn event_text(e: Event) -> Seq<char> {
    match e {
        Event::SyscallEnter { event_id, tid, number, args } => padded_id(event_id)
            + " syscall-enter tid="@ + crate::text::dec(tid as int) + " nr="@ + crate::text::dec(
            number as int,
        ) + " args=["@ + crate::text::dec(args[0] as int) + ", "@ + crate::text::dec(
            args[1] as int,
        ) + ", "@ + crate::text::dec(args[2] as int) + ", "@ + crate::text::dec(args[3] as int)
            + ", "@ + crate::text::dec(args[4] as int) + ", "@ + crate::text::dec(args[5] as int)
            + "]"@,
        Event::SyscallExit { event_id, tid, number, result } => padded_id(event_id)
            + " syscall-exit  tid="@ + crate::text::dec(tid as int) + " nr="@ + crate::text::dec(
            number as int,
        ) + " result="@ + crate::text::dec(result as int),
        Event::KernelMemoryWrite { event_id, tid, source_event_id, recorded_address, data } =>
            padded_id(event_id) + " kernel-memory-write tid="@ + crate::text::dec(tid as int)
            + " source="@ + padded_id(source_event_id) + " addr=0x"@ + crate::text::hex(
            recorded_address as int,
        ) + " len="@ + crate::text::dec(data.len() as int) + " data_hex="@ + hex_preview(data),
        Event::MemoryMapSnapshot { event_id, tid, regions } => padded_id(event_id)
            + " memory-map-snapshot tid="@ + crate::text::dec(tid as int) + " regions="@
            + crate::text::dec(regions.len() as int),
        Event::MemoryMapAdd { event_id, tid, source_event_id, region } => delta_text(
            event_id,
            " memory-map-add    tid="@,
            tid,
            source_event_id,
            region.line(crate::maps::lossy_text(region.label)),
        ),
        Event::MemoryMapRemove { event_id, tid, source_event_id, region } => delta_text(
            event_id,
            " memory-map-remove tid="@,
            tid,
            source_event_id,
            region.line(crate::maps::lossy_text(region.label)),
        ),
        Event::SignalDelivery { event_id, tid, signal_number, si_errno, si_code, siginfo_bytes } =>
            padded_id(event_id) + " signal-delivery tid="@ + crate::text::dec(tid as int)
            + " sig="@ + crate::text::dec(signal_number as int) + " code="@ + crate::text::dec(
            si_code as int,
        ) + " errno="@ + crate::text::dec(si_errno as int) + " siginfo_len="@ + crate::text::dec(
            siginfo_bytes.len() as int,
        ),
    }
}

fn id_line(event_id: u64) -> (line: Line)
    ensures
        line@ == padded_id(event_id),
{
    let line = Line::new("").dec_padded(event_id, 6);
    proof {
        reveal_strlit("");
        assert(""@ + padded_id(event_id) =~= padded_id(event_id));
    }
    line
}

/// Appends the bytes in hexadecimal.
fn append_hex(line: Line, data: &[u8], count: usize) -> (out: Line)
    requires
        count <= data@.len(),
    ensures
        out@ == line@ + hex_bytes(data@.take(count as int)),
{
    let ghost start = line@;
    let mut out = line;
    let mut i: usize = 0;
    proof {
        assert(data@.take(0) =~= Seq::<u8>::empty());
        assert(out@ =~= start + hex_bytes(data@.take(0)));
    }
    while i < count
        invariant
            i <= count <= data@.len(),
            out@ == start + hex_bytes(data@.take(i as int)),
        decreases count - i,
    {
        let ghost before = hex_bytes(data@.take(i as int));
        out = out.hex_padded(data[i] as u64, 2);
        proof {
            let item = crate::text::zero_padded(crate::text::hex(data@[i as int] as int), 2);
            assert(data@.take(i + 1).drop_last() =~= data@.take(i as int));
            assert(start + before + item =~= start + (before + item));
        }
        i += 1;
    }
    out
}

/// The line of a map delta called `name`, with `region_line` for the region.
pub fn delta_line(event_id: u64, name: &str, tid: u32, source_event_id: u64, region_line: &str) -> (s:
    String)
    ensures
        s@ == delta_text(event_id, name@, tid, source_event_id, region_line@),
{
    id_line(event_id).lit(name).dec(tid as u64).lit(" source=").dec_padded(
        source_event_id,
        6,
    ).lit(" ").lit(region_line).done()
}

/// The line of an event.
pub fn dump_line(event: &TraceEvent) -> (s: String)
    ensures
        s@ == event_text(event@),
{
    match event {
        TraceEvent::SyscallEnter { event_id, tid, number, args } => id_line(*event_id).lit(
            " syscall-enter tid=",
        ).dec(*tid as u64).lit(" nr=").dec(*number).lit(" args=[").dec(args[0]).lit(", ").dec(
            args[1],
        ).lit(", ").dec(args[2]).lit(", ").dec(args[3]).lit(", ").dec(args[4]).lit(", ").dec(
            args[5],
        ).lit("]").done(),
        TraceEvent::SyscallExit { event_id, tid, number, result } => id_line(*event_id).lit(
            " syscall-exit  tid=",
        ).dec(*tid as u64).lit(" nr=").dec(*number).lit(" result=").signed(*result).done(),
        TraceEvent::KernelMemoryWrite {
            event_id,
            tid,
            source_event_id,
            recorded_address,
            data,
        } => {
            let line = id_line(*event_id).lit(" kernel-memory-write tid=").dec(*tid as u64).lit(
                " source=",
            ).dec_padded(*source_event_id, 6).lit(" addr=0x").hex(*recorded_address).lit(
                " len=",
            ).dec(data.len() as u64).lit(" data_hex=");
            let ghost start = line@;
            if data.len() <= 32 {
                proof {
                    assert(data@.take(data@.len() as int) =~= data@);
                }
                append_hex(line, data.as_slice(), data.len()).done()
            } else {
                let line = append_hex(line, data.as_slice(), 16).lit("...");
                proof {
                    let first = hex_bytes(data@.take(16));
                    assert(start + first + "..."@ =~= start + (first + "..."@));
                }
                line.done()
            }
        },
        TraceEvent::MemoryMapSnapshot { event_id, tid, regions } => id_line(*event_id).lit(
            " memory-map-snapshot tid=",
        ).dec(*tid as u64).lit(" regions=").dec(regions.len() as u64).done(),
        TraceEvent::MemoryMapAdd { event_id, tid, source_event_id, region } => delta_line(
            *event_id,
            " memory-map-add    tid=",
            *tid,
            *source_event_id,
            region.format_maps_line().as_str(),
        ),
        TraceEvent::MemoryMapRemove { event_id, tid, source_event_id, region } => delta_line(
            *event_id,
            " memory-map-remove tid=",
            *tid,
            *source_event_id,
            region.format_maps_line().as_str(),
        ),
        TraceEvent::SignalDelivery {
            event_id,
            tid,
            signal_number,
            si_errno,
            si_code,
            siginfo_bytes,
        } => id_line(*event_id).lit(" signal-delivery tid=").dec(*tid as u64).lit(" sig=").signed(
            *signal_number as i64,
        ).lit(" code=").signed(*si_code as i64).lit(" errno=").signed(*si_errno as i64).lit(
            " siginfo_len=",
        ).dec(siginfo_bytes.len() as u64).done(),
    }
}

/// The lines of a trace in its byte format.
pub fn dump_trace_bytes(bytes: &[u8]) -> (r: Result<Vec<String>, String>)
    ensures
        match crate::parser::parsed(bytes@) {
            Err(text) => r is Err && r->Err_0@ == text,
            Ok(trace) => {
                &&& r is Ok
                &&& r->Ok_0@.len() == trace.events.len()
                &&& forall|i: int|
                    0 <= i < trace.events.len() ==> (#[trigger] r->Ok_0@[i])@ == event_text(
                        trace.events[i],
                    )
            },
        },
{
    let trace: ParsedTrace = match parse_trace_bytes(bytes) {
        Err(text) => {
            return Err(text);
        },
        Ok(trace) => trace,
    };
    let mut lines: Vec<String> = Vec::new();
    let mut i: usize = 0;
    while i < trace.events.len()
        invariant
            i <= trace.events@.len(),
            lines@.len() == i,
            forall|k: int| 0 <= k < i ==> (#[trigger] lines@[k])@ == event_text(trace@.events[k]),
        decreases trace.events.len() - i,
    {
        assert(trace@.events[i as int] == trace.events@[i as int]@);
        lines.push(dump_line(&trace.events[i]));
        i += 1;
    }
    Ok(lines)
}

} // verus!
