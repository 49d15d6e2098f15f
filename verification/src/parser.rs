//! Decoding of traces from their byte format.
use vstd::prelude::*;
use vstd::slice::slice_subrange;
use vstd::string::*;
use crate::bytes::{bytes_equal, copy_range, read_u32, read_u64, to_signed, to_signed32};
use crate::descriptor::decode_region_descriptor;
use crate::maps::{MemoryRegion, Region, validate_regions_canonical_order};
use crate::structure::validate_trace_structure;
use crate::text::Line;
use crate::trace::{
    ARCH_X86_64, BYTE_ORDER_LITTLE_ENDIAN, EVENT_KIND_KERNEL_MEMORY_WRITE,
    EVENT_KIND_MEMORY_MAP_ADD, EVENT_KIND_MEMORY_MAP_REMOVE, EVENT_KIND_MEMORY_MAP_SNAPSHOT,
    EVENT_KIND_SIGNAL_DELIVERY, EVENT_KIND_SYSCALL_ENTER, EVENT_KIND_SYSCALL_EXIT, Event,
    FOOTER_SIZE, HEADER_SIZE, POINTER_WIDTH_64, ParsedTrace, TRACE_FOOTER_MAGIC,
    TRACE_HEADER_MAGIC, TRACE_VERSION_1, TRACE_VERSION_2, TRACE_VERSION_3, TRACE_VERSION_4, Trace,
    TraceEvent,
};

verus! {

pub open spec fn u64_at(b: Seq<u8>, at: int) -> u64 {
    crate::bytes::le_at(b, at, 8) as u64
}

pub open spec fn u32_at(b: Seq<u8>, at: int) -> u32 {
    crate::bytes::le_at(b, at, 4) as u32
}

pub open spec fn i32_at(b: Seq<u8>, at: int) -> i32 {
    crate::bytes::signed32_of(u32_at(b, at))
}

/// The beginning of a message about an event.
pub open spec fn about(event_id: u64) -> Seq<char> {
    "trace event "@ + crate::text::dec(event_id as int)
}

pub open spec fn enter_of(event_id: u64, tid: u32, b: Seq<u8>) -> Result<Event, Seq<char>> {
    if b.len() != 72 {
        Err(
            about(event_id) + ": SyscallEnter record length "@ + crate::text::dec(b.len() as int)
                + ", expected 72"@,
        )
    } else {
        Ok(
            Event::SyscallEnter {
                event_id,
                tid,
                number: u64_at(b, 16),
                args: seq![
                    u64_at(b, 24),
                    u64_at(b, 32),
                    u64_at(b, 40),
                    u64_at(b, 48),
                    u64_at(b, 56),
                    u64_at(b, 64),
                ],
            },
        )
    }
}

pub open spec fn exit_of(event_id: u64, tid: u32, b: Seq<u8>) -> Result<Event, Seq<char>> {
    if b.len() != 32 {
        Err(
            about(event_id) + ": SyscallExit record length "@ + crate::text::dec(b.len() as int)
                + ", expected 32"@,
        )
    } else {
        Ok(
            Event::SyscallExit {
                event_id,
                tid,
                number: u64_at(b, 16),
                result: crate::bytes::signed_of(u64_at(b, 24)),
            },
        )
    }
}

pub open spec fn data_of(version: u32, event_id: u64, tid: u32, b: Seq<u8>) -> Result<
    Event,
    Seq<char>,
> {
    if version < TRACE_VERSION_2 {
        Err("KernelMemoryWrite event kind 3 is not supported in trace format V1"@)
    } else if b.len() < 40 {
        Err(
            about(event_id) + ": KernelMemoryWrite record length "@ + crate::text::dec(
                b.len() as int,
            ) + " is smaller than minimum header 40"@,
        )
    } else if u32_at(b, 36) != 0 {
        Err(
            about(event_id) + ": nonzero payload_reserved in KernelMemoryWrite: "@
                + crate::text::dec(u32_at(b, 36) as int),
        )
    } else if b.len() != 40 + u32_at(b, 32) {
        Err(
            about(event_id) + ": record length "@ + crate::text::dec(b.len() as int)
                + " does not match 40 + data_len ("@ + crate::text::dec(u32_at(b, 32) as int)
                + ")"@,
        )
    } else {
        Ok(
            Event::KernelMemoryWrite {
                event_id,
                tid,
                source_event_id: u64_at(b, 16),
                recorded_address: u64_at(b, 24),
                data: b.subrange(40, b.len() as int),
            },
        )
    }
}

/// The `count` regions whose descriptors stand at `at`, behind those in `got`, and where they
/// end.
pub open spec fn regions_of(b: Seq<u8>, at: int, count: nat, got: Seq<Region>) -> Result<
    (Seq<Region>, int),
    Seq<char>,
>
    decreases count,
{
    if count == 0 {
        Ok((got, at))
    } else {
        let (region, next) = crate::descriptor::decoded(b, at);
        match region {
            Err(text) => Err(text),
            Ok(r) => regions_of(b, next, (count - 1) as nat, got.push(r)),
        }
    }
}

pub open spec fn snapshot_of(version: u32, event_id: u64, tid: u32, b: Seq<u8>) -> Result<
    Event,
    Seq<char>,
> {
    if version < TRACE_VERSION_3 {
        Err(
            "MemoryMapSnapshot event kind 4 is not supported in trace format V"@
                + crate::text::dec(version as int),
        )
    } else if b.len() < 24 {
        Err(
            about(event_id) + ": MemoryMapSnapshot record length "@ + crate::text::dec(
                b.len() as int,
            ) + " is smaller than minimum header 24"@,
        )
    } else if u32_at(b, 20) != 0 {
        Err(
            about(event_id) + ": nonzero reserved in MemoryMapSnapshot: "@ + crate::text::dec(
                u32_at(b, 20) as int,
            ),
        )
    } else {
        match regions_of(b, 24, u32_at(b, 16) as nat, Seq::empty()) {
            Err(text) => Err(text),
            Ok((regions, end)) => if end != b.len() {
                Err(
                    about(event_id) + ": trailing garbage in MemoryMapSnapshot record (parsed "@
                        + crate::text::dec(end) + " bytes, body len "@ + crate::text::dec(
                        b.len() as int,
                    ) + ")"@,
                )
            } else {
                match crate::maps::order_complaint(regions) {
                    Some(text) => Err(text),
                    None => Ok(Event::MemoryMapSnapshot { event_id, tid, regions }),
                }
            },
        }
    }
}

/// The region that a map delta called `name` carries behind its source event id.
pub open spec fn delta_of(version: u32, event_id: u64, kind: int, name: Seq<char>, b: Seq<u8>) -> Result<
    Region,
    Seq<char>,
> {
    if version < TRACE_VERSION_3 {
        Err(
            name + " event kind "@ + crate::text::dec(kind)
                + " is not supported in trace format V"@ + crate::text::dec(version as int),
        )
    } else if b.len() < 72 {
        Err(
            about(event_id) + ": "@ + name + " record length "@ + crate::text::dec(
                b.len() as int,
            ) + " is smaller than minimum header"@,
        )
    } else {
        let (region, end) = crate::descriptor::decoded(b, 24);
        match region {
            Err(text) => Err(text),
            Ok(r) => if end != b.len() {
                Err(about(event_id) + ": trailing garbage in "@ + name + " record"@)
            } else {
                Ok(r)
            },
        }
    }
}

pub open spec fn add_of(version: u32, event_id: u64, tid: u32, b: Seq<u8>) -> Result<
    Event,
    Seq<char>,
> {
    match delta_of(version, event_id, 5, "MemoryMapAdd"@, b) {
        Err(text) => Err(text),
        Ok(region) => Ok(
            Event::MemoryMapAdd { event_id, tid, source_event_id: u64_at(b, 16), region },
        ),
    }
}

pub open spec fn remove_of(version: u32, event_id: u64, tid: u32, b: Seq<u8>) -> Result<
    Event,
    Seq<char>,
> {
    match delta_of(version, event_id, 6, "MemoryMapRemove"@, b) {
        Err(text) => Err(text),
        Ok(region) => Ok(
            Event::MemoryMapRemove { event_id, tid, source_event_id: u64_at(b, 16), region },
        ),
    }
}

pub open spec fn mismatch(event_id: u64, raw_name: Seq<char>, raw: i32, name: Seq<char>, given: i32) -> Seq<
    char,
> {
    about(event_id) + ": raw siginfo "@ + raw_name + " "@ + crate::text::dec(raw as int)
        + " does not match explicit "@ + name + " "@ + crate::text::dec(given as int)
}

/// A signal's number, error and code stand in the record and again in its siginfo bytes.
pub open spec fn signal_of(version: u32, event_id: u64, tid: u32, b: Seq<u8>) -> Result<
    Event,
    Seq<char>,
> {
    if version < TRACE_VERSION_4 {
        Err(
            "SignalDelivery event kind 7 is not supported in trace format V"@ + crate::text::dec(
                version as int,
            ),
        )
    } else if b.len() < 32 {
        Err(
            about(event_id) + ": SignalDelivery record length "@ + crate::text::dec(
                b.len() as int,
            ) + " is smaller than minimum header 32"@,
        )
    } else if i32_at(b, 16) <= 0 || i32_at(b, 16) > 64 {
        Err(
            about(event_id) + ": invalid signal number "@ + crate::text::dec(i32_at(b, 16) as int),
        )
    } else if u32_at(b, 28) != 128 {
        Err(
            about(event_id) + ": invalid siginfo_len "@ + crate::text::dec(u32_at(b, 28) as int)
                + ", expected 128"@,
        )
    } else if b.len() != 160 {
        Err(
            about(event_id) + ": record length "@ + crate::text::dec(b.len() as int)
                + " does not match 32 + siginfo_len ("@ + crate::text::dec(128) + ")"@,
        )
    } else if i32_at(b, 32) != i32_at(b, 16) {
        Err(mismatch(event_id, "si_signo"@, i32_at(b, 32), "signal_number"@, i32_at(b, 16)))
    } else if i32_at(b, 36) != i32_at(b, 20) {
        Err(mismatch(event_id, "si_errno"@, i32_at(b, 36), "si_errno"@, i32_at(b, 20)))
    } else if i32_at(b, 40) != i32_at(b, 24) {
        Err(mismatch(event_id, "si_code"@, i32_at(b, 40), "si_code"@, i32_at(b, 24)))
    } else {
        Ok(
            Event::SignalDelivery {
                event_id,
                tid,
                signal_number: i32_at(b, 16),
                si_errno: i32_at(b, 20),
                si_code: i32_at(b, 24),
                siginfo_bytes: b.subrange(32, 160),
            },
        )
    }
}

/// The event that the record body `b` holds, where the event with id `expected` is due.
pub open spec fn event_of(version: u32, expected: u64, b: Seq<u8>) -> Result<Event, Seq<char>> {
    if b.len() < 16 {
        Err("record body is shorter than minimum event header"@)
    } else if b[1] != 0 || b[2] != 0 || b[3] != 0 {
        Err(
            "nonzero reserved bytes in event "@ + crate::text::dec(expected as int) + ": "@
                + crate::text::byte_list(b.subrange(1, 4)),
        )
    } else if u64_at(b, 4) != expected {
        Err(
            "non-monotonic event id: observed "@ + crate::text::dec(u64_at(b, 4) as int)
                + ", expected "@ + crate::text::dec(expected as int),
        )
    } else if u32_at(b, 12) == 0 {
        Err("invalid tid 0 in event "@ + crate::text::dec(expected as int))
    } else {
        let tid = u32_at(b, 12);
        if b[0] == EVENT_KIND_SYSCALL_ENTER {
            enter_of(expected, tid, b)
        } else if b[0] == EVENT_KIND_SYSCALL_EXIT {
            exit_of(expected, tid, b)
        } else if b[0] == EVENT_KIND_KERNEL_MEMORY_WRITE {
            data_of(version, expected, tid, b)
        } else if b[0] == EVENT_KIND_MEMORY_MAP_SNAPSHOT {
            snapshot_of(version, expected, tid, b)
        } else if b[0] == EVENT_KIND_MEMORY_MAP_ADD {
            add_of(version, expected, tid, b)
        } else if b[0] == EVENT_KIND_MEMORY_MAP_REMOVE {
            remove_of(version, expected, tid, b)
        } else if b[0] == EVENT_KIND_SIGNAL_DELIVERY {
            signal_of(version, expected, tid, b)
        } else {
            Err("unknown event kind "@ + crate::text::dec(b[0] as int))
        }
    }
}

/// The events of the records from `at` up to `end`, behind those in `got`.
pub open spec fn events_of(version: u32, b: Seq<u8>, at: int, end: int, got: Seq<Event>) -> Result<
    Seq<Event>,
    Seq<char>,
>
    decreases end - at,
{
    if at >= end {
        Ok(got)
    } else if at + 4 > end {
        Err("truncated record length prefix"@)
    } else {
        let len = u32_at(b, at) as int;
        if at + 4 + len > end {
            Err(
                "record length "@ + crate::text::dec(len)
                    + " extends past event data region into footer"@,
            )
        } else {
            match event_of(version, (got.len() + 1) as u64, b.subrange(at + 4, at + 4 + len)) {
                Err(text) => Err(text),
                Ok(e) => events_of(version, b, at + 4 + len, end, got.push(e)),
            }
        }
    }
}

/// What is wrong with the header of a trace, or with the magic in its footer.
pub open spec fn frame_complaint(b: Seq<u8>) -> Option<Seq<char>> {
    if b.len() < 32 {
        Some(
            "incomplete trace: size "@ + crate::text::dec(b.len() as int)
                + " bytes is smaller than minimum header + footer size (32 bytes)"@,
        )
    } else if b.subrange(0, 8) != TRACE_HEADER_MAGIC@ {
        Some(
            "invalid trace header magic: expected "@ + crate::text::byte_list(TRACE_HEADER_MAGIC@)
                + ", got "@ + crate::text::byte_list(b.subrange(0, 8)),
        )
    } else if u32_at(b, 8) < 1 || u32_at(b, 8) > 4 {
        Some(
            "unsupported trace format version "@ + crate::text::dec(u32_at(b, 8) as int)
                + "; supported versions: 1, 2, 3, 4"@,
        )
    } else if crate::bytes::le_at(b, 12, 2) != ARCH_X86_64 {
        Some(
            "unsupported trace architecture id "@ + crate::text::dec(
                crate::bytes::le_at(b, 12, 2) as int,
            ),
        )
    } else if b[14] != BYTE_ORDER_LITTLE_ENDIAN {
        Some("unsupported byte order id "@ + crate::text::dec(b[14] as int))
    } else if b[15] != POINTER_WIDTH_64 {
        Some("unsupported pointer width "@ + crate::text::dec(b[15] as int))
    } else if b.subrange(b.len() - 8, b.len() as int) != TRACE_FOOTER_MAGIC@ {
        Some(
            "incomplete trace: completion footer missing or invalid footer magic (got "@
                + crate::text::byte_list(b.subrange(b.len() - 8, b.len() as int)) + ")"@,
        )
    } else {
        None
    }
}

/// The trace that the bytes hold.
pub open spec fn parsed(b: Seq<u8>) -> Result<Trace, Seq<char>> {
    match frame_complaint(b) {
        Some(text) => Err(text),
        None => {
            let version = u32_at(b, 8);
            let count = u64_at(b, b.len() - 16);
            match events_of(version, b, 16, b.len() - 16, Seq::empty()) {
                Err(text) => Err(text),
                Ok(events) => if events.len() != count {
                    Err(
                        "event count mismatch: footer specifies "@ + crate::text::dec(count as int)
                            + ", but parsed "@ + crate::text::dec(events.len() as int),
                    )
                } else {
                    match crate::structure::structure_complaint(version, events) {
                        Some(text) => Err(text),
                        None => Ok(Trace { version, events }),
                    }
                },
            }
        },
    }
}

/// The outcome of decoding an event.
spec fn event_outcome(expected: Result<Event, Seq<char>>, r: Result<TraceEvent, String>) -> bool {
    match expected {
        Ok(e) => r is Ok && r->Ok_0@ == e,
        Err(text) => r is Err && r->Err_0@ == text,
    }
}

fn about_event(event_id: u64) -> (line: Line)
    ensures
        line@ == about(event_id),
{
    Line::new("trace event ").dec(event_id)
}

fn decode_enter(event_id: u64, tid: u32, b: &[u8]) -> (r: Result<TraceEvent, String>)
    ensures
        event_outcome(enter_of(event_id, tid, b@), r),
{
    if b.len() != 72 {
        return Err(
            about_event(event_id).lit(": SyscallEnter record length ").dec(b.len() as u64).lit(
                ", expected 72",
            ).done(),
        );
    }
    let number: u64 = read_u64(b, 16);
    let args: [u64; 6] = [
        read_u64(b, 24),
        read_u64(b, 32),
        read_u64(b, 40),
        read_u64(b, 48),
        read_u64(b, 56),
        read_u64(b, 64),
    ];
    assert(args@ =~= enter_of(event_id, tid, b@)->Ok_0->SyscallEnter_args);
    Ok(TraceEvent::SyscallEnter { event_id, tid, number, args })
}

fn decode_exit(event_id: u64, tid: u32, b: &[u8]) -> (r: Result<TraceEvent, String>)
    ensures
        event_outcome(exit_of(event_id, tid, b@), r),
{
    if b.len() != 32 {
        return Err(
            about_event(event_id).lit(": SyscallExit record length ").dec(b.len() as u64).lit(
                ", expected 32",
            ).done(),
        );
    }
    let number: u64 = read_u64(b, 16);
    let result: i64 = to_signed(read_u64(b, 24));
    Ok(TraceEvent::SyscallExit { event_id, tid, number, result })
}

fn decode_data(version: u32, event_id: u64, tid: u32, b: &[u8]) -> (r: Result<TraceEvent, String>)
    ensures
        event_outcome(data_of(version, event_id, tid, b@), r),
{
    if version < TRACE_VERSION_2 {
        return Err(
            Line::new("KernelMemoryWrite event kind 3 is not supported in trace format V1").done(),
        );
    }
    if b.len() < 40 {
        return Err(
            about_event(event_id).lit(": KernelMemoryWrite record length ").dec(
                b.len() as u64,
            ).lit(" is smaller than minimum header 40").done(),
        );
    }
    let source_event_id: u64 = read_u64(b, 16);
    let recorded_address: u64 = read_u64(b, 24);
    let data_len: u32 = read_u32(b, 32);
    let payload_reserved: u32 = read_u32(b, 36);
    if payload_reserved != 0 {
        return Err(
            about_event(event_id).lit(": nonzero payload_reserved in KernelMemoryWrite: ").dec(
                payload_reserved as u64,
            ).done(),
        );
    }
    if b.len() as u64 != 40 + data_len as u64 {
        return Err(
            about_event(event_id).lit(": record length ").dec(b.len() as u64).lit(
                " does not match 40 + data_len (",
            ).dec(data_len as u64).lit(")").done(),
        );
    }
    let data = copy_range(b, 40, b.len());
    Ok(TraceEvent::KernelMemoryWrite { event_id, tid, source_event_id, recorded_address, data })
}

fn decode_snapshot(version: u32, event_id: u64, tid: u32, b: &[u8]) -> (r: Result<
    TraceEvent,
    String,
>)
    ensures
        event_outcome(snapshot_of(version, event_id, tid, b@), r),
{
    if version < TRACE_VERSION_3 {
        return Err(
            Line::new("MemoryMapSnapshot event kind 4 is not supported in trace format V").dec(
                version as u64,
            ).done(),
        );
    }
    if b.len() < 24 {
        return Err(
            about_event(event_id).lit(": MemoryMapSnapshot record length ").dec(
                b.len() as u64,
            ).lit(" is smaller than minimum header 24").done(),
        );
    }
    let region_count: u32 = read_u32(b, 16);
    let reserved: u32 = read_u32(b, 20);
    if reserved != 0 {
        return Err(
            about_event(event_id).lit(": nonzero reserved in MemoryMapSnapshot: ").dec(
                reserved as u64,
            ).done(),
        );
    }
    let mut offset: usize = 24;
    let mut regions: Vec<MemoryRegion> = Vec::new();
    let mut i: u32 = 0;
    proof {
        assert(crate::maps::region_views(regions@) =~= Seq::<Region>::empty());
    }
    while i < region_count
        invariant
            i <= region_count,
            regions_of(b@, 24, region_count as nat, Seq::empty()) == regions_of(
                b@,
                offset as int,
                (region_count - i) as nat,
                crate::maps::region_views(regions@),
            ),
            version >= TRACE_VERSION_3,
            b@.len() >= 24,
            u32_at(b@, 16) == region_count,
            u32_at(b@, 20) == 0,
        decreases region_count - i,
    {
        let ghost before = crate::maps::region_views(regions@);
        match decode_region_descriptor(b, &mut offset) {
            Err(text) => {
                return Err(text);
            },
            Ok(region) => {
                let ghost added = region@;
                regions.push(region);
                proof {
                    assert(crate::maps::region_views(regions@) =~= before.push(added));
                }
            },
        }
        i += 1;
    }
    if offset != b.len() {
        return Err(
            about_event(event_id).lit(": trailing garbage in MemoryMapSnapshot record (parsed ").dec(
                offset as u64,
            ).lit(" bytes, body len ").dec(b.len() as u64).lit(")").done(),
        );
    }
    match validate_regions_canonical_order(regions.as_slice()) {
        Err(text) => Err(text),
        Ok(_) => Ok(TraceEvent::MemoryMapSnapshot { event_id, tid, regions }),
    }
}

fn decode_delta(version: u32, event_id: u64, kind: u8, name: &str, b: &[u8]) -> (r: Result<
    MemoryRegion,
    String,
>)
    ensures
        match delta_of(version, event_id, kind as int, name@, b@) {
            Ok(region) => r is Ok && r->Ok_0@ == region,
            Err(text) => r is Err && r->Err_0@ == text,
        },
{
    if version < TRACE_VERSION_3 {
        return Err(
            Line::new(name).lit(" event kind ").dec(kind as u64).lit(
                " is not supported in trace format V",
            ).dec(version as u64).done(),
        );
    }
    if b.len() < 72 {
        return Err(
            about_event(event_id).lit(": ").lit(name).lit(" record length ").dec(
                b.len() as u64,
            ).lit(" is smaller than minimum header").done(),
        );
    }
    let mut offset: usize = 24;
    match decode_region_descriptor(b, &mut offset) {
        Err(text) => Err(text),
        Ok(region) => {
            if offset != b.len() {
                return Err(
                    about_event(event_id).lit(": trailing garbage in ").lit(name).lit(
                        " record",
                    ).done(),
                );
            }
            Ok(region)
        },
    }
}

fn mismatch_error(event_id: u64, raw_name: &str, raw: i32, name: &str, given: i32) -> (r: Result<
    TraceEvent,
    String,
>)
    ensures
        r is Err,
        r->Err_0@ == mismatch(event_id, raw_name@, raw, name@, given),
{
    Err(
        about_event(event_id).lit(": raw siginfo ").lit(raw_name).lit(" ").signed(raw as i64).lit(
            " does not match explicit ",
        ).lit(name).lit(" ").signed(given as i64).done(),
    )
}

fn decode_signal(version: u32, event_id: u64, tid: u32, b: &[u8]) -> (r: Result<
    TraceEvent,
    String,
>)
    ensures
        event_outcome(signal_of(version, event_id, tid, b@), r),
{
    if version < TRACE_VERSION_4 {
        return Err(
            Line::new("SignalDelivery event kind 7 is not supported in trace format V").dec(
                version as u64,
            ).done(),
        );
    }
    if b.len() < 32 {
        return Err(
            about_event(event_id).lit(": SignalDelivery record length ").dec(b.len() as u64).lit(
                " is smaller than minimum header 32",
            ).done(),
        );
    }
    let signal_number: i32 = to_signed32(read_u32(b, 16));
    if signal_number <= 0 || signal_number > 64 {
        return Err(
            about_event(event_id).lit(": invalid signal number ").signed(
                signal_number as i64,
            ).done(),
        );
    }
    let si_errno: i32 = to_signed32(read_u32(b, 20));
    let si_code: i32 = to_signed32(read_u32(b, 24));
    let siginfo_len: u32 = read_u32(b, 28);
    if siginfo_len != 128 {
        return Err(
            about_event(event_id).lit(": invalid siginfo_len ").dec(siginfo_len as u64).lit(
                ", expected 128",
            ).done(),
        );
    }
    if b.len() != 160 {
        return Err(
            about_event(event_id).lit(": record length ").dec(b.len() as u64).lit(
                " does not match 32 + siginfo_len (",
            ).dec(128).lit(")").done(),
        );
    }
    let raw_signo: i32 = to_signed32(read_u32(b, 32));
    let raw_errno: i32 = to_signed32(read_u32(b, 36));
    let raw_code: i32 = to_signed32(read_u32(b, 40));
    if raw_signo != signal_number {
        return mismatch_error(event_id, "si_signo", raw_signo, "signal_number", signal_number);
    }
    if raw_errno != si_errno {
        return mismatch_error(event_id, "si_errno", raw_errno, "si_errno", si_errno);
    }
    if raw_code != si_code {
        return mismatch_error(event_id, "si_code", raw_code, "si_code", si_code);
    }
    let siginfo_bytes = copy_range(b, 32, 160);
    Ok(
        TraceEvent::SignalDelivery {
            event_id,
            tid,
            signal_number,
            si_errno,
            si_code,
            siginfo_bytes,
        },
    )
}

/// Decodes the body of a record.
fn decode_event(version: u32, expected: u64, b: &[u8]) -> (r: Result<TraceEvent, String>)
    ensures
        event_outcome(event_of(version, expected, b@), r),
{
    if b.len() < 16 {
        return Err(Line::new("record body is shorter than minimum event header").done());
    }
    if b[1] != 0 || b[2] != 0 || b[3] != 0 {
        return Err(
            Line::new("nonzero reserved bytes in event ").dec(expected).lit(": ").byte_list(
                slice_subrange(b, 1, 4),
            ).done(),
        );
    }
    let event_id: u64 = read_u64(b, 4);
    if event_id != expected {
        return Err(
            Line::new("non-monotonic event id: observed ").dec(event_id).lit(", expected ").dec(
                expected,
            ).done(),
        );
    }
    let tid: u32 = read_u32(b, 12);
    if tid == 0 {
        return Err(Line::new("invalid tid 0 in event ").dec(event_id).done());
    }
    match b[0] {
        EVENT_KIND_SYSCALL_ENTER => decode_enter(event_id, tid, b),
        EVENT_KIND_SYSCALL_EXIT => decode_exit(event_id, tid, b),
        EVENT_KIND_KERNEL_MEMORY_WRITE => decode_data(version, event_id, tid, b),
        EVENT_KIND_MEMORY_MAP_SNAPSHOT => decode_snapshot(version, event_id, tid, b),
        EVENT_KIND_MEMORY_MAP_ADD => match decode_delta(version, event_id, 5, "MemoryMapAdd", b) {
            Err(text) => Err(text),
            Ok(region) => Ok(
                TraceEvent::MemoryMapAdd {
                    event_id,
                    tid,
                    source_event_id: read_u64(b, 16),
                    region,
                },
            ),
        },
        EVENT_KIND_MEMORY_MAP_REMOVE => match decode_delta(
            version,
            event_id,
            6,
            "MemoryMapRemove",
            b,
        ) {
            Err(text) => Err(text),
            Ok(region) => Ok(
                TraceEvent::MemoryMapRemove {
                    event_id,
                    tid,
                    source_event_id: read_u64(b, 16),
                    region,
                },
            ),
        },
        EVENT_KIND_SIGNAL_DELIVERY => decode_signal(version, event_id, tid, b),
        other => Err(Line::new("unknown event kind ").dec(other as u64).done()),
    }
}

/// Checks the header, and the magic in the footer.
fn check_frame(bytes: &[u8]) -> (r: Result<(), String>)
    ensures
        match frame_complaint(bytes@) {
            None => r is Ok,
            Some(text) => r is Err && r->Err_0@ == text,
        },
{
    if bytes.len() < HEADER_SIZE + FOOTER_SIZE {
        return Err(
            Line::new("incomplete trace: size ").dec(bytes.len() as u64).lit(
                " bytes is smaller than minimum header + footer size (32 bytes)",
            ).done(),
        );
    }
    let magic = slice_subrange(bytes, 0, 8);
    if !bytes_equal(magic, TRACE_HEADER_MAGIC.as_slice()) {
        return Err(
            Line::new("invalid trace header magic: expected ").byte_list(
                TRACE_HEADER_MAGIC.as_slice(),
            ).lit(", got ").byte_list(magic).done(),
        );
    }
    let version: u32 = read_u32(bytes, 8);
    if version != TRACE_VERSION_1 && version != TRACE_VERSION_2 && version != TRACE_VERSION_3
        && version != TRACE_VERSION_4 {
        return Err(
            Line::new("unsupported trace format version ").dec(version as u64).lit(
                "; supported versions: 1, 2, 3, 4",
            ).done(),
        );
    }
    let arch: u16 = bytes[12] as u16 + 256 * (bytes[13] as u16);
    proof {
        reveal_with_fuel(crate::bytes::le_value, 3);
        let s = bytes@.subrange(12, 14);
        assert(s.drop_first().drop_first().len() == 0);
        assert(crate::bytes::le_value(s.drop_first()) == bytes@[13] as nat);
        assert(crate::bytes::le_at(bytes@, 12, 2) == arch);
    }
    if arch != ARCH_X86_64 {
        return Err(Line::new("unsupported trace architecture id ").dec(arch as u64).done());
    }
    if bytes[14] != BYTE_ORDER_LITTLE_ENDIAN {
        return Err(Line::new("unsupported byte order id ").dec(bytes[14] as u64).done());
    }
    if bytes[15] != POINTER_WIDTH_64 {
        return Err(Line::new("unsupported pointer width ").dec(bytes[15] as u64).done());
    }
    let footer_magic = slice_subrange(bytes, bytes.len() - 8, bytes.len());
    if !bytes_equal(footer_magic, TRACE_FOOTER_MAGIC.as_slice()) {
        return Err(
            Line::new(
                "incomplete trace: completion footer missing or invalid footer magic (got ",
            ).byte_list(footer_magic).lit(")").done(),
        );
    }
    Ok(())
}

/// Decodes the records that stand between header and footer.
fn decode_records(version: u32, bytes: &[u8], footer_start: usize) -> (r: Result<
    Vec<TraceEvent>,
    String,
>)
    requires
        16 <= footer_start <= bytes@.len(),
    ensures
        match events_of(version, bytes@, 16, footer_start as int, Seq::empty()) {
            Ok(events) => r is Ok && crate::trace::event_views(r->Ok_0@) == events,
            Err(text) => r is Err && r->Err_0@ == text,
        },
{
    let mut offset: usize = HEADER_SIZE;
    let mut events: Vec<TraceEvent> = Vec::new();
    proof {
        assert(crate::trace::event_views(events@) =~= Seq::<Event>::empty());
    }
    while offset < footer_start
        invariant
            16 <= offset <= footer_start <= bytes@.len(),
            events@.len() + 16 <= offset,
            events_of(version, bytes@, 16, footer_start as int, Seq::empty()) == events_of(
                version,
                bytes@,
                offset as int,
                footer_start as int,
                crate::trace::event_views(events@),
            ),
        decreases footer_start - offset,
    {
        if footer_start - offset < 4 {
            return Err(Line::new("truncated record length prefix").done());
        }
        let record_len: u32 = read_u32(bytes, offset);
        let body_start: usize = offset + 4;
        if record_len as u64 > (footer_start - body_start) as u64 {
            return Err(
                Line::new("record length ").dec(record_len as u64).lit(
                    " extends past event data region into footer",
                ).done(),
            );
        }
        let body_end: usize = body_start + record_len as usize;
        let body = slice_subrange(bytes, body_start, body_end);
        let expected: u64 = events.len() as u64 + 1;
        match decode_event(version, expected, body) {
            Err(text) => {
                return Err(text);
            },
            Ok(event) => {
                let ghost before = crate::trace::event_views(events@);
                let ghost added = event@;
                events.push(event);
                proof {
                    assert(crate::trace::event_views(events@) =~= before.push(added));
                }
            },
        }
        offset = body_end;
    }
    Ok(events)
}

/// Decodes a trace and checks its structure.
pub fn parse_trace_bytes(bytes: &[u8]) -> (r: Result<ParsedTrace, String>)
    ensures
        match parsed(bytes@) {
            Ok(trace) => r is Ok && r->Ok_0@ == trace,
            Err(text) => r is Err && r->Err_0@ == text,
        },
{
    match check_frame(bytes) {
        Err(text) => {
            return Err(text);
        },
        Ok(_) => {},
    }
    let version: u32 = read_u32(bytes, 8);
    let footer_start: usize = bytes.len() - FOOTER_SIZE;
    let expected_event_count: u64 = read_u64(bytes, footer_start);
    let events = match decode_records(version, bytes, footer_start) {
        Err(text) => {
            return Err(text);
        },
        Ok(events) => events,
    };
    if events.len() as u64 != expected_event_count {
        return Err(
            Line::new("event count mismatch: footer specifies ").dec(expected_event_count).lit(
                ", but parsed ",
            ).dec(events.len() as u64).done(),
        );
    }
    match validate_trace_structure(version, events.as_slice()) {
        Err(text) => Err(text),
        Ok(_) => Ok(ParsedTrace { version, events }),
    }
}

} // verus!
