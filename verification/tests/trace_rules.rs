use causal::maps::MemoryRegion;
use causal::trace::{
    parse_trace_bytes, reconstruct_maps_at_event, validate_trace_structure, ParsedTrace,
    TraceEvent, TraceWriter,
};

fn region(start: u64, end: u64) -> MemoryRegion {
    MemoryRegion {
        start,
        end,
        prot_read: true,
        prot_write: true,
        prot_exec: false,
        shared: false,
        file_offset: 0,
        dev_major: 0,
        dev_minor: 0,
        inode: 0,
        label: Vec::new(),
    }
}

fn written(version: u32, write: impl Fn(&mut TraceWriter)) -> Result<ParsedTrace, String> {
    let mut buf = Vec::new();
    let mut writer = TraceWriter::new_with_version(&mut buf, version).unwrap();
    write(&mut writer);
    writer.finish().unwrap();
    parse_trace_bytes(&buf)
}

fn rewritten(trace: &ParsedTrace) -> Vec<u8> {
    let mut buf = Vec::new();
    let mut w = TraceWriter::new_with_version(&mut buf, trace.version).unwrap();
    for event in &trace.events {
        let id = match event {
            TraceEvent::SyscallEnter { tid, number, args, .. } => {
                w.write_syscall_enter(*tid, *number, *args)
            }
            TraceEvent::SyscallExit { tid, number, result, .. } => {
                w.write_syscall_exit(*tid, *number, *result)
            }
            TraceEvent::KernelMemoryWrite { tid, source_event_id, recorded_address, data, .. } => {
                w.write_kernel_memory_write(*tid, *source_event_id, *recorded_address, data)
            }
            TraceEvent::MemoryMapSnapshot { tid, regions, .. } => {
                w.write_memory_map_snapshot(*tid, regions)
            }
            TraceEvent::MemoryMapAdd { tid, source_event_id, region, .. } => {
                w.write_memory_map_add(*tid, *source_event_id, region)
            }
            TraceEvent::MemoryMapRemove { tid, source_event_id, region, .. } => {
                w.write_memory_map_remove(*tid, *source_event_id, region)
            }
            TraceEvent::SignalDelivery { tid, signal_number, si_errno, si_code, siginfo_bytes, .. } => {
                w.write_signal_delivery(*tid, *signal_number, *si_errno, *si_code, siginfo_bytes)
            }
        };
        assert_eq!(id.unwrap(), event.event_id());
    }
    w.finish().unwrap();
    buf
}

fn siginfo(signo: i32) -> Vec<u8> {
    let mut raw = vec![0_u8; 128];
    raw[0..4].copy_from_slice(&signo.to_le_bytes());
    raw
}

#[test]
fn what_is_written_is_read_and_what_is_read_is_written() {
    let mut buf = Vec::new();
    let mut w = TraceWriter::new(&mut buf).unwrap();
    assert_eq!(w.version(), 4);
    w.write_memory_map_snapshot(3, &[region(0x1000, 0x3000), region(0x3000, 0x4000)])
        .unwrap();
    w.write_syscall_enter(3, 0, [0, 0x1000, 8, 0, 0, 0]).unwrap();
    let id = w.write_syscall_exit(3, 0, 2).unwrap();
    w.write_kernel_memory_write(3, id, 0x1000, &[7, 8]).unwrap();
    w.write_syscall_enter(3, 11, [0; 6]).unwrap();
    let id = w.write_syscall_exit(3, 11, 0).unwrap();
    w.write_memory_map_remove(3, id, &region(0x1000, 0x3000)).unwrap();
    w.write_memory_map_add(3, id, &region(0x2000, 0x3000)).unwrap();
    w.write_signal_delivery(3, 10, 0, 0, &siginfo(10)).unwrap();
    w.finish().unwrap();
    w.finish().unwrap();

    let trace = parse_trace_bytes(&buf).unwrap();
    assert_eq!(trace.events.len(), 9);
    assert_eq!(trace[8].tid(), 3);
    assert_eq!(trace[1].syscall_number(), Some(0));
    assert_eq!(trace[8].syscall_number(), None);
    assert_eq!(rewritten(&trace), buf);
    assert_eq!(trace.clone(), trace);
}

#[test]
fn the_writer_refuses_what_its_format_lacks() {
    let mut buf = Vec::new();
    assert_eq!(
        TraceWriter::new_with_version(&mut buf, 5).unwrap_err(),
        "unsupported writer trace version: 5"
    );
    assert!(buf.is_empty());

    let mut buf = Vec::new();
    let mut w = TraceWriter::new_v1(&mut buf).unwrap();
    assert_eq!(
        w.write_kernel_memory_write(1, 1, 0, b"x").unwrap_err(),
        "cannot write KernelMemoryWrite in trace format V1"
    );
    let mut buf = Vec::new();
    let mut w = TraceWriter::new_v2(&mut buf).unwrap();
    assert_eq!(
        w.write_memory_map_snapshot(1, &[]).unwrap_err(),
        "cannot write MemoryMapSnapshot in trace format V1 or V2"
    );
    assert_eq!(
        w.write_memory_map_add(1, 1, &region(0x1000, 0x2000)).unwrap_err(),
        "cannot write MemoryMapAdd in trace format V1 or V2"
    );
    assert_eq!(
        w.write_memory_map_remove(1, 1, &region(0x1000, 0x2000)).unwrap_err(),
        "cannot write MemoryMapRemove in trace format V1 or V2"
    );
    let mut buf = Vec::new();
    let mut w = TraceWriter::new_v3(&mut buf).unwrap();
    assert_eq!(
        w.write_signal_delivery(1, 10, 0, 0, &siginfo(10)).unwrap_err(),
        "cannot write SignalDelivery in trace format V1, V2, or V3"
    );
    let mut buf = Vec::new();
    let mut w = TraceWriter::new_v4(&mut buf).unwrap();
    assert_eq!(
        w.write_signal_delivery(1, 10, 0, 0, &siginfo(10)[..127]).unwrap_err(),
        "invalid siginfo bytes length 127; expected 128"
    );
    w.finish().unwrap();
    assert_eq!(
        w.write_syscall_enter(1, 1, [0; 6]).unwrap_err(),
        "cannot write event to finished trace writer"
    );
    assert_eq!(buf.len(), 32);
}

#[test]
fn frame_errors() {
    let mut buf = Vec::new();
    TraceWriter::new_v1(&mut buf).unwrap().finish().unwrap();
    let mut bad = buf.clone();
    bad[0] = 1;
    assert_eq!(
        parse_trace_bytes(&bad).unwrap_err(),
        "invalid trace header magic: expected [67, 65, 85, 83, 65, 76, 0, 0], got [1, 65, 85, 83, 65, 76, 0, 0]"
    );
    let mut bad = buf.clone();
    bad[13] = 1;
    assert_eq!(
        parse_trace_bytes(&bad).unwrap_err(),
        "unsupported trace architecture id 257"
    );
    let mut bad = buf.clone();
    bad[14] = 2;
    assert_eq!(parse_trace_bytes(&bad).unwrap_err(), "unsupported byte order id 2");
    let mut bad = buf.clone();
    bad[15] = 4;
    assert_eq!(parse_trace_bytes(&bad).unwrap_err(), "unsupported pointer width 4");
    let mut bad = buf.clone();
    bad[31] = 9;
    assert_eq!(
        parse_trace_bytes(&bad).unwrap_err(),
        "incomplete trace: completion footer missing or invalid footer magic (got [67, 65, 85, 83, 69, 78, 68, 9])"
    );
    let mut bad = buf[..16].to_vec();
    bad.extend_from_slice(&[1, 2, 3]);
    bad.extend_from_slice(&buf[16..]);
    assert_eq!(parse_trace_bytes(&bad).unwrap_err(), "truncated record length prefix");
}

#[test]
fn record_errors() {
    let mut buf = Vec::new();
    let mut w = TraceWriter::new_v2(&mut buf).unwrap();
    w.write_syscall_enter(1, 1, [0; 6]).unwrap();
    w.finish().unwrap();

    let mut bad = buf[..16].to_vec();
    bad.extend_from_slice(&4_u32.to_le_bytes());
    bad.extend_from_slice(&[0; 4]);
    bad.extend_from_slice(&buf[92..]);
    assert_eq!(
        parse_trace_bytes(&bad).unwrap_err(),
        "record body is shorter than minimum event header"
    );
    let mut bad = buf.clone();
    bad[22] = 5;
    assert_eq!(
        parse_trace_bytes(&bad).unwrap_err(),
        "nonzero reserved bytes in event 1: [0, 5, 0]"
    );
    let mut bad = buf.clone();
    bad[24] = 9;
    assert_eq!(
        parse_trace_bytes(&bad).unwrap_err(),
        "non-monotonic event id: observed 9, expected 1"
    );
    let mut bad = buf.clone();
    bad[32] = 0;
    assert_eq!(parse_trace_bytes(&bad).unwrap_err(), "invalid tid 0 in event 1");
    let mut bad = buf.clone();
    bad[20] = 2;
    assert_eq!(
        parse_trace_bytes(&bad).unwrap_err(),
        "trace event 1: SyscallExit record length 72, expected 32"
    );
    let mut bad = buf.clone();
    bad[20] = 3;
    bad[56] = 1;
    assert_eq!(
        parse_trace_bytes(&bad).unwrap_err(),
        "trace event 1: nonzero payload_reserved in KernelMemoryWrite: 1"
    );
    let mut bad = buf.clone();
    bad[20] = 3;
    assert_eq!(
        parse_trace_bytes(&bad).unwrap_err(),
        "trace event 1: record length 72 does not match 40 + data_len (0)"
    );
    let mut bad = buf.clone();
    bad[20] = 5;
    assert_eq!(
        parse_trace_bytes(&bad).unwrap_err(),
        "MemoryMapAdd event kind 5 is not supported in trace format V2"
    );
}

#[test]
fn a_format_three_trace_begins_with_a_snapshot() {
    assert_eq!(
        written(3, |_| {}).unwrap_err(),
        "V3 trace is missing required initial MemoryMapSnapshot event"
    );
    assert_eq!(
        written(3, |w| {
            w.write_syscall_enter(1, 1, [0; 6]).unwrap();
        })
        .unwrap_err(),
        "V3 trace missing initial MemoryMapSnapshot before SyscallEnter event 1"
    );
}

#[test]
fn a_format_four_trace_needs_a_snapshot_for_what_refers_to_the_map() {
    let trace = written(4, |w| {
        w.write_syscall_enter(1, 39, [0; 6]).unwrap();
        w.write_syscall_exit(1, 39, 1).unwrap();
    })
    .unwrap();
    assert_eq!(trace.events.len(), 2);
    assert_eq!(
        reconstruct_maps_at_event(&trace, 1).unwrap_err(),
        "trace is missing initial MemoryMapSnapshot event"
    );
    assert_eq!(
        written(4, |w| {
            w.write_signal_delivery(1, 10, 0, 0, &siginfo(10)).unwrap();
        })
        .unwrap_err(),
        "V4 trace missing initial MemoryMapSnapshot before SignalDelivery event 1"
    );
    assert_eq!(
        written(4, |w| {
            w.write_syscall_enter(1, 9, [0; 6]).unwrap();
            let id = w.write_syscall_exit(1, 9, 0).unwrap();
            w.write_memory_map_add(1, id, &region(0x1000, 0x2000)).unwrap();
        })
        .unwrap_err(),
        "V4 trace is missing required initial MemoryMapSnapshot event"
    );
}

#[test]
fn pairing_errors() {
    assert_eq!(
        written(1, |w| {
            w.write_syscall_enter(5, 1, [0; 6]).unwrap();
            w.write_syscall_enter(5, 2, [0; 6]).unwrap();
        })
        .unwrap_err(),
        "structural pairing error at event 2: SyscallEnter nr=2 on tid 5 while previous nr=1 is pending"
    );
    assert_eq!(
        written(1, |w| {
            w.write_syscall_enter(5, 1, [0; 6]).unwrap();
            w.write_syscall_exit(6, 1, 0).unwrap();
        })
        .unwrap_err(),
        "structural pairing error at event 2: SyscallExit nr=1 on tid 6 with no pending SyscallEnter"
    );
    assert_eq!(
        written(1, |w| {
            w.write_syscall_enter(5, 1, [0; 6]).unwrap();
            w.write_syscall_exit(5, 3, 0).unwrap();
        })
        .unwrap_err(),
        "structural pairing error at event 2: SyscallExit nr=3 on tid 5 does not match pending nr=1"
    );
    assert!(written(1, |w| {
        w.write_syscall_enter(5, 1, [0; 6]).unwrap();
        w.write_syscall_enter(6, 2, [0; 6]).unwrap();
        w.write_syscall_exit(5, 1, 0).unwrap();
    })
    .is_ok());
}

#[test]
fn read_errors() {
    assert_eq!(
        written(2, |w| {
            w.write_syscall_enter(5, 0, [0, 0x10, 4, 0, 0, 0]).unwrap();
            w.write_syscall_exit(5, 0, 5).unwrap();
        })
        .unwrap_err(),
        "trace event 2: SYS_read result 5 exceeds requested count 4"
    );
    assert_eq!(
        written(2, |w| {
            w.write_syscall_enter(5, 0, [0, 0x10, 4, 0, 0, 0]).unwrap();
            w.write_syscall_exit(5, 0, 4).unwrap();
        })
        .unwrap_err(),
        "positive SYS_read at exit event 2 at end of trace missing required KernelMemoryWrite event"
    );
    assert_eq!(
        written(2, |w| {
            w.write_syscall_enter(5, 0, [0, 0x10, 4, 0, 0, 0]).unwrap();
            let id = w.write_syscall_exit(5, 0, 4).unwrap();
            w.write_kernel_memory_write(6, id, 0x10, b"data").unwrap();
        })
        .unwrap_err(),
        "trace event 3: KernelMemoryWrite tid 6 does not match source exit tid 5"
    );
    assert_eq!(
        written(2, |w| {
            w.write_kernel_memory_write(6, 1, 0x10, b"data").unwrap();
        })
        .unwrap_err(),
        "trace event 1: KernelMemoryWrite does not immediately follow a positive SYS_read exit"
    );
    assert!(written(1, |w| {
        w.write_syscall_enter(5, 0, [0, 0x10, 4, 0, 0, 0]).unwrap();
        w.write_syscall_exit(5, 0, 4).unwrap();
        w.write_syscall_enter(5, 0, [0, 0x10, 4, 0, 0, 0]).unwrap();
    })
    .is_ok());
}

#[test]
fn structure_is_checked_of_events_too() {
    let snapshot = TraceEvent::MemoryMapSnapshot { event_id: 1, tid: 1, regions: Vec::new() };
    assert_eq!(
        validate_trace_structure(2, std::slice::from_ref(&snapshot)).unwrap_err(),
        "MemoryMapSnapshot event in trace format V2"
    );
    let signal = TraceEvent::SignalDelivery {
        event_id: 2,
        tid: 1,
        signal_number: 65,
        si_errno: 0,
        si_code: 0,
        siginfo_bytes: Vec::new(),
    };
    assert_eq!(
        validate_trace_structure(4, &[snapshot.clone(), signal]).unwrap_err(),
        "trace event 2: invalid signal number 65"
    );
    assert!(validate_trace_structure(3, &[snapshot]).is_ok());
}

#[test]
fn maps_through_the_history_of_a_trace() {
    let trace = written(3, |w| {
        w.write_memory_map_snapshot(1, &[region(0x1000, 0x2000)]).unwrap();
        w.write_syscall_enter(1, 9, [0; 6]).unwrap();
        let id = w.write_syscall_exit(1, 9, 0x3000).unwrap();
        w.write_memory_map_add(1, id, &region(0x3000, 0x4000)).unwrap();
        w.write_memory_map_add(1, id, &region(0x5000, 0x6000)).unwrap();
        w.write_syscall_enter(1, 11, [0; 6]).unwrap();
        let id = w.write_syscall_exit(1, 11, 0).unwrap();
        w.write_memory_map_remove(1, id, &region(0x1000, 0x2000)).unwrap();
        w.write_syscall_enter(1, 10, [0; 6]).unwrap();
        w.write_syscall_exit(1, 10, -13).unwrap();
    })
    .unwrap();
    let counts: Vec<usize> = (1..=10)
        .map(|id| reconstruct_maps_at_event(&trace, id).unwrap().regions().len())
        .collect();
    assert_eq!(counts, vec![1, 1, 3, 3, 3, 3, 2, 2, 2, 2]);
    assert_eq!(
        reconstruct_maps_at_event(&trace, 0).unwrap_err(),
        "event-id must be non-zero"
    );
    assert_eq!(
        reconstruct_maps_at_event(&trace, 11).unwrap_err(),
        "event-id 11 not found in trace (event count: 10)"
    );
}

#[test]
fn test_m5_causal_maps_rejection_of_v1_and_v2_traces() {
    for version in [1, 2] {
        let trace = written(version, |w| {
            w.write_syscall_enter(100, 39, [0; 6]).unwrap();
            w.write_syscall_exit(100, 39, 100).unwrap();
        })
        .unwrap();
        assert_eq!(
            reconstruct_maps_at_event(&trace, 1).unwrap_err(),
            format!(
                "trace format V{} has no initial memory-map model; record again with V3",
                version
            )
        );
    }
}
