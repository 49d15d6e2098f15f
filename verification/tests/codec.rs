use causal::trace::{parse_trace_bytes, TraceEvent, FOOTER_SIZE, HEADER_SIZE};

#[test]
fn test_codec_header_and_empty_trace_round_trip() {
    let mut buf = Vec::new();
    let mut writer = causal::trace::TraceWriter::new(&mut buf).unwrap();
    writer.finish().unwrap();

    assert_eq!(buf.len(), HEADER_SIZE + FOOTER_SIZE);
    let events = parse_trace_bytes(&buf).unwrap();
    assert_eq!(events.len(), 0);
}

#[test]
fn test_codec_syscall_enter_round_trip() {
    let mut buf = Vec::new();
    let mut writer = causal::trace::TraceWriter::new(&mut buf).unwrap();

    let args = [1, 2, 3, 4, 5, 0xffff_ffff_ffff_ffff];
    writer
        .write_syscall_enter(123, 0x1122_3344_5566_7788, args)
        .unwrap();
    writer.finish().unwrap();

    let events = parse_trace_bytes(&buf).unwrap();
    assert_eq!(events.len(), 1);
    match &events[0] {
        TraceEvent::SyscallEnter {
            event_id,
            tid,
            number,
            args: decoded_args,
        } => {
            assert_eq!(*event_id, 1);
            assert_eq!(*tid, 123);
            assert_eq!(*number, 0x1122_3344_5566_7788);
            assert_eq!(*decoded_args, args);
        }
        _ => panic!("expected SyscallEnter"),
    }
}

#[test]
fn test_codec_syscall_exit_signed_result_round_trip() {
    let mut buf = Vec::new();
    let mut writer = causal::trace::TraceWriter::new(&mut buf).unwrap();

    // Write enter first to satisfy pairing validation
    writer.write_syscall_enter(123, 21, [0; 6]).unwrap();
    writer.write_syscall_exit(123, 21, -2).unwrap();
    writer.finish().unwrap();

    let events = parse_trace_bytes(&buf).unwrap();
    assert_eq!(events.len(), 2);
    match &events[1] {
        TraceEvent::SyscallExit {
            event_id,
            tid,
            number,
            result,
        } => {
            assert_eq!(*event_id, 2);
            assert_eq!(*tid, 123);
            assert_eq!(*number, 21);
            assert_eq!(*result, -2);
        }
        _ => panic!("expected SyscallExit"),
    }
}

#[test]
fn test_codec_event_ordering_and_ids() {
    let mut buf = Vec::new();
    let mut writer = causal::trace::TraceWriter::new(&mut buf).unwrap();

    let id1 = writer.write_syscall_enter(100, 1, [0; 6]).unwrap();
    let id2 = writer.write_syscall_exit(100, 1, 6).unwrap();
    let id3 = writer.write_syscall_enter(100, 231, [0; 6]).unwrap();
    writer.finish().unwrap();

    assert_eq!(id1, 1);
    assert_eq!(id2, 2);
    assert_eq!(id3, 3);

    let events = parse_trace_bytes(&buf).unwrap();
    assert_eq!(events.len(), 3);
    assert_eq!(events[0].event_id(), 1);
    assert_eq!(events[1].event_id(), 2);
    assert_eq!(events[2].event_id(), 3);
}

#[test]
fn test_codec_deterministic_serialization_synthetic() {
    let serialize = || -> Vec<u8> {
        let mut buf = Vec::new();
        let mut writer = causal::trace::TraceWriter::new(&mut buf).unwrap();
        writer
            .write_syscall_enter(42, 1, [1, 0x7fff_1234, 6, 0, 0, 0])
            .unwrap();
        writer.write_syscall_exit(42, 1, 6).unwrap();
        writer
            .write_syscall_enter(42, 231, [0, 0, 0, 0, 0, 0])
            .unwrap();
        writer.finish().unwrap();
        buf
    };

    let run1 = serialize();
    let run2 = serialize();
    assert_eq!(
        run1, run2,
        "synthetic encoding must be byte-for-byte identical"
    );
}

#[test]
fn test_codec_rejection_bad_magic() {
    let mut buf = Vec::new();
    let mut writer = causal::trace::TraceWriter::new(&mut buf).unwrap();
    writer.finish().unwrap();

    buf[0..8].copy_from_slice(b"BADMAGIC");
    let err = parse_trace_bytes(&buf).unwrap_err();
    assert!(err.contains("invalid trace header magic"), "{}", err);
}

#[test]
fn test_codec_rejection_unsupported_version() {
    let mut buf = Vec::new();
    let mut writer = causal::trace::TraceWriter::new(&mut buf).unwrap();
    writer.finish().unwrap();

    buf[8..12].copy_from_slice(&99_u32.to_le_bytes());
    let err = parse_trace_bytes(&buf).unwrap_err();
    assert!(
        err.contains("unsupported trace format version 99"),
        "{}",
        err
    );
}

#[test]
fn test_codec_rejection_unsupported_architecture() {
    let mut buf = Vec::new();
    let mut writer = causal::trace::TraceWriter::new(&mut buf).unwrap();
    writer.finish().unwrap();

    buf[12..14].copy_from_slice(&2_u16.to_le_bytes());
    let err = parse_trace_bytes(&buf).unwrap_err();
    assert!(
        err.contains("unsupported trace architecture id 2"),
        "{}",
        err
    );
}

#[test]
fn test_codec_rejection_truncated_header() {
    let buf = vec![0_u8; 10];
    let err = parse_trace_bytes(&buf).unwrap_err();
    assert!(err.contains("incomplete trace"), "{}", err);
}

#[test]
fn test_codec_rejection_missing_footer() {
    let mut buf = Vec::new();
    let mut writer = causal::trace::TraceWriter::new(&mut buf).unwrap();
    writer.write_syscall_enter(10, 1, [0; 6]).unwrap();
    // Do not call finish(), so no footer is written
    let err = parse_trace_bytes(&buf).unwrap_err();
    assert!(err.contains("completion footer missing"), "{}", err);
}

#[test]
fn test_codec_rejection_bad_footer_magic() {
    let mut buf = Vec::new();
    let mut writer = causal::trace::TraceWriter::new(&mut buf).unwrap();
    writer.finish().unwrap();

    let footer_start = buf.len() - 8;
    buf[footer_start..].copy_from_slice(b"BADFOOT\0");
    let err = parse_trace_bytes(&buf).unwrap_err();
    assert!(err.contains("completion footer missing"), "{}", err);
}

#[test]
fn test_codec_rejection_event_count_mismatch() {
    let mut buf = Vec::new();
    let mut writer = causal::trace::TraceWriter::new(&mut buf).unwrap();
    writer.write_syscall_enter(10, 231, [0; 6]).unwrap();
    writer.finish().unwrap();

    let count_pos = buf.len() - FOOTER_SIZE;
    buf[count_pos..count_pos + 8].copy_from_slice(&99_u64.to_le_bytes());
    let err = parse_trace_bytes(&buf).unwrap_err();
    assert!(err.contains("event count mismatch"), "{}", err);
}

#[test]
fn test_codec_rejection_non_monotonic_event_id() {
    let mut buf = Vec::new();
    let mut writer = causal::trace::TraceWriter::new(&mut buf).unwrap();
    writer.write_syscall_enter(10, 1, [0; 6]).unwrap();
    writer.write_syscall_exit(10, 1, 0).unwrap();
    writer.finish().unwrap();

    // Event 2 starts at offset 16 + 76 = 92. Event ID is at offset 92 + 4 + 4 = 100.
    // Overwrite event 2's ID with 1 (duplicate)
    buf[100..108].copy_from_slice(&1_u64.to_le_bytes());
    let err = parse_trace_bytes(&buf).unwrap_err();
    assert!(err.contains("non-monotonic event id"), "{}", err);
}

#[test]
fn test_codec_rejection_trailing_garbage() {
    let mut buf = Vec::new();
    let mut writer = causal::trace::TraceWriter::new(&mut buf).unwrap();
    writer.finish().unwrap();

    buf.extend_from_slice(b"GARBAGE");
    let err = parse_trace_bytes(&buf).unwrap_err();
    assert!(err.contains("completion footer missing"), "{}", err);
}

#[test]
fn test_codec_rejection_malformed_record_length() {
    let mut buf = Vec::new();
    let mut writer = causal::trace::TraceWriter::new(&mut buf).unwrap();
    writer.write_syscall_enter(10, 231, [0; 6]).unwrap();
    writer.finish().unwrap();

    // Overwrite record length at offset 16 with 9999
    buf[16..20].copy_from_slice(&9999_u32.to_le_bytes());
    let err = parse_trace_bytes(&buf).unwrap_err();
    assert!(err.contains("extends past event data region"), "{}", err);
}
