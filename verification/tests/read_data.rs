use causal::trace::{parse_trace_bytes, TraceWriter, SYS_READ_X86_64};

#[test]
fn test_m4_deterministic_v2_serialization() {
    let serialize = || -> Vec<u8> {
        let mut buf = Vec::new();
        let mut writer = TraceWriter::new_v2(&mut buf).unwrap();
        let enter_id = writer
            .write_syscall_enter(42, 0, [4, 0x7fff_1000, 64, 0, 0, 0])
            .unwrap();
        let exit_id = writer.write_syscall_exit(42, 0, 5).unwrap();
        writer
            .write_kernel_memory_write(42, exit_id, 0x7fff_1000, b"hello")
            .unwrap();
        assert_eq!(enter_id, 1);
        assert_eq!(exit_id, 2);
        writer.finish().unwrap();
        buf
    };

    let run1 = serialize();
    let run2 = serialize();
    assert_eq!(
        run1, run2,
        "synthetic V2 trace encoding must be byte-for-byte identical"
    );
}

#[test]
fn test_m4_v2_corruption_cases() {
    let mut v1_buf = Vec::new();
    let mut w = TraceWriter::new_v1(&mut v1_buf).unwrap();
    w.write_syscall_enter(1, 0, [0; 6]).unwrap();
    w.write_syscall_exit(1, 0, 5).unwrap();
    w.finish().unwrap();
    let mut forged_v1 = v1_buf.clone();
    forged_v1[20] = 3;
    assert!(parse_trace_bytes(&forged_v1).is_err());

    let mut v2_unknown = Vec::new();
    let mut w = TraceWriter::new_v2(&mut v2_unknown).unwrap();
    w.write_syscall_enter(1, 39, [0; 6]).unwrap();
    w.write_syscall_exit(1, 39, 10).unwrap();
    w.finish().unwrap();
    v2_unknown[20] = 99;
    let err = parse_trace_bytes(&v2_unknown).unwrap_err();
    assert!(err.contains("unknown event kind 99"), "{}", err);

    let mut missing_mem = Vec::new();
    let mut w = TraceWriter::new_v2(&mut missing_mem).unwrap();
    w.write_syscall_enter(1, 0, [4, 0x7ffd_1000, 64, 0, 0, 0])
        .unwrap();
    w.write_syscall_exit(1, 0, 18).unwrap();
    w.finish().unwrap();
    let err = parse_trace_bytes(&missing_mem).unwrap_err();
    assert!(
        err.contains("missing required KernelMemoryWrite event"),
        "{}",
        err
    );

    let mut wrong_source = Vec::new();
    let mut w = TraceWriter::new_v2(&mut wrong_source).unwrap();
    w.write_syscall_enter(1, 0, [4, 0x7ffd_1000, 64, 0, 0, 0])
        .unwrap();
    let exit_id = w.write_syscall_exit(1, 0, 4).unwrap();
    w.write_kernel_memory_write(1, exit_id + 99, 0x7ffd_1000, b"test")
        .unwrap();
    w.finish().unwrap();
    let err = parse_trace_bytes(&wrong_source).unwrap_err();
    assert!(
        err.contains("does not match immediately preceding exit event"),
        "{}",
        err
    );

    let mut source_is_enter = Vec::new();
    let mut w = TraceWriter::new_v2(&mut source_is_enter).unwrap();
    let enter_id = w
        .write_syscall_enter(1, 0, [4, 0x7ffd_1000, 64, 0, 0, 0])
        .unwrap();
    w.write_kernel_memory_write(1, enter_id, 0x7ffd_1000, b"test")
        .unwrap();
    w.finish().unwrap();
    let err = parse_trace_bytes(&source_is_enter).unwrap_err();
    assert!(
        err.contains("points to a SyscallEnter, expected SyscallExit"),
        "{}",
        err
    );

    let mut source_not_read = Vec::new();
    let mut w = TraceWriter::new_v2(&mut source_not_read).unwrap();
    w.write_syscall_enter(1, 1, [1, 0x7ffd_1000, 4, 0, 0, 0])
        .unwrap();
    let write_exit_id = w.write_syscall_exit(1, 1, 4).unwrap();
    w.write_kernel_memory_write(1, write_exit_id, 0x7ffd_1000, b"test")
        .unwrap();
    w.finish().unwrap();
    let err = parse_trace_bytes(&source_not_read).unwrap_err();
    assert!(
        err.contains("attached to SyscallExit nr=1, expected SYS_read (0)"),
        "{}",
        err
    );

    let mut mem_after_zero_read = Vec::new();
    let mut w = TraceWriter::new_v2(&mut mem_after_zero_read).unwrap();
    w.write_syscall_enter(1, 0, [4, 0x7ffd_1000, 64, 0, 0, 0])
        .unwrap();
    let zero_exit_id = w.write_syscall_exit(1, 0, 0).unwrap();
    w.write_kernel_memory_write(1, zero_exit_id, 0x7ffd_1000, b"")
        .unwrap();
    w.finish().unwrap();
    let err = parse_trace_bytes(&mem_after_zero_read).unwrap_err();
    assert!(
        err.contains("attached to zero-result read exit event"),
        "{}",
        err
    );

    let mut mem_after_failed_read = Vec::new();
    let mut w = TraceWriter::new_v2(&mut mem_after_failed_read).unwrap();
    w.write_syscall_enter(1, 0, [4, 0x7ffd_1000, 64, 0, 0, 0])
        .unwrap();
    let fail_exit_id = w.write_syscall_exit(1, 0, -9).unwrap();
    w.write_kernel_memory_write(1, fail_exit_id, 0x7ffd_1000, b"")
        .unwrap();
    w.finish().unwrap();
    let err = parse_trace_bytes(&mem_after_failed_read).unwrap_err();
    assert!(
        err.contains("attached to failed read exit event"),
        "{}",
        err
    );

    let mut mismatched_len = Vec::new();
    let mut w = TraceWriter::new_v2(&mut mismatched_len).unwrap();
    w.write_syscall_enter(1, 0, [4, 0x7ffd_1000, 64, 0, 0, 0])
        .unwrap();
    let exit_id = w.write_syscall_exit(1, 0, 10).unwrap();
    w.write_kernel_memory_write(1, exit_id, 0x7ffd_1000, b"short")
        .unwrap();
    w.finish().unwrap();
    let err = parse_trace_bytes(&mismatched_len).unwrap_err();
    assert!(err.contains("does not match read result"), "{}", err);

    let mut wrong_addr = Vec::new();
    let mut w = TraceWriter::new_v2(&mut wrong_addr).unwrap();
    w.write_syscall_enter(1, 0, [4, 0x7ffd_1000, 64, 0, 0, 0])
        .unwrap();
    let exit_id = w.write_syscall_exit(1, 0, 4).unwrap();
    w.write_kernel_memory_write(1, exit_id, 0x7ffd_9999, b"test")
        .unwrap();
    w.finish().unwrap();
    let err = parse_trace_bytes(&wrong_addr).unwrap_err();
    assert!(
        err.contains("does not match read entry buffer address"),
        "{}",
        err
    );
}
