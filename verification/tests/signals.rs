use causal::maps::MemoryRegion;
use causal::trace::{
    parse_trace_bytes, TraceEvent, TraceWriter, ARCH_X86_64, BYTE_ORDER_LITTLE_ENDIAN,
    POINTER_WIDTH_64, SIGINFO_SIZE_X86_64, SYS_MMAP_X86_64, SYS_MPROTECT_X86_64, SYS_READ_X86_64,
    TRACE_HEADER_MAGIC, TRACE_VERSION_4,
};

fn dummy_stack_region() -> MemoryRegion {
    MemoryRegion {
        start: 0x7fff_0000_0000,
        end: 0x7fff_0001_0000,
        prot_read: true,
        prot_write: true,
        prot_exec: false,
        shared: false,
        file_offset: 0,
        dev_major: 0,
        dev_minor: 0,
        inode: 0,
        label: b"[stack]".to_vec(),
    }
}

fn dummy_mapped_region() -> MemoryRegion {
    MemoryRegion {
        start: 0x7000_0000_0000,
        end: 0x7000_0001_0000,
        prot_read: true,
        prot_write: true,
        prot_exec: false,
        shared: false,
        file_offset: 0,
        dev_major: 0,
        dev_minor: 0,
        inode: 0,
        label: Vec::new(),
    }
}

fn create_raw_siginfo(
    signo: i32,
    errno: i32,
    code: i32,
    pid: i32,
    uid: u32,
) -> [u8; SIGINFO_SIZE_X86_64] {
    let mut raw = [0_u8; SIGINFO_SIZE_X86_64];
    raw[0..4].copy_from_slice(&signo.to_le_bytes());
    raw[4..8].copy_from_slice(&errno.to_le_bytes());
    raw[8..12].copy_from_slice(&code.to_le_bytes());
    raw[16..20].copy_from_slice(&pid.to_le_bytes());
    raw[20..24].copy_from_slice(&uid.to_le_bytes());
    raw
}

#[test]
fn test_m6_abi_size_proof() {
    assert_eq!(
        std::mem::size_of::<libc::siginfo_t>(),
        SIGINFO_SIZE_X86_64,
        "Linux x86-64 siginfo_t ABI size must be exactly 128 bytes"
    );
}

#[test]
fn test_m6_v4_header_and_signal_delivery_roundtrip() {
    let region = dummy_stack_region();
    let raw_siginfo = create_raw_siginfo(libc::SIGUSR1, 0, libc::SI_USER, 1234, 1000);

    let mut buf = Vec::new();
    let mut writer = TraceWriter::new_v4(&mut buf).unwrap();
    assert_eq!(writer.version(), TRACE_VERSION_4);

    let ev1 = writer
        .write_memory_map_snapshot(1234, std::slice::from_ref(&region))
        .unwrap();
    assert_eq!(ev1, 1);

    let ev2 = writer
        .write_signal_delivery(1234, libc::SIGUSR1, 0, libc::SI_USER, &raw_siginfo)
        .unwrap();
    assert_eq!(ev2, 2);

    writer.finish().unwrap();

    assert_eq!(&buf[0..8], TRACE_HEADER_MAGIC);
    assert_eq!(u32::from_le_bytes(buf[8..12].try_into().unwrap()), 4);
    assert_eq!(
        u16::from_le_bytes(buf[12..14].try_into().unwrap()),
        ARCH_X86_64
    );
    assert_eq!(buf[14], BYTE_ORDER_LITTLE_ENDIAN);
    assert_eq!(buf[15], POINTER_WIDTH_64);

    let parsed = parse_trace_bytes(&buf).unwrap();
    assert_eq!(parsed.version, TRACE_VERSION_4);
    assert_eq!(parsed.events.len(), 2);

    match &parsed.events[1] {
        TraceEvent::SignalDelivery {
            event_id,
            tid,
            signal_number,
            si_errno,
            si_code,
            siginfo_bytes,
        } => {
            assert_eq!(*event_id, 2);
            assert_eq!(*tid, 1234);
            assert_eq!(*signal_number, libc::SIGUSR1);
            assert_eq!(*si_errno, 0);
            assert_eq!(*si_code, libc::SI_USER);
            assert_eq!(siginfo_bytes.len(), SIGINFO_SIZE_X86_64);
            assert_eq!(&siginfo_bytes[..], &raw_siginfo[..]);
        }
        other => panic!("expected SignalDelivery, got {:?}", other),
    }
}

#[test]
fn test_m6_v4_deterministic_serialization() {
    let region = dummy_stack_region();
    let raw_siginfo = create_raw_siginfo(libc::SIGUSR1, 0, libc::SI_USER, 42, 0);

    let mut buf1 = Vec::new();
    let mut w1 = TraceWriter::new_v4(&mut buf1).unwrap();
    w1.write_memory_map_snapshot(42, std::slice::from_ref(&region))
        .unwrap();
    w1.write_signal_delivery(42, libc::SIGUSR1, 0, libc::SI_USER, &raw_siginfo)
        .unwrap();
    w1.finish().unwrap();

    let mut buf2 = Vec::new();
    let mut w2 = TraceWriter::new_v4(&mut buf2).unwrap();
    w2.write_memory_map_snapshot(42, std::slice::from_ref(&region))
        .unwrap();
    w2.write_signal_delivery(42, libc::SIGUSR1, 0, libc::SI_USER, &raw_siginfo)
        .unwrap();
    w2.finish().unwrap();

    assert_eq!(
        buf1, buf2,
        "V4 serialization must be bit-for-bit deterministic"
    );
}

#[test]
fn test_m6_bug_a_signal_breaks_read_memory_write_adjacency_rejected() {
    let region = dummy_stack_region();
    let raw_siginfo = create_raw_siginfo(libc::SIGUSR1, 0, libc::SI_USER, 1, 0);

    let mut buf = Vec::new();
    let mut writer = TraceWriter::new_v4(&mut buf).unwrap();
    writer
        .write_memory_map_snapshot(1, std::slice::from_ref(&region))
        .unwrap();
    writer
        .write_syscall_enter(1, SYS_READ_X86_64, [0, 0x1000, 10, 0, 0, 0])
        .unwrap();
    let exit_id = writer.write_syscall_exit(1, SYS_READ_X86_64, 5).unwrap();
    writer
        .write_signal_delivery(1, libc::SIGUSR1, 0, libc::SI_USER, &raw_siginfo)
        .unwrap();
    writer
        .write_kernel_memory_write(1, exit_id, 0x1000, &[1, 2, 3, 4, 5])
        .unwrap();
    writer.finish().unwrap();

    let res = parse_trace_bytes(&buf);
    assert!(
        res.is_err(),
        "must reject SignalDelivery interposed before KernelMemoryWrite"
    );
    let err = res.unwrap_err();
    assert!(
        err.contains("interposes before required KernelMemoryWrite"),
        "expected adjacency error diagnostic: {}",
        err
    );
}

#[test]
fn test_m6_bug_b_signal_breaks_map_delta_adjacency_rejected() {
    let region = dummy_stack_region();
    let map_reg = dummy_mapped_region();
    let raw_siginfo = create_raw_siginfo(libc::SIGUSR1, 0, libc::SI_USER, 1, 0);

    // SyscallExit(mmap) -> SignalDelivery -> MemoryMapAdd
    let mut buf1 = Vec::new();
    let mut w1 = TraceWriter::new_v4(&mut buf1).unwrap();
    w1.write_memory_map_snapshot(1, std::slice::from_ref(&region))
        .unwrap();
    w1.write_syscall_enter(1, SYS_MMAP_X86_64, [0; 6]).unwrap();
    let exit_id1 = w1
        .write_syscall_exit(1, SYS_MMAP_X86_64, 0x7000_0000_0000)
        .unwrap();
    w1.write_signal_delivery(1, libc::SIGUSR1, 0, libc::SI_USER, &raw_siginfo)
        .unwrap();
    w1.write_memory_map_add(1, exit_id1, &map_reg).unwrap();
    w1.finish().unwrap();

    let res1 = parse_trace_bytes(&buf1);
    assert!(
        res1.is_err(),
        "must reject MemoryMapAdd after SignalDelivery"
    );
    let err1 = res1.unwrap_err();
    assert!(
        err1.contains("is not contiguous with triggering SyscallExit"),
        "expected contiguity error: {}",
        err1
    );

    // SyscallExit(mprotect) -> MemoryMapRemove -> SignalDelivery -> MemoryMapAdd
    let mut buf2 = Vec::new();
    let mut w2 = TraceWriter::new_v4(&mut buf2).unwrap();
    w2.write_memory_map_snapshot(1, std::slice::from_ref(&region))
        .unwrap();
    w2.write_syscall_enter(1, SYS_MPROTECT_X86_64, [0; 6])
        .unwrap();
    let exit_id2 = w2.write_syscall_exit(1, SYS_MPROTECT_X86_64, 0).unwrap();
    w2.write_memory_map_remove(1, exit_id2, &region).unwrap();
    w2.write_signal_delivery(1, libc::SIGUSR1, 0, libc::SI_USER, &raw_siginfo)
        .unwrap();
    w2.write_memory_map_add(1, exit_id2, &region).unwrap();
    w2.finish().unwrap();

    let res2 = parse_trace_bytes(&buf2);
    assert!(
        res2.is_err(),
        "must reject MemoryMapAdd split by SignalDelivery"
    );
    let err2 = res2.unwrap_err();
    assert!(
        err2.contains("is not contiguous with triggering SyscallExit"),
        "expected contiguity error: {}",
        err2
    );
}

#[test]
fn test_m6_structural_signal_between_syscall_pair() {
    let region = dummy_stack_region();
    let raw_siginfo = create_raw_siginfo(libc::SIGUSR1, 0, libc::SI_USER, 1, 0);

    let mut buf = Vec::new();
    let mut writer = TraceWriter::new_v4(&mut buf).unwrap();
    writer
        .write_memory_map_snapshot(1, std::slice::from_ref(&region))
        .unwrap();
    writer.write_syscall_enter(1, 1, [0; 6]).unwrap(); // SYS_write
    writer
        .write_signal_delivery(1, libc::SIGUSR1, 0, libc::SI_USER, &raw_siginfo)
        .unwrap();
    writer.write_syscall_exit(1, 1, 1234).unwrap();
    writer.finish().unwrap();

    let parsed = parse_trace_bytes(&buf).unwrap();
    assert_eq!(parsed.events.len(), 4);
}

fn create_raw_signal_trace_v(version: u32) -> Vec<u8> {
    let raw_sig = create_raw_siginfo(libc::SIGUSR1, 0, libc::SI_USER, 1, 0);
    let mut bytes = Vec::new();
    bytes.extend_from_slice(TRACE_HEADER_MAGIC);
    bytes.extend_from_slice(&version.to_le_bytes());
    bytes.extend_from_slice(&ARCH_X86_64.to_le_bytes());
    bytes.push(BYTE_ORDER_LITTLE_ENDIAN);
    bytes.push(POINTER_WIDTH_64);

    // Record length: 32 + 128 = 160
    bytes.extend_from_slice(&160_u32.to_le_bytes());
    bytes.push(7); // kind = 7 (SignalDelivery)
    bytes.extend_from_slice(&[0_u8; 3]);
    bytes.extend_from_slice(&1_u64.to_le_bytes()); // event_id = 1
    bytes.extend_from_slice(&1_u32.to_le_bytes()); // tid = 1
    bytes.extend_from_slice(&libc::SIGUSR1.to_le_bytes());
    bytes.extend_from_slice(&0_i32.to_le_bytes());
    bytes.extend_from_slice(&libc::SI_USER.to_le_bytes());
    bytes.extend_from_slice(&128_u32.to_le_bytes());
    bytes.extend_from_slice(&raw_sig);

    // Footer: event_count = 1, magic = CAUSEND\0
    bytes.extend_from_slice(&1_u64.to_le_bytes());
    bytes.extend_from_slice(b"CAUSEND\0");
    bytes
}

#[test]
fn test_m6_old_version_kind_7_parser_rejections() {
    // V1 with raw kind 7
    let v1 = create_raw_signal_trace_v(1);
    let err1 = parse_trace_bytes(&v1).unwrap_err();
    assert!(
        err1.contains("SignalDelivery event kind 7 is not supported in trace format V1"),
        "expected V1 kind 7 diagnostic: {}",
        err1
    );

    // V2 with raw kind 7
    let v2 = create_raw_signal_trace_v(2);
    let err2 = parse_trace_bytes(&v2).unwrap_err();
    assert!(
        err2.contains("SignalDelivery event kind 7 is not supported in trace format V2"),
        "expected V2 kind 7 diagnostic: {}",
        err2
    );

    // V3 with raw kind 7
    let v3 = create_raw_signal_trace_v(3);
    let err3 = parse_trace_bytes(&v3).unwrap_err();
    assert!(
        err3.contains("SignalDelivery event kind 7 is not supported in trace format V3"),
        "expected V3 kind 7 diagnostic: {}",
        err3
    );
}

#[test]
fn test_m6_truncated_siginfo_boundary_parser_rejection() {
    let region = dummy_stack_region();
    let raw_sig = create_raw_siginfo(libc::SIGUSR1, 0, libc::SI_USER, 1, 0);

    // Valid V4 header + Snapshot + SignalDelivery declaring 160 bytes but physically giving only 50 bytes + Valid Footer
    let mut bytes = Vec::new();
    let mut w = TraceWriter::new_v4(&mut bytes).unwrap();
    w.write_memory_map_snapshot(1, std::slice::from_ref(&region))
        .unwrap();
    w.finish().unwrap();

    // Strip the footer (last 16 bytes)
    let footer = bytes.split_off(bytes.len() - 16);

    // Append SignalDelivery with declared length 160 but only 50 physical bytes before the valid footer
    bytes.extend_from_slice(&160_u32.to_le_bytes()); // Declared record length 160
    bytes.push(7); // kind = 7
    bytes.extend_from_slice(&[0_u8; 3]);
    bytes.extend_from_slice(&2_u64.to_le_bytes()); // event_id = 2
    bytes.extend_from_slice(&1_u32.to_le_bytes()); // tid = 1
    bytes.extend_from_slice(&libc::SIGUSR1.to_le_bytes());
    bytes.extend_from_slice(&0_i32.to_le_bytes());
    bytes.extend_from_slice(&libc::SI_USER.to_le_bytes());
    bytes.extend_from_slice(&128_u32.to_le_bytes());
    bytes.extend_from_slice(&raw_sig[..18]); // Only 18 bytes of siginfo (total body = 50 bytes)

    // Append valid footer declaring event_count = 2
    bytes.extend_from_slice(&2_u64.to_le_bytes());
    bytes.extend_from_slice(&footer[8..16]); // CAUSEND\0

    let err = parse_trace_bytes(&bytes).unwrap_err();
    assert!(
        err.contains("record length 160 extends past event data region into footer"),
        "expected boundary diagnostic: {}",
        err
    );
}

#[test]
fn test_m6_corruption_diagnostic_reasons() {
    let region = dummy_stack_region();
    let raw_siginfo = create_raw_siginfo(libc::SIGUSR1, 0, libc::SI_USER, 1, 0);

    let mut valid_v4 = Vec::new();
    let mut w = TraceWriter::new_v4(&mut valid_v4).unwrap();
    w.write_memory_map_snapshot(1, std::slice::from_ref(&region))
        .unwrap();
    w.write_signal_delivery(1, libc::SIGUSR1, 0, libc::SI_USER, &raw_siginfo)
        .unwrap();
    w.finish().unwrap();

    let sig_rec_offset = 16 + 4 + u32::from_le_bytes(valid_v4[16..20].try_into().unwrap()) as usize;

    // signal_number = 0
    let mut bad_sig0 = valid_v4.clone();
    bad_sig0[sig_rec_offset + 4 + 16..sig_rec_offset + 4 + 20]
        .copy_from_slice(&0_i32.to_le_bytes());
    let err0 = parse_trace_bytes(&bad_sig0).unwrap_err();
    assert!(
        err0.contains("invalid signal number 0"),
        "expected signal 0 diagnostic: {}",
        err0
    );

    // signal_number > 64 (65)
    let mut bad_sig65 = valid_v4.clone();
    bad_sig65[sig_rec_offset + 4 + 16..sig_rec_offset + 4 + 20]
        .copy_from_slice(&65_i32.to_le_bytes());
    let err65 = parse_trace_bytes(&bad_sig65).unwrap_err();
    assert!(
        err65.contains("invalid signal number 65"),
        "expected signal 65 diagnostic: {}",
        err65
    );

    // Short record length (< 32)
    let mut short_hdr = valid_v4.clone();
    short_hdr[sig_rec_offset..sig_rec_offset + 4].copy_from_slice(&20_u32.to_le_bytes());
    let err_short_hdr = parse_trace_bytes(&short_hdr).unwrap_err();
    assert!(
        err_short_hdr.contains("smaller than minimum header 32"),
        "expected short header diagnostic: {}",
        err_short_hdr
    );

    // siginfo_len < 128 (64)
    let mut bad_len_short = valid_v4.clone();
    bad_len_short[sig_rec_offset + 4 + 28..sig_rec_offset + 4 + 32]
        .copy_from_slice(&64_u32.to_le_bytes());
    let err_short_len = parse_trace_bytes(&bad_len_short).unwrap_err();
    assert!(
        err_short_len.contains("invalid siginfo_len 64, expected 128"),
        "expected short siginfo_len diagnostic: {}",
        err_short_len
    );

    // siginfo_len > 128 (256)
    let mut bad_len_long = valid_v4.clone();
    bad_len_long[sig_rec_offset + 4 + 28..sig_rec_offset + 4 + 32]
        .copy_from_slice(&256_u32.to_le_bytes());
    let err_long_len = parse_trace_bytes(&bad_len_long).unwrap_err();
    assert!(
        err_long_len.contains("invalid siginfo_len 256, expected 128"),
        "expected long siginfo_len diagnostic: {}",
        err_long_len
    );

    // record_length / siginfo_len mismatch
    let mut bad_rec_len = valid_v4.clone();
    bad_rec_len[sig_rec_offset..sig_rec_offset + 4].copy_from_slice(&150_u32.to_le_bytes());
    let err_rec_mismatch = parse_trace_bytes(&bad_rec_len).unwrap_err();
    assert!(
        err_rec_mismatch.contains("record length 150 does not match 32 + siginfo_len (128)"),
        "expected length mismatch diagnostic: {}",
        err_rec_mismatch
    );

    // Raw si_signo mismatch
    let mut bad_raw_signo = valid_v4.clone();
    bad_raw_signo[sig_rec_offset + 4 + 32..sig_rec_offset + 4 + 36]
        .copy_from_slice(&libc::SIGTERM.to_le_bytes());
    let err_raw_signo = parse_trace_bytes(&bad_raw_signo).unwrap_err();
    assert!(
        err_raw_signo.contains("raw siginfo si_signo 15 does not match explicit signal_number 10"),
        "expected raw si_signo mismatch diagnostic: {}",
        err_raw_signo
    );

    // Raw si_errno mismatch
    let mut bad_raw_errno = valid_v4.clone();
    bad_raw_errno[sig_rec_offset + 4 + 36..sig_rec_offset + 4 + 40]
        .copy_from_slice(&99_i32.to_le_bytes());
    let err_raw_errno = parse_trace_bytes(&bad_raw_errno).unwrap_err();
    assert!(
        err_raw_errno.contains("raw siginfo si_errno 99 does not match explicit si_errno 0"),
        "expected raw si_errno mismatch diagnostic: {}",
        err_raw_errno
    );

    // Raw si_code mismatch
    let mut bad_raw_code = valid_v4.clone();
    bad_raw_code[sig_rec_offset + 4 + 40..sig_rec_offset + 4 + 44]
        .copy_from_slice(&99_i32.to_le_bytes());
    let err_raw_code = parse_trace_bytes(&bad_raw_code).unwrap_err();
    assert!(
        err_raw_code.contains("raw siginfo si_code 99 does not match explicit si_code 0"),
        "expected raw si_code mismatch diagnostic: {}",
        err_raw_code
    );

    // Unknown V4 event kind (kind 8)
    let mut unknown_kind = valid_v4.clone();
    unknown_kind[sig_rec_offset + 4] = 8;
    let err_unknown = parse_trace_bytes(&unknown_kind).unwrap_err();
    assert!(
        err_unknown.contains("unknown event kind 8"),
        "expected unknown kind diagnostic: {}",
        err_unknown
    );

    // SignalDelivery before required MemoryMapSnapshot in V4
    let raw_sig = create_raw_siginfo(libc::SIGUSR1, 0, libc::SI_USER, 1, 0);
    let mut manual_v4 = Vec::new();
    manual_v4.extend_from_slice(TRACE_HEADER_MAGIC);
    manual_v4.extend_from_slice(&4_u32.to_le_bytes());
    manual_v4.extend_from_slice(&ARCH_X86_64.to_le_bytes());
    manual_v4.push(BYTE_ORDER_LITTLE_ENDIAN);
    manual_v4.push(POINTER_WIDTH_64);
    manual_v4.extend_from_slice(&160_u32.to_le_bytes());
    manual_v4.push(7);
    manual_v4.extend_from_slice(&[0_u8; 3]);
    manual_v4.extend_from_slice(&1_u64.to_le_bytes());
    manual_v4.extend_from_slice(&1_u32.to_le_bytes());
    manual_v4.extend_from_slice(&libc::SIGUSR1.to_le_bytes());
    manual_v4.extend_from_slice(&0_i32.to_le_bytes());
    manual_v4.extend_from_slice(&libc::SI_USER.to_le_bytes());
    manual_v4.extend_from_slice(&128_u32.to_le_bytes());
    manual_v4.extend_from_slice(&raw_sig);
    manual_v4.extend_from_slice(&1_u64.to_le_bytes());
    manual_v4.extend_from_slice(b"CAUSEND\0");
    let err_no_snap = parse_trace_bytes(&manual_v4).unwrap_err();
    assert!(
        err_no_snap.contains("missing initial MemoryMapSnapshot before SignalDelivery event 1"),
        "expected missing snapshot diagnostic: {}",
        err_no_snap
    );
}
