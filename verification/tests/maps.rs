use causal::maps::{
    parse_proc_maps, parse_proc_maps_bytes, validate_regions_canonical_order, MemoryMapModel,
    MemoryRegion,
};
use causal::trace::{
    parse_trace_bytes, TraceEvent, TraceWriter, SYS_BRK_X86_64, SYS_MMAP_X86_64,
    SYS_MPROTECT_X86_64, SYS_MUNMAP_X86_64, TRACE_VERSION_3,
};

#[test]
fn test_m5_memory_region_validation_and_canonical_eq() {
    // Valid region
    let r1 = MemoryRegion {
        start: 0x7000_0000_0000,
        end: 0x7000_0001_0000,
        prot_read: true,
        prot_write: true,
        prot_exec: false,
        shared: false,
        file_offset: 0,
        dev_major: 0,
        dev_minor: 0,
        inode: 0,
        label: b"[heap]".to_vec(),
    };
    assert!(r1.validate().is_ok());

    // Canonical equality ignores label, whereas PartialEq compares all fields
    let mut r2 = r1.clone();
    r2.label = b"[anon]".to_vec();
    assert_ne!(r1, r2);
    assert!(r1.canonical_eq(&r2));

    // Unaligned start
    let mut r_invalid = r1.clone();
    r_invalid.start = 0x7000_0000_0001;
    assert!(r_invalid.validate().is_err());

    // start >= end
    let mut r_inverted = r1.clone();
    r_inverted.start = 0x7000_0002_0000;
    assert!(r_inverted.validate().is_err());
}

#[test]
fn test_m5_memory_map_model_mutations() {
    let r1 = MemoryRegion {
        start: 0x1000_0000,
        end: 0x1001_0000,
        prot_read: true,
        prot_write: false,
        prot_exec: false,
        shared: false,
        file_offset: 0,
        dev_major: 0,
        dev_minor: 0,
        inode: 0,
        label: Vec::new(),
    };
    let r2 = MemoryRegion {
        start: 0x2000_0000,
        end: 0x2001_0000,
        prot_read: true,
        prot_write: true,
        prot_exec: false,
        shared: false,
        file_offset: 0,
        dev_major: 0,
        dev_minor: 0,
        inode: 0,
        label: Vec::new(),
    };

    let mut model = MemoryMapModel::new(vec![r1.clone(), r2.clone()]).unwrap();
    assert_eq!(model.regions().len(), 2);
    assert!(model.contains_address(0x1000_5000));
    assert!(!model.contains_address(0x1500_0000));

    // Apply remove
    model.apply_remove(&r1).unwrap();
    assert_eq!(model.regions().len(), 1);
    assert!(!model.contains_address(0x1000_5000));

    // Apply add
    model.apply_add(r1.clone()).unwrap();
    assert_eq!(model.regions().len(), 2);
    assert_eq!(model.regions()[0], r1); // Sorted by start ascending

    // Adding overlapping region must fail
    let r_overlap = MemoryRegion {
        start: 0x1000_8000,
        end: 0x1002_0000,
        prot_read: true,
        prot_write: false,
        prot_exec: false,
        shared: false,
        file_offset: 0,
        dev_major: 0,
        dev_minor: 0,
        inode: 0,
        label: Vec::new(),
    };
    assert!(model.apply_add(r_overlap).is_err());
}

#[test]
fn test_m5_proc_maps_parser() {
    let maps_content = "\
55b8813e8000-55b8813e9000 r--p 00000000 08:01 12345                      /bin/cat
55b8813e9000-55b8813eb000 r-xp 00001000 08:01 12345                      /bin/cat
7ffc9d000000-7ffc9d021000 rw-p 00000000 00:00 0                          [stack]
7ffc9d0e7000-7ffc9d0eb000 r--p 00000000 00:00 0                          [vvar]
7ffc9d0eb000-7ffc9d0ed000 r-xp 00000000 00:00 0                          [vdso]
ffffffffff600000-ffffffffff601000 --xp 00000000 00:00 0                  [vsyscall]
";
    let model = parse_proc_maps(maps_content).unwrap();
    assert_eq!(model.regions().len(), 6);
    assert_eq!(model.regions()[0].start, 0x55b8813e8000);
    assert_eq!(model.regions()[0].end, 0x55b8813e9000);
    assert_eq!(model.regions()[0].label, b"/bin/cat");
    assert!(model.regions()[0].prot_read);
    assert!(!model.regions()[0].prot_write);
    assert!(!model.regions()[0].prot_exec);
    assert!(!model.regions()[0].shared);
}

#[test]
fn test_m5_proc_maps_label_extraction_and_non_utf8() {
    // Inode = 0 with [stack] label
    let stack_line = b"7ffc9d000000-7ffc9d021000 rw-p 00000000 00:00 0 [stack]\n";
    let model_stack = parse_proc_maps_bytes(stack_line).unwrap();
    assert_eq!(model_stack.regions().len(), 1);
    assert_eq!(model_stack.regions()[0].inode, 0);
    assert_eq!(model_stack.regions()[0].label, b"[stack]");

    // Label with spaces and special markers
    let spaces_line =
        b"55b8813e8000-55b8813e9000 r-xp 00000000 08:01 12345 /home/user/my app/bin (deleted)\n";
    let model_spaces = parse_proc_maps_bytes(spaces_line).unwrap();
    assert_eq!(model_spaces.regions().len(), 1);
    assert_eq!(
        model_spaces.regions()[0].label,
        b"/home/user/my app/bin (deleted)"
    );

    // Label containing invalid UTF-8 bytes
    let non_utf8_line = b"7fff00000000-7fff00010000 r-xp 00000000 08:01 12345 /tmp/\xff\xfe\xfd\n";
    let model_non_utf8 = parse_proc_maps_bytes(non_utf8_line).unwrap();
    assert_eq!(model_non_utf8.regions().len(), 1);
    let region = &model_non_utf8.regions()[0];
    assert_eq!(region.start, 0x7fff_0000_0000);
    assert_eq!(region.end, 0x7fff_0001_0000);
    assert_eq!(region.label, b"/tmp/\xff\xfe\xfd");
    assert!(region.prot_read);
    assert!(!region.prot_write);
    assert!(region.prot_exec);
    assert!(!region.shared);

    // Presentation format uses lossy UTF-8 conversion without panic
    let formatted = region.format_maps_line();
    assert!(formatted.contains("7fff00000000-7fff00010000"));
}

#[test]
fn test_m5_diff_apply_self_consistency() {
    // Test mprotect split self-consistency
    let old_r = MemoryRegion {
        start: 0x1000_0000,
        end: 0x1004_0000,
        prot_read: true,
        prot_write: true,
        prot_exec: false,
        shared: false,
        file_offset: 0,
        dev_major: 0,
        dev_minor: 0,
        inode: 0,
        label: Vec::new(),
    };
    let old_model = MemoryMapModel::new(vec![old_r]).unwrap();

    let split_1 = MemoryRegion {
        start: 0x1000_0000,
        end: 0x1001_0000,
        prot_read: true,
        prot_write: true,
        prot_exec: false,
        shared: false,
        file_offset: 0,
        dev_major: 0,
        dev_minor: 0,
        inode: 0,
        label: Vec::new(),
    };
    let split_2 = MemoryRegion {
        start: 0x1001_0000,
        end: 0x1002_0000,
        prot_read: true,
        prot_write: false,
        prot_exec: true,
        shared: false,
        file_offset: 0,
        dev_major: 0,
        dev_minor: 0,
        inode: 0,
        label: Vec::new(),
    };
    let split_3 = MemoryRegion {
        start: 0x1002_0000,
        end: 0x1004_0000,
        prot_read: true,
        prot_write: true,
        prot_exec: false,
        shared: false,
        file_offset: 0,
        dev_major: 0,
        dev_minor: 0,
        inode: 0,
        label: Vec::new(),
    };
    let mprotected_model = MemoryMapModel::new(vec![split_1, split_2, split_3]).unwrap();

    let (removes, adds) = old_model.diff(&mprotected_model);
    assert_eq!(removes.len(), 1);
    assert_eq!(adds.len(), 3);

    let mut check_model = old_model.clone();
    for r in &removes {
        check_model.apply_remove(r).unwrap();
    }
    for a in adds {
        check_model.apply_add(a).unwrap();
    }
    assert_eq!(check_model, mprotected_model);

    // Test munmap hole self-consistency
    let hole_1 = MemoryRegion {
        start: 0x1000_0000,
        end: 0x1001_0000,
        prot_read: true,
        prot_write: true,
        prot_exec: false,
        shared: false,
        file_offset: 0,
        dev_major: 0,
        dev_minor: 0,
        inode: 0,
        label: Vec::new(),
    };
    let hole_2 = MemoryRegion {
        start: 0x1003_0000,
        end: 0x1004_0000,
        prot_read: true,
        prot_write: true,
        prot_exec: false,
        shared: false,
        file_offset: 0,
        dev_major: 0,
        dev_minor: 0,
        inode: 0,
        label: Vec::new(),
    };
    let unmapped_model = MemoryMapModel::new(vec![hole_1, hole_2]).unwrap();

    let (removes_unmap, adds_unmap) = old_model.diff(&unmapped_model);
    let mut check_unmap = old_model;
    for r in &removes_unmap {
        check_unmap.apply_remove(r).unwrap();
    }
    for a in adds_unmap {
        check_unmap.apply_add(a).unwrap();
    }
    assert_eq!(check_unmap, unmapped_model);
}

#[test]
fn test_m5_synthetic_v3_wire_roundtrip() {
    let mut buf = Vec::new();
    let region = MemoryRegion {
        start: 0x7fff_0000_0000,
        end: 0x7fff_0001_0000,
        prot_read: true,
        prot_write: true,
        prot_exec: false,
        shared: false,
        file_offset: 0x1000,
        dev_major: 8,
        dev_minor: 1,
        inode: 12345,
        label: b"/usr/lib/libc.so".to_vec(),
    };

    let mut writer = TraceWriter::new_v3(&mut buf).unwrap();
    writer
        .write_memory_map_snapshot(50, std::slice::from_ref(&region))
        .unwrap();
    writer.write_syscall_enter(50, 9, [0; 6]).unwrap();
    let exit_id = writer.write_syscall_exit(50, 9, 0x7fff_0000_0000).unwrap();
    writer
        .write_memory_map_remove(50, exit_id, &region)
        .unwrap();
    writer.write_memory_map_add(50, exit_id, &region).unwrap();
    writer.finish().unwrap();

    let parsed = parse_trace_bytes(&buf).unwrap();
    assert_eq!(parsed.version, TRACE_VERSION_3);
    assert_eq!(parsed.events.len(), 5);
}

#[test]
fn test_m5_synthetic_v3_deterministic_serialization() {
    // Exact binary byte reproducibility
    let region = MemoryRegion {
        start: 0x7fff_0000_0000,
        end: 0x7fff_0001_0000,
        prot_read: true,
        prot_write: true,
        prot_exec: false,
        shared: false,
        file_offset: 0x1000,
        dev_major: 8,
        dev_minor: 1,
        inode: 12345,
        label: b"/usr/lib/libc.so".to_vec(),
    };

    let mut buf_a = Vec::new();
    {
        let mut writer = TraceWriter::new_v3(&mut buf_a).unwrap();
        writer
            .write_memory_map_snapshot(50, std::slice::from_ref(&region))
            .unwrap();
        writer.write_syscall_enter(50, 9, [0; 6]).unwrap();
        let exit_id = writer.write_syscall_exit(50, 9, 0x7fff_0000_0000).unwrap();
        writer
            .write_memory_map_remove(50, exit_id, &region)
            .unwrap();
        writer.write_memory_map_add(50, exit_id, &region).unwrap();
        writer.finish().unwrap();
    }

    let mut buf_b = Vec::new();
    {
        let mut writer = TraceWriter::new_v3(&mut buf_b).unwrap();
        writer
            .write_memory_map_snapshot(50, std::slice::from_ref(&region))
            .unwrap();
        writer.write_syscall_enter(50, 9, [0; 6]).unwrap();
        let exit_id = writer.write_syscall_exit(50, 9, 0x7fff_0000_0000).unwrap();
        writer
            .write_memory_map_remove(50, exit_id, &region)
            .unwrap();
        writer.write_memory_map_add(50, exit_id, &region).unwrap();
        writer.finish().unwrap();
    }

    assert_eq!(
        buf_a, buf_b,
        "V3 serialization must be bit-for-bit deterministic"
    );
}

#[allow(clippy::too_many_arguments)]
fn encode_test_region_raw(
    start: u64,
    end: u64,
    offset: u64,
    inode: u64,
    major: u32,
    minor: u32,
    prot: u8,
    sharing: u8,
    reserved: [u8; 2],
    label: &[u8],
) -> Vec<u8> {
    let mut buf = Vec::new();
    buf.extend_from_slice(&start.to_le_bytes());
    buf.extend_from_slice(&end.to_le_bytes());
    buf.extend_from_slice(&offset.to_le_bytes());
    buf.extend_from_slice(&inode.to_le_bytes());
    buf.extend_from_slice(&major.to_le_bytes());
    buf.extend_from_slice(&minor.to_le_bytes());
    buf.push(prot);
    buf.push(sharing);
    buf.extend_from_slice(&reserved);
    buf.extend_from_slice(&(label.len() as u32).to_le_bytes());
    buf.extend_from_slice(label);
    buf
}

fn create_v3_header() -> Vec<u8> {
    let mut buf = Vec::new();
    buf.extend_from_slice(b"CAUSAL\0\0");
    buf.extend_from_slice(&3_u32.to_le_bytes());
    buf.extend_from_slice(&1_u16.to_le_bytes()); // arch x86-64
    buf.push(1); // little endian (offset 14)
    buf.push(8); // pointer width 8 (offset 15)
    buf
}

fn create_v3_footer(event_count: u64) -> Vec<u8> {
    let mut buf = Vec::new();
    buf.extend_from_slice(&event_count.to_le_bytes());
    buf.extend_from_slice(b"CAUSEND\0");
    buf
}

#[test]
fn test_m5_trace_validation_unsorted_snapshot_rejected() {
    // Wire snapshot descriptors in non-canonical unsorted order must be rejected
    let mut buf = create_v3_header();
    let reg_b = encode_test_region_raw(0x3000_0000, 0x4000_0000, 0, 0, 0, 0, 1, 1, [0, 0], b"");
    let reg_a = encode_test_region_raw(0x1000_0000, 0x2000_0000, 0, 0, 0, 0, 1, 1, [0, 0], b"");

    let mut snap_body = Vec::new();
    snap_body.extend_from_slice(&1_u64.to_le_bytes()); // event_id
    snap_body.extend_from_slice(&10_u32.to_le_bytes()); // tid
    snap_body.extend_from_slice(&2_u32.to_le_bytes()); // region_count = 2
    snap_body.extend_from_slice(&0_u32.to_le_bytes()); // reserved = 0
    snap_body.extend_from_slice(&reg_b); // B first (0x3000_0000)
    snap_body.extend_from_slice(&reg_a); // A second (0x1000_0000) -> unsorted!

    let rec_len = 4 + snap_body.len();
    buf.extend_from_slice(&(rec_len as u32).to_le_bytes());
    buf.push(4); // kind = 4 (MemoryMapSnapshot)
    buf.extend_from_slice(&[0; 3]);
    buf.extend_from_slice(&snap_body);
    buf.extend_from_slice(&create_v3_footer(1));

    let res = parse_trace_bytes(&buf);
    assert!(res.is_err(), "unsorted wire snapshot must be rejected");
    let err = res.unwrap_err();
    assert!(
        err.contains("non-canonical snapshot ordering"),
        "error '{}' must indicate non-canonical snapshot ordering",
        err
    );
}

#[test]
fn test_m5_trace_validation_corruption_cases() {
    // Focused rejection of synthetic corruption cases
    let valid_region = MemoryRegion {
        start: 0x1000_0000,
        end: 0x1001_0000,
        prot_read: true,
        prot_write: false,
        prot_exec: false,
        shared: false,
        file_offset: 0,
        dev_major: 0,
        dev_minor: 0,
        inode: 0,
        label: Vec::new(),
    };

    // V3 missing initial snapshot before SyscallEnter
    {
        let mut buf = Vec::new();
        let mut writer = TraceWriter::new_v3(&mut buf).unwrap();
        writer.write_syscall_enter(10, 39, [0; 6]).unwrap();
        writer.write_syscall_exit(10, 39, 10).unwrap();
        writer.finish().unwrap();
        assert!(parse_trace_bytes(&buf).is_err());
    }

    // Duplicate initial snapshot
    {
        let mut buf = Vec::new();
        let mut writer = TraceWriter::new_v3(&mut buf).unwrap();
        writer
            .write_memory_map_snapshot(10, std::slice::from_ref(&valid_region))
            .unwrap();
        writer
            .write_memory_map_snapshot(10, std::slice::from_ref(&valid_region))
            .unwrap();
        writer.finish().unwrap();
        assert!(parse_trace_bytes(&buf).is_err());
    }

    // Late snapshot (Snapshot after SyscallEnter)
    {
        let mut buf = create_v3_header();
        let mut enter_body = Vec::new();
        enter_body.extend_from_slice(&1_u64.to_le_bytes());
        enter_body.extend_from_slice(&10_u32.to_le_bytes());
        enter_body.extend_from_slice(&39_u64.to_le_bytes()); // SYS_getpid
        enter_body.extend_from_slice(&[0_u8; 48]);
        let rec_len1 = 4 + enter_body.len();
        buf.extend_from_slice(&(rec_len1 as u32).to_le_bytes());
        buf.push(1); // SyscallEnter
        buf.extend_from_slice(&[0; 3]);
        buf.extend_from_slice(&enter_body);

        let reg = encode_test_region_raw(0x1000_0000, 0x2000_0000, 0, 0, 0, 0, 1, 1, [0, 0], b"");
        let mut snap_body = Vec::new();
        snap_body.extend_from_slice(&2_u64.to_le_bytes());
        snap_body.extend_from_slice(&10_u32.to_le_bytes());
        snap_body.extend_from_slice(&1_u32.to_le_bytes());
        snap_body.extend_from_slice(&0_u32.to_le_bytes());
        snap_body.extend_from_slice(&reg);
        let rec_len2 = 4 + snap_body.len();
        buf.extend_from_slice(&(rec_len2 as u32).to_le_bytes());
        buf.push(4); // MemoryMapSnapshot
        buf.extend_from_slice(&[0; 3]);
        buf.extend_from_slice(&snap_body);
        buf.extend_from_slice(&create_v3_footer(2));
        assert!(parse_trace_bytes(&buf).is_err());
    }

    // Invalid prot_bits > 7
    {
        let mut buf = create_v3_header();
        let reg_invalid_prot =
            encode_test_region_raw(0x1000_0000, 0x2000_0000, 0, 0, 0, 0, 8, 1, [0, 0], b"");
        let mut snap_body = Vec::new();
        snap_body.extend_from_slice(&1_u64.to_le_bytes());
        snap_body.extend_from_slice(&10_u32.to_le_bytes());
        snap_body.extend_from_slice(&1_u32.to_le_bytes());
        snap_body.extend_from_slice(&0_u32.to_le_bytes());
        snap_body.extend_from_slice(&reg_invalid_prot);
        let rec_len = 4 + snap_body.len();
        buf.extend_from_slice(&(rec_len as u32).to_le_bytes());
        buf.push(4);
        buf.extend_from_slice(&[0; 3]);
        buf.extend_from_slice(&snap_body);
        buf.extend_from_slice(&create_v3_footer(1));
        let res = parse_trace_bytes(&buf);
        assert!(res.is_err());
        assert!(res.unwrap_err().contains("invalid prot bits"));
    }

    // Invalid sharing byte
    {
        let mut buf = create_v3_header();
        let reg_invalid_sharing =
            encode_test_region_raw(0x1000_0000, 0x2000_0000, 0, 0, 0, 0, 1, 3, [0, 0], b"");
        let mut snap_body = Vec::new();
        snap_body.extend_from_slice(&1_u64.to_le_bytes());
        snap_body.extend_from_slice(&10_u32.to_le_bytes());
        snap_body.extend_from_slice(&1_u32.to_le_bytes());
        snap_body.extend_from_slice(&0_u32.to_le_bytes());
        snap_body.extend_from_slice(&reg_invalid_sharing);
        let rec_len = 4 + snap_body.len();
        buf.extend_from_slice(&(rec_len as u32).to_le_bytes());
        buf.push(4);
        buf.extend_from_slice(&[0; 3]);
        buf.extend_from_slice(&snap_body);
        buf.extend_from_slice(&create_v3_footer(1));
        let res = parse_trace_bytes(&buf);
        assert!(res.is_err());
        assert!(res.unwrap_err().contains("invalid sharing byte"));
    }

    // Nonzero descriptor reserved bytes
    {
        let mut buf = create_v3_header();
        let reg_nonzero_res =
            encode_test_region_raw(0x1000_0000, 0x2000_0000, 0, 0, 0, 0, 1, 1, [1, 0], b"");
        let mut snap_body = Vec::new();
        snap_body.extend_from_slice(&1_u64.to_le_bytes());
        snap_body.extend_from_slice(&10_u32.to_le_bytes());
        snap_body.extend_from_slice(&1_u32.to_le_bytes());
        snap_body.extend_from_slice(&0_u32.to_le_bytes());
        snap_body.extend_from_slice(&reg_nonzero_res);
        let rec_len = 4 + snap_body.len();
        buf.extend_from_slice(&(rec_len as u32).to_le_bytes());
        buf.push(4);
        buf.extend_from_slice(&[0; 3]);
        buf.extend_from_slice(&snap_body);
        buf.extend_from_slice(&create_v3_footer(1));
        let res = parse_trace_bytes(&buf);
        assert!(res.is_err());
        assert!(res
            .unwrap_err()
            .contains("nonzero descriptor reserved bytes"));
    }

    // label_len extending beyond record boundary
    {
        let mut buf = create_v3_header();
        let mut reg_bad_label =
            encode_test_region_raw(0x1000_0000, 0x2000_0000, 0, 0, 0, 0, 1, 1, [0, 0], b"test");
        reg_bad_label[44..48].copy_from_slice(&999_u32.to_le_bytes());
        let mut snap_body = Vec::new();
        snap_body.extend_from_slice(&1_u64.to_le_bytes());
        snap_body.extend_from_slice(&10_u32.to_le_bytes());
        snap_body.extend_from_slice(&1_u32.to_le_bytes());
        snap_body.extend_from_slice(&0_u32.to_le_bytes());
        snap_body.extend_from_slice(&reg_bad_label);
        let rec_len = 4 + snap_body.len();
        buf.extend_from_slice(&(rec_len as u32).to_le_bytes());
        buf.push(4);
        buf.extend_from_slice(&[0; 3]);
        buf.extend_from_slice(&snap_body);
        buf.extend_from_slice(&create_v3_footer(1));
        let res = parse_trace_bytes(&buf);
        assert!(res.is_err());
    }

    // Snapshot region_count inconsistent with encoded data
    {
        let mut buf = create_v3_header();
        let reg = encode_test_region_raw(0x1000_0000, 0x2000_0000, 0, 0, 0, 0, 1, 1, [0, 0], b"");
        let mut snap_body = Vec::new();
        snap_body.extend_from_slice(&1_u64.to_le_bytes());
        snap_body.extend_from_slice(&10_u32.to_le_bytes());
        snap_body.extend_from_slice(&2_u32.to_le_bytes()); // claims 2 regions, 1 provided
        snap_body.extend_from_slice(&0_u32.to_le_bytes());
        snap_body.extend_from_slice(&reg);
        let rec_len = 4 + snap_body.len();
        buf.extend_from_slice(&(rec_len as u32).to_le_bytes());
        buf.push(4);
        buf.extend_from_slice(&[0; 3]);
        buf.extend_from_slice(&snap_body);
        buf.extend_from_slice(&create_v3_footer(1));
        let res = parse_trace_bytes(&buf);
        assert!(res.is_err());
    }

    // Unknown V3 event kind
    {
        let mut buf = create_v3_header();
        let mut dummy_body = Vec::new();
        dummy_body.extend_from_slice(&1_u64.to_le_bytes()); // event_id = 1
        dummy_body.extend_from_slice(&10_u32.to_le_bytes()); // tid = 10
        let rec_len = 4 + dummy_body.len();
        buf.extend_from_slice(&(rec_len as u32).to_le_bytes());
        buf.push(99); // unknown event kind 99
        buf.extend_from_slice(&[0; 3]);
        buf.extend_from_slice(&dummy_body);
        buf.extend_from_slice(&create_v3_footer(1));
        let res = parse_trace_bytes(&buf);
        assert!(res.is_err());
        assert!(res.unwrap_err().contains("unknown event kind 99"));
    }

    // Delta referencing non-mapping syscall (e.g. SYS_getpid 39)
    {
        let mut buf = Vec::new();
        let mut writer = TraceWriter::new_v3(&mut buf).unwrap();
        writer
            .write_memory_map_snapshot(10, std::slice::from_ref(&valid_region))
            .unwrap();
        writer.write_syscall_enter(10, 39, [0; 6]).unwrap();
        let exit_id = writer.write_syscall_exit(10, 39, 10).unwrap();
        writer
            .write_memory_map_add(10, exit_id, &valid_region)
            .unwrap();
        writer.finish().unwrap();
        assert!(parse_trace_bytes(&buf).is_err());
    }

    // Delta ordering violation (Add before Remove for same source exit)
    {
        let mut buf = Vec::new();
        let mut writer = TraceWriter::new_v3(&mut buf).unwrap();
        writer
            .write_memory_map_snapshot(10, std::slice::from_ref(&valid_region))
            .unwrap();
        writer.write_syscall_enter(10, 9, [0; 6]).unwrap();
        let exit_id = writer.write_syscall_exit(10, 9, 0x1000_0000).unwrap();
        let new_region = MemoryRegion {
            start: 0x2000_0000,
            end: 0x2001_0000,
            prot_read: true,
            prot_write: true,
            prot_exec: false,
            shared: false,
            file_offset: 0,
            dev_major: 0,
            dev_minor: 0,
            inode: 0,
            label: Vec::new(),
        };
        writer
            .write_memory_map_add(10, exit_id, &new_region)
            .unwrap();
        writer
            .write_memory_map_remove(10, exit_id, &valid_region)
            .unwrap();
        writer.finish().unwrap();
        assert!(parse_trace_bytes(&buf).is_err());
    }

    // Delta referencing non-existent source_event_id
    {
        let mut buf = Vec::new();
        let mut writer = TraceWriter::new_v3(&mut buf).unwrap();
        writer
            .write_memory_map_snapshot(10, std::slice::from_ref(&valid_region))
            .unwrap();
        writer.write_syscall_enter(10, 9, [0; 6]).unwrap();
        writer.write_syscall_exit(10, 9, 0x1000_0000).unwrap();
        writer
            .write_memory_map_remove(10, 9999, &valid_region)
            .unwrap();
        writer.finish().unwrap();
        assert!(parse_trace_bytes(&buf).is_err());
    }

    // MemoryMapRemove for region not in current model
    {
        let mut buf = Vec::new();
        let mut writer = TraceWriter::new_v3(&mut buf).unwrap();
        writer
            .write_memory_map_snapshot(10, std::slice::from_ref(&valid_region))
            .unwrap();
        writer.write_syscall_enter(10, 9, [0; 6]).unwrap();
        let exit_id = writer.write_syscall_exit(10, 9, 0x1000_0000).unwrap();
        let non_existent_region = MemoryRegion {
            start: 0x9000_0000,
            end: 0x9001_0000,
            prot_read: true,
            prot_write: false,
            prot_exec: false,
            shared: false,
            file_offset: 0,
            dev_major: 0,
            dev_minor: 0,
            inode: 0,
            label: Vec::new(),
        };
        writer
            .write_memory_map_remove(10, exit_id, &non_existent_region)
            .unwrap();
        writer.finish().unwrap();
        assert!(parse_trace_bytes(&buf).is_err());
    }

    // MemoryMapAdd for overlapping region
    {
        let mut buf = Vec::new();
        let mut writer = TraceWriter::new_v3(&mut buf).unwrap();
        writer
            .write_memory_map_snapshot(10, std::slice::from_ref(&valid_region))
            .unwrap();
        writer.write_syscall_enter(10, 9, [0; 6]).unwrap();
        let exit_id = writer.write_syscall_exit(10, 9, 0x1000_0000).unwrap();
        let overlapping_region = MemoryRegion {
            start: 0x1000_8000,
            end: 0x1002_0000,
            prot_read: true,
            prot_write: true,
            prot_exec: false,
            shared: false,
            file_offset: 0,
            dev_major: 0,
            dev_minor: 0,
            inode: 0,
            label: Vec::new(),
        };
        writer
            .write_memory_map_add(10, exit_id, &overlapping_region)
            .unwrap();
        writer.finish().unwrap();
        assert!(parse_trace_bytes(&buf).is_err());
    }

    // Delta not contiguous with source exit
    {
        let mut buf = Vec::new();
        let mut writer = TraceWriter::new_v3(&mut buf).unwrap();
        writer
            .write_memory_map_snapshot(10, std::slice::from_ref(&valid_region))
            .unwrap();
        writer.write_syscall_enter(10, 9, [0; 6]).unwrap();
        let exit_id1 = writer.write_syscall_exit(10, 9, 0x1000_0000).unwrap();
        // Another syscall in between
        writer.write_syscall_enter(10, 39, [0; 6]).unwrap();
        writer.write_syscall_exit(10, 39, 10).unwrap();
        // Belated delta for first exit
        let new_region = MemoryRegion {
            start: 0x2000_0000,
            end: 0x2001_0000,
            prot_read: true,
            prot_write: true,
            prot_exec: false,
            shared: false,
            file_offset: 0,
            dev_major: 0,
            dev_minor: 0,
            inode: 0,
            label: Vec::new(),
        };
        writer
            .write_memory_map_add(10, exit_id1, &new_region)
            .unwrap();
        writer.finish().unwrap();
        assert!(parse_trace_bytes(&buf).is_err());
    }

    // Descriptor bounds start >= end
    {
        let invalid_bounds = MemoryRegion {
            start: 0x2000_0000,
            end: 0x1000_0000,
            prot_read: true,
            prot_write: false,
            prot_exec: false,
            shared: false,
            file_offset: 0,
            dev_major: 0,
            dev_minor: 0,
            inode: 0,
            label: Vec::new(),
        };
        assert!(invalid_bounds.validate().is_err());
    }

    // Descriptor unaligned start / end
    {
        let unaligned_start = MemoryRegion {
            start: 0x1000_0001,
            end: 0x1001_0000,
            prot_read: true,
            prot_write: false,
            prot_exec: false,
            shared: false,
            file_offset: 0,
            dev_major: 0,
            dev_minor: 0,
            inode: 0,
            label: Vec::new(),
        };
        assert!(unaligned_start.validate().is_err());

        let unaligned_end = MemoryRegion {
            start: 0x1000_0000,
            end: 0x1001_0001,
            prot_read: true,
            prot_write: false,
            prot_exec: false,
            shared: false,
            file_offset: 0,
            dev_major: 0,
            dev_minor: 0,
            inode: 0,
            label: Vec::new(),
        };
        assert!(unaligned_end.validate().is_err());
    }

    // Snapshot overlapping regions
    {
        let r_a = MemoryRegion {
            start: 0x1000_0000,
            end: 0x1002_0000,
            prot_read: true,
            prot_write: false,
            prot_exec: false,
            shared: false,
            file_offset: 0,
            dev_major: 0,
            dev_minor: 0,
            inode: 0,
            label: Vec::new(),
        };
        let r_b = MemoryRegion {
            start: 0x1001_0000,
            end: 0x1003_0000,
            prot_read: true,
            prot_write: false,
            prot_exec: false,
            shared: false,
            file_offset: 0,
            dev_major: 0,
            dev_minor: 0,
            inode: 0,
            label: Vec::new(),
        };
        assert!(validate_regions_canonical_order(&[r_a, r_b]).is_err());
    }
}
