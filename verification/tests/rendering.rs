use causal::maps::{parse_proc_maps, parse_proc_maps_bytes, MemoryRegion};
use causal::trace::{
    decode_region_descriptor, dump_line, dump_trace_bytes, encode_region_descriptor, TraceEvent,
    TraceWriter,
};

fn region(start: u64, end: u64, label: &[u8]) -> MemoryRegion {
    MemoryRegion {
        start,
        end,
        prot_read: true,
        prot_write: false,
        prot_exec: true,
        shared: false,
        file_offset: 0x1000,
        dev_major: 8,
        dev_minor: 1,
        inode: 4242,
        label: label.to_vec(),
    }
}

#[test]
fn maps_line_of_a_labelled_region() {
    let r = region(0x40_0000, 0x40_1000, b"/bin/true");
    assert_eq!(
        r.format_maps_line(),
        "00400000-00401000 r-xp 00001000 08:01 4242 /bin/true"
    );
    assert_eq!(
        r.maps_line("elsewhere"),
        "00400000-00401000 r-xp 00001000 08:01 4242 elsewhere"
    );
}

#[test]
fn maps_line_of_an_unlabelled_shared_region() {
    let mut r = region(0x7fff_0000_0000, 0x7fff_0001_0000, b"");
    r.prot_read = false;
    r.prot_write = true;
    r.prot_exec = false;
    r.shared = true;
    r.file_offset = 0;
    r.dev_major = 0xfd;
    r.dev_minor = 0x123;
    r.inode = 0;
    assert_eq!(
        r.format_maps_line(),
        "7fff00000000-7fff00010000 -w-s 00000000 fd:123 0"
    );
}

#[test]
fn maps_line_of_a_label_outside_utf8() {
    let r = region(0x1000, 0x2000, b"/a\xff");
    assert_eq!(
        r.format_maps_line(),
        "00001000-00002000 r-xp 00001000 08:01 4242 /a\u{fffd}"
    );
}

#[test]
fn maps_line_is_read_back() {
    let r = region(0x40_0000, 0x40_1000, b"/tmp/a file (deleted)");
    let line = r.format_maps_line();
    let model = parse_proc_maps(&line).unwrap();
    assert_eq!(model.regions(), std::slice::from_ref(&r));
}

#[test]
fn a_printed_map_is_read_back() {
    let regions = vec![
        region(0x1000, 0x3000, b""),
        region(0x3000, 0x4000, b"[heap]"),
        region(0x7fff_0000_0000, 0x7fff_0000_1000, "/tmp/\u{e9}\u{20ac} x".as_bytes()),
    ];
    let mut listing = String::new();
    for r in &regions {
        listing.push_str(&r.format_maps_line());
        listing.push('\n');
    }
    assert_eq!(parse_proc_maps(&listing).unwrap().regions(), regions.as_slice());
}

#[test]
fn proc_maps_lines_may_end_in_return_and_be_blank() {
    let text = b"\r\n  \t\n\t1000-2000\tr--p 0 0:0 0\r\n3000-4000 ---s +10 0:ff 7 [x] y\n";
    let model = parse_proc_maps_bytes(text).unwrap();
    assert_eq!(model.regions().len(), 2);
    assert_eq!(model.regions()[0].label, b"".to_vec());
    assert_eq!(model.regions()[1].file_offset, 0x10);
    assert_eq!(model.regions()[1].dev_minor, 0xff);
    assert_eq!(model.regions()[1].inode, 7);
    assert_eq!(model.regions()[1].label, b"[x] y".to_vec());
}

#[test]
fn proc_maps_errors_name_the_field() {
    let cases: Vec<(&[u8], &str)> = vec![
        (b"1000 r--p 0 0:0 0", "invalid range format in proc maps line"),
        (b"\xff-2000 r--p 0 0:0 0", "invalid start hex in proc maps line: "),
        (b"1000-\xff r--p 0 0:0 0", "invalid end hex in proc maps line: "),
        (b"-2000 r--p 0 0:0 0", "invalid start hex '': "),
        (b"1g-2000 r--p 0 0:0 0", "invalid start hex '1g': "),
        (
            b"1000-10000000000000000 r--p 0 0:0 0",
            "invalid end hex '10000000000000000': ",
        ),
        (b"1000-2000", "missing permissions field in proc maps line"),
        (
            b"1000-2000 r-x 0 0:0 0",
            "invalid permissions field length: expected 4 bytes, got 3",
        ),
        (b"1000-2000 q--p 0 0:0 0", "invalid read permission char 'q'"),
        (b"1000-2000 rq-p 0 0:0 0", "invalid write permission char 'q'"),
        (b"1000-2000 rwqp 0 0:0 0", "invalid exec permission char 'q'"),
        (b"1000-2000 rwxq 0 0:0 0", "invalid sharing char 'q'"),
        (b"1000-2000 rwx\xe9 0 0:0 0", "invalid sharing char '\u{e9}'"),
        (b"1000-2000 r--p", "missing file offset field in proc maps line"),
        (b"1000-2000 r--p \xff 0:0 0", "invalid offset hex in proc maps line: "),
        (b"1000-2000 r--p z 0:0 0", "invalid offset hex 'z': "),
        (b"1000-2000 r--p 0", "missing device field in proc maps line"),
        (b"1000-2000 r--p 0 00 0", "invalid dev format in proc maps line"),
        (b"1000-2000 r--p 0 \xff:0 0", "invalid dev major hex: "),
        (b"1000-2000 r--p 0 0:\xff 0", "invalid dev minor hex: "),
        (b"1000-2000 r--p 0 100000000:0 0", "invalid dev major hex '100000000': "),
        (b"1000-2000 r--p 0 0:x 0", "invalid dev minor hex 'x': "),
        (b"1000-2000 r--p 0 0:0", "missing inode field in proc maps line"),
        (b"1000-2000 r--p 0 0:0 \xff", "invalid inode in proc maps line: "),
        (b"1000-2000 r--p 0 0:0 1f", "invalid inode '1f': "),
        (
            b"2000-1000 r--p 0 0:0 0",
            "invalid region bounds: start 0x2000 >= end 0x1000",
        ),
    ];
    for (line, expected) in cases {
        let err = parse_proc_maps_bytes(line).unwrap_err();
        assert!(err.starts_with(expected), "{} / {}", err, expected);
    }
}

#[test]
fn descriptor_bytes() {
    let mut r = region(0x1000, 0x2000, b"ab");
    r.shared = true;
    let mut buf = vec![9_u8];
    encode_region_descriptor(&r, &mut buf);
    let mut expected = vec![9_u8];
    expected.extend_from_slice(&0x1000_u64.to_le_bytes());
    expected.extend_from_slice(&0x2000_u64.to_le_bytes());
    expected.extend_from_slice(&0x1000_u64.to_le_bytes());
    expected.extend_from_slice(&4242_u64.to_le_bytes());
    expected.extend_from_slice(&8_u32.to_le_bytes());
    expected.extend_from_slice(&1_u32.to_le_bytes());
    expected.extend_from_slice(&[5, 2, 0, 0]);
    expected.extend_from_slice(&2_u32.to_le_bytes());
    expected.extend_from_slice(b"ab");
    assert_eq!(buf, expected);

    let mut offset = 1;
    assert_eq!(decode_region_descriptor(&buf, &mut offset).unwrap(), r);
    assert_eq!(offset, buf.len());
}

#[test]
fn descriptor_errors_leave_the_offset_where_reading_stopped() {
    let mut good = Vec::new();
    encode_region_descriptor(&region(0x1000, 0x2000, b"abc"), &mut good);

    let mut offset = 0;
    assert_eq!(
        decode_region_descriptor(&good[..47], &mut offset).unwrap_err(),
        "truncated region descriptor header"
    );
    assert_eq!(offset, 0);

    let mut offset = usize::MAX;
    assert_eq!(
        decode_region_descriptor(&good, &mut offset).unwrap_err(),
        "truncated region descriptor header"
    );

    let mut bad = good.clone();
    bad[43] = 7;
    let mut offset = 0;
    assert_eq!(
        decode_region_descriptor(&bad, &mut offset).unwrap_err(),
        "nonzero descriptor reserved bytes: [0, 7]"
    );

    let mut bad = good.clone();
    bad[40] = 8;
    let mut offset = 0;
    assert_eq!(
        decode_region_descriptor(&bad, &mut offset).unwrap_err(),
        "invalid prot bits 8"
    );

    let mut bad = good.clone();
    bad[41] = 3;
    let mut offset = 0;
    assert_eq!(
        decode_region_descriptor(&bad, &mut offset).unwrap_err(),
        "invalid sharing byte 3"
    );

    let mut offset = 0;
    assert_eq!(
        decode_region_descriptor(&good[..50], &mut offset).unwrap_err(),
        "label length extends past descriptor boundary"
    );
    assert_eq!(offset, 48);

    let mut bad = good.clone();
    bad[0] = 1;
    let mut offset = 0;
    assert_eq!(
        decode_region_descriptor(&bad, &mut offset).unwrap_err(),
        "region start 0x1001 is not aligned to 4096-byte page boundary"
    );
    assert_eq!(offset, 51);
}

#[test]
fn dump_lines_of_all_events() {
    let r = region(0x1000, 0x2000, b"[heap]");
    assert_eq!(
        dump_line(&TraceEvent::SyscallEnter {
            event_id: 7,
            tid: 12,
            number: 1,
            args: [1, 2, 3, 4, 5, u64::MAX],
        }),
        "000007 syscall-enter tid=12 nr=1 args=[1, 2, 3, 4, 5, 18446744073709551615]"
    );
    assert_eq!(
        dump_line(&TraceEvent::SyscallExit {
            event_id: 1234567,
            tid: 12,
            number: 1,
            result: i64::MIN,
        }),
        "1234567 syscall-exit  tid=12 nr=1 result=-9223372036854775808"
    );
    assert_eq!(
        dump_line(&TraceEvent::KernelMemoryWrite {
            event_id: 3,
            tid: 12,
            source_event_id: 2,
            recorded_address: 0x7ffd,
            data: (0..32).collect(),
        }),
        "000003 kernel-memory-write tid=12 source=000002 addr=0x7ffd len=32 data_hex=000102030405060708090a0b0c0d0e0f101112131415161718191a1b1c1d1e1f"
    );
    assert_eq!(
        dump_line(&TraceEvent::KernelMemoryWrite {
            event_id: 3,
            tid: 12,
            source_event_id: 2,
            recorded_address: 0,
            data: vec![0xab; 33],
        }),
        "000003 kernel-memory-write tid=12 source=000002 addr=0x0 len=33 data_hex=abababababababababababababababab..."
    );
    assert_eq!(
        dump_line(&TraceEvent::MemoryMapSnapshot {
            event_id: 1,
            tid: 12,
            regions: vec![r.clone(), region(0x2000, 0x3000, b"")],
        }),
        "000001 memory-map-snapshot tid=12 regions=2"
    );
    assert_eq!(
        dump_line(&TraceEvent::MemoryMapAdd {
            event_id: 5,
            tid: 12,
            source_event_id: 4,
            region: r.clone(),
        }),
        "000005 memory-map-add    tid=12 source=000004 00001000-00002000 r-xp 00001000 08:01 4242 [heap]"
    );
    assert_eq!(
        dump_line(&TraceEvent::MemoryMapRemove {
            event_id: 5,
            tid: 12,
            source_event_id: 4,
            region: r,
        }),
        "000005 memory-map-remove tid=12 source=000004 00001000-00002000 r-xp 00001000 08:01 4242 [heap]"
    );
    assert_eq!(
        dump_line(&TraceEvent::SignalDelivery {
            event_id: 6,
            tid: 12,
            signal_number: 10,
            si_errno: 0,
            si_code: -6,
            siginfo_bytes: vec![0; 128],
        }),
        "000006 signal-delivery tid=12 sig=10 code=-6 errno=0 siginfo_len=128"
    );
}

#[test]
fn dump_of_a_trace_and_of_no_trace() {
    let mut buf = Vec::new();
    let mut writer = TraceWriter::new_v1(&mut buf).unwrap();
    writer.write_syscall_enter(9, 39, [0; 6]).unwrap();
    writer.write_syscall_exit(9, 39, 9).unwrap();
    writer.finish().unwrap();
    assert_eq!(
        dump_trace_bytes(&buf).unwrap(),
        vec![
            "000001 syscall-enter tid=9 nr=39 args=[0, 0, 0, 0, 0, 0]".to_string(),
            "000002 syscall-exit  tid=9 nr=39 result=9".to_string(),
        ]
    );
    assert_eq!(
        dump_trace_bytes(&buf[..31]).unwrap_err(),
        "incomplete trace: size 31 bytes is smaller than minimum header + footer size (32 bytes)"
    );
}
