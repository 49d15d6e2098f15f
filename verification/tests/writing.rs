use causal::maps::{parse_proc_maps, parse_proc_maps_bytes, MemoryMapModel, MemoryRegion};
use causal::trace::{parse_trace_bytes, TraceWriter};

fn region(start: u64, end: u64, label: &str) -> MemoryRegion {
    MemoryRegion {
        start,
        end,
        prot_read: true,
        prot_write: true,
        prot_exec: false,
        shared: false,
        file_offset: 0,
        dev_major: 8,
        dev_minor: 1,
        inode: 77,
        label: label.as_bytes().to_vec(),
    }
}

#[test]
fn a_printed_map_reads_back_in_any_order() {
    let a = region(0x1000, 0x2000, "/usr/lib/a b.so");
    let b = region(0x2000, 0x3000, "");
    let c = region(0x5000, 0x7000, "[heap]");
    let map = MemoryMapModel::new(vec![a.clone(), b.clone(), c.clone()]).unwrap();
    for order in [[&a, &b, &c], [&c, &a, &b], [&b, &c, &a], [&c, &b, &a]] {
        let lines: Vec<String> = order.iter().map(|r| r.format_maps_line()).collect();
        let text = lines.join("\n");
        assert_eq!(parse_proc_maps(&text).unwrap(), map);
        let text = text + "\n";
        assert_eq!(parse_proc_maps(&text).unwrap(), map);
        assert_eq!(parse_proc_maps_bytes(text.as_bytes()).unwrap(), map);
    }
    let empty = MemoryMapModel::new(Vec::new()).unwrap();
    assert_eq!(parse_proc_maps("").unwrap(), empty);
    assert_eq!(parse_proc_maps("\n").unwrap(), empty);
}

#[test]
fn refused_events_take_no_number() {
    let mut buf = Vec::new();
    let mut w = TraceWriter::new_v1(&mut buf).unwrap();
    assert_eq!(w.write_syscall_enter(5, 0, [0; 6]).unwrap(), 1);
    assert!(w.write_kernel_memory_write(5, 1, 0, b"x").is_err());
    assert!(w.write_memory_map_snapshot(5, &[]).is_err());
    assert_eq!(w.write_syscall_exit(5, 0, 0).unwrap(), 2);
    assert!(w.write_signal_delivery(5, 10, 0, 0, &[0; 128]).is_err());
    assert_eq!(w.write_syscall_enter(5, 0x0102, [0; 6]).unwrap(), 3);
    w.finish().unwrap();
    // A header of 16 bytes, records of 76, 36 and 76, and a footer of 16.
    assert_eq!(buf.len(), 16 + 76 + 36 + 76 + 16);
    for (at, id) in [(16, 1u64), (92, 2), (128, 3)] {
        assert_eq!(buf[at + 8..at + 16], id.to_le_bytes());
    }
    assert_eq!(parse_trace_bytes(&buf).unwrap().len(), 3);
}

#[test]
fn additions_and_removals_differ_in_kind() {
    let r = region(0x1000, 0x2000, "[stack]");
    let mut added = Vec::new();
    let mut w = TraceWriter::new_v3(&mut added).unwrap();
    assert_eq!(w.write_memory_map_add(7, 9, &r).unwrap(), 1);
    let mut removed = Vec::new();
    let mut w = TraceWriter::new_v3(&mut removed).unwrap();
    assert_eq!(w.write_memory_map_remove(7, 9, &r).unwrap(), 1);
    assert_eq!(added.len(), 16 + 76 + 7);
    assert_eq!(added[20], 5);
    assert_eq!(removed[20], 6);
    removed[20] = 5;
    assert_eq!(added, removed);

    for version in [1, 2] {
        let mut buf = Vec::new();
        let mut w = TraceWriter::new_with_version(&mut buf, version).unwrap();
        assert!(w.write_memory_map_add(7, 9, &r).is_err());
        assert!(w.write_memory_map_remove(7, 9, &r).is_err());
        assert_eq!(buf.len(), 16);
    }
}

#[test]
fn a_finished_trace_stays_as_it_is() {
    let mut buf = Vec::new();
    let mut w = TraceWriter::new_v1(&mut buf).unwrap();
    w.write_syscall_enter(1, 60, [0; 6]).unwrap();
    assert!(w.write_kernel_memory_write(1, 1, 0, b"x").is_err());
    w.finish().unwrap();
    let done = w.writer.clone();
    assert_eq!(done[92..], *b"\x01\0\0\0\0\0\0\0CAUSEND\0");
    w.finish().unwrap();
    assert_eq!(*w.writer, done);
    assert!(w.write_syscall_enter(1, 60, [0; 6]).is_err());
    assert!(w.write_syscall_exit(1, 60, 0).is_err());
    assert!(w.write_kernel_memory_write(1, 1, 0, b"x").is_err());
    assert!(w.write_memory_map_snapshot(1, &[]).is_err());
    assert!(w.write_memory_map_add(1, 1, &region(0x1000, 0x2000, "")).is_err());
    assert!(w.write_memory_map_remove(1, 1, &region(0x1000, 0x2000, "")).is_err());
    assert!(w.write_signal_delivery(1, 10, 0, 0, &[0; 128]).is_err());
    w.finish().unwrap();
    assert_eq!(buf, done);
}

#[test]
fn no_trace_begins_another() {
    let mut buf = Vec::new();
    let mut w = TraceWriter::new_v2(&mut buf).unwrap();
    assert!(parse_trace_bytes(w.writer).is_err());
    w.write_syscall_enter(1, 0, [3, 0x9000, 16, 0, 0, 0]).unwrap();
    w.write_syscall_exit(1, 0, 16).unwrap();
    // Data that looks like the footer of a shorter trace.
    w.write_kernel_memory_write(1, 2, 0x9000, b"\x02\0\0\0\0\0\0\0CAUSEND\0").unwrap();
    assert!(parse_trace_bytes(w.writer).is_err());
    w.finish().unwrap();
    assert_eq!(parse_trace_bytes(&buf).unwrap().len(), 3);
    for n in 0..buf.len() {
        assert!(parse_trace_bytes(&buf[..n]).is_err());
    }
    let footer = buf[buf.len() - 16..].to_vec();
    for more in [vec![0], footer, buf.clone()] {
        let longer = [buf.clone(), more].concat();
        assert!(parse_trace_bytes(&longer).is_err());
    }
}

#[test]
fn maps_with_the_same_mappings_do_not_differ() {
    let a = MemoryMapModel::new(vec![region(0x1000, 0x2000, "a"), region(0x3000, 0x4000, "")])
        .unwrap();
    let b = MemoryMapModel::new(vec![region(0x3000, 0x4000, "b"), region(0x1000, 0x2000, "")])
        .unwrap();
    let c = MemoryMapModel::new(vec![region(0x1000, 0x2000, "a"), region(0x3000, 0x5000, "")])
        .unwrap();
    assert_eq!(a.diff(&b), (Vec::new(), Vec::new()));
    assert_eq!(
        a.diff(&c),
        (vec![region(0x3000, 0x4000, "")], vec![region(0x3000, 0x5000, "")])
    );
}
