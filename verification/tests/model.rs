use causal::maps::{MemoryMapModel, MemoryRegion};

fn region(start: u64, end: u64, label: &[u8]) -> MemoryRegion {
    MemoryRegion {
        start,
        end,
        prot_read: true,
        prot_write: true,
        prot_exec: false,
        shared: false,
        file_offset: 0,
        dev_major: 0,
        dev_minor: 0,
        inode: 0,
        label: label.to_vec(),
    }
}

fn model(regions: &[MemoryRegion]) -> MemoryMapModel {
    MemoryMapModel::from_canonical_regions(regions.to_vec()).unwrap()
}

#[test]
fn sorting_is_by_start_then_end_and_keeps_ties_in_order() {
    let err = MemoryMapModel::new(vec![
        region(0x3000, 0x5000, b"x"),
        region(0x1000, 0x2000, b"y"),
        region(0x3000, 0x4000, b"z"),
    ])
    .unwrap_err();
    assert_eq!(
        err,
        "non-canonical snapshot ordering: region start 0x3000 is not strictly less than subsequent region start 0x3000"
    );
    let sorted = MemoryMapModel::new(vec![
        region(0x3000, 0x4000, b"c"),
        region(0x1000, 0x2000, b"a"),
        region(0x2000, 0x3000, b"b"),
    ])
    .unwrap();
    let labels: Vec<&[u8]> = sorted.regions().iter().map(|r| r.label.as_slice()).collect();
    assert_eq!(labels, vec![b"a".as_slice(), b"b".as_slice(), b"c".as_slice()]);
}

#[test]
fn invalid_regions_are_named_before_disorder() {
    let err = MemoryMapModel::from_canonical_regions(vec![
        region(0x5000, 0x6000, b""),
        region(0x1000, 0x2001, b""),
    ])
    .unwrap_err();
    assert_eq!(
        err,
        "region end 0x2001 is not aligned to 4096-byte page boundary"
    );
    let err = MemoryMapModel::from_canonical_regions(vec![
        region(0x1000, 0x3000, b""),
        region(0x2000, 0x4000, b""),
    ])
    .unwrap_err();
    assert_eq!(
        err,
        "overlapping regions detected: [0x1000, 0x3000) overlaps with [0x2000, 0x4000)"
    );
}

#[test]
fn an_address_is_found_in_its_region_alone() {
    let m = model(&[
        region(0x1000, 0x2000, b"a"),
        region(0x2000, 0x3000, b"b"),
        region(0x5000, 0x6000, b"c"),
    ]);
    assert_eq!(m.region_containing(0x1fff).unwrap().label, b"a".to_vec());
    assert_eq!(m.region_containing(0x2000).unwrap().label, b"b".to_vec());
    assert_eq!(m.region_containing(0x5fff).unwrap().label, b"c".to_vec());
    assert!(m.region_containing(0x3000).is_none());
    assert!(m.region_containing(0x0fff).is_none());
    assert!(!m.contains_address(0x6000));
    assert!(m.contains_address(0x5000));
}

#[test]
fn removal_undoes_addition_and_addition_removal() {
    let before = model(&[region(0x1000, 0x2000, b"a"), region(0x4000, 0x5000, b"b")]);
    let mut m = before.clone();
    m.apply_add(region(0x2000, 0x4000, b"new")).unwrap();
    assert_eq!(m.regions()[1].label, b"new".to_vec());
    m.apply_remove(&region(0x2000, 0x4000, b"other label")).unwrap();
    assert_eq!(m, before);

    m.apply_remove(&region(0x1000, 0x2000, b"a")).unwrap();
    assert_eq!(m.regions().len(), 1);
    m.apply_add(region(0x1000, 0x2000, b"a")).unwrap();
    assert_eq!(m, before);
}

#[test]
fn failed_operations_leave_the_map_alone() {
    let before = model(&[region(0x1000, 0x2000, b"a"), region(0x4000, 0x5000, b"b")]);
    let mut m = before.clone();
    assert_eq!(
        m.apply_add(region(0x1000, 0x1000, b"")).unwrap_err(),
        "invalid region bounds: start 0x1000 >= end 0x1000"
    );
    assert_eq!(
        m.apply_add(region(0x1000, 0x5000, b"")).unwrap_err(),
        "semantic error: attempt to add region [0x1000, 0x5000) which overlaps with existing [0x1000, 0x2000)"
    );
    let mut other = region(0x1000, 0x2000, b"a");
    other.prot_exec = true;
    assert_eq!(
        m.apply_remove(&other).unwrap_err(),
        "semantic error: attempt to remove non-existent memory region [0x1000, 0x2000)"
    );
    assert_eq!(m, before);
}

#[test]
fn a_difference_leads_to_the_new_map() {
    let old = model(&[
        region(0x1000, 0x2000, b"a"),
        region(0x3000, 0x6000, b"b"),
        region(0x7000, 0x8000, b"c"),
    ]);
    let new = model(&[
        region(0x1000, 0x2000, b"a"),
        region(0x3000, 0x4000, b"b"),
        region(0x4000, 0x5000, b"d"),
        region(0x9000, 0xa000, b"e"),
    ]);
    let (removes, adds) = old.diff(&new);
    assert_eq!(removes, vec![region(0x3000, 0x6000, b"b"), region(0x7000, 0x8000, b"c")]);
    assert_eq!(adds.len(), 3);
    let mut m = old.clone();
    for r in &removes {
        m.apply_remove(r).unwrap();
    }
    for r in adds {
        m.apply_add(r).unwrap();
    }
    assert_eq!(m, new);
}

#[test]
fn a_difference_ignores_labels() {
    let old = model(&[region(0x1000, 0x2000, b"old name")]);
    let new = model(&[region(0x1000, 0x2000, b"new name")]);
    let (removes, adds) = old.diff(&new);
    assert!(removes.is_empty());
    assert!(adds.is_empty());
    assert_ne!(old, new);
}

#[test]
fn protection_and_sharing_codes() {
    let mut r = region(0x1000, 0x2000, b"");
    assert_eq!(r.prot_bits(), 3);
    assert_eq!(r.sharing_byte(), 1);
    r.prot_read = false;
    r.prot_write = false;
    r.prot_exec = true;
    r.shared = true;
    assert_eq!(r.prot_bits(), 4);
    assert_eq!(r.sharing_byte(), 2);
    assert_eq!(MemoryRegion::PAGE_SIZE, 4096);
}
