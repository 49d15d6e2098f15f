//! What regions and maps are: the fields that make a mapping, the addresses it covers, and the
//! regions that come and go.
use vstd::prelude::*;
use crate::maps::{MemoryMapModel, MemoryRegion, Region};

verus! {

/// The regions agree in everything but the label.
pub open spec fn twin(a: Region, b: Region) -> bool {
    &&& a.start == b.start
    &&& a.end == b.end
    &&& a.prot_read == b.prot_read
    &&& a.prot_write == b.prot_write
    &&& a.prot_exec == b.prot_exec
    &&& a.shared == b.shared
    &&& a.file_offset == b.file_offset
    &&& a.dev_major == b.dev_major
    &&& a.dev_minor == b.dev_minor
    &&& a.inode == b.inode
}

/// The region begins at the address or before it, and ends behind it.
pub open spec fn covers(r: Region, addr: int) -> bool {
    r.start <= addr < r.end
}

/// Some address lies in both regions.
pub open spec fn meet(a: Region, b: Region) -> bool {
    exists|addr: int| #[trigger] covers(a, addr) && covers(b, addr)
}

/// The bounds enclose whole pages, at least one.
pub open spec fn whole_pages(r: Region) -> bool {
    r.start < r.end && r.start % 4096 == 0 && r.end % 4096 == 0
}

/// Regions of whole pages, in address order, of which no two meet.
pub open spec fn tidy(s: Seq<Region>) -> bool {
    &&& forall|i: int| 0 <= i < s.len() ==> whole_pages(#[trigger] s[i])
    &&& forall|i: int, j: int|
        0 <= i < j < s.len() ==> (#[trigger] s[i]).end <= (#[trigger] s[j]).start
}

/// A map has a region with the fields of `x`, label aside.
pub open spec fn maps_it(s: Seq<Region>, x: Region) -> bool {
    exists|k: int| 0 <= k < s.len() && twin(#[trigger] s[k], x)
}

/// A region stands for its fields.
pub proof fn law_region_is_its_fields(r: MemoryRegion)
    ensures
        r@.start == r.start,
        r@.end == r.end,
        r@.prot_read == r.prot_read,
        r@.prot_write == r.prot_write,
        r@.prot_exec == r.prot_exec,
        r@.shared == r.shared,
        r@.file_offset == r.file_offset,
        r@.dev_major == r.dev_major,
        r@.dev_minor == r.dev_minor,
        r@.inode == r.inode,
        r@.label == r.label@,
{
}

/// Two regions are the same mapping exactly when bounds, permissions, sharing, offset, device
/// and inode are each the same.
pub proof fn law_same_mapping_is_same_fields(a: MemoryRegion, b: MemoryRegion, r: bool)
    requires
        call_ensures(MemoryRegion::canonical_eq, (&a, &b), r),
    ensures
        r <==> a.start == b.start && a.end == b.end && a.prot_read == b.prot_read && a.prot_write
            == b.prot_write && a.prot_exec == b.prot_exec && a.shared == b.shared && a.file_offset
            == b.file_offset && a.dev_major == b.dev_major && a.dev_minor == b.dev_minor && a.inode
            == b.inode,
{
    lemma_twin(a@, b@);
}

pub proof fn lemma_twin(a: Region, b: Region)
    ensures
        a.same_vma(b) <==> twin(a, b),
{
    if twin(a, b) {
        assert(a =~= (Region { label: a.label, ..b }));
    }
}

pub proof fn lemma_tidy(s: Seq<Region>)
    ensures
        crate::maps::canonical(s) <==> tidy(s),
{
    assert forall|i: int| 0 <= i < s.len() implies (#[trigger] s[i]).valid() == whole_pages(
        s[i],
    ) by {}
    if tidy(s) {
        assert forall|i: int| 0 <= i < s.len() implies (#[trigger] s[i]).valid() by {
            assert(whole_pages(s[i]));
        }
    }
    if crate::maps::canonical(s) {
        assert forall|i: int| 0 <= i < s.len() implies whole_pages(#[trigger] s[i]) by {
            assert(s[i].valid());
        }
    }
}

/// A region is valid exactly when it encloses whole pages, at least one.
pub proof fn law_valid_regions_are_whole_pages(r: MemoryRegion, x: Result<(), String>)
    requires
        call_ensures(MemoryRegion::validate, (&r,), x),
    ensures
        x is Ok <==> r.start < r.end && r.start % 4096 == 0 && r.end % 4096 == 0,
{
}

/// Bit 0 of the protection is reading, bit 1 writing, bit 2 execution; there is no other.
pub proof fn law_protection_bits(r: MemoryRegion, bits: u8)
    requires
        call_ensures(MemoryRegion::prot_bits, (&r,), bits),
    ensures
        bits < 8,
        (bits % 2 == 1) == r.prot_read,
        (bits / 2 % 2 == 1) == r.prot_write,
        (bits / 4 % 2 == 1) == r.prot_exec,
{
}

/// A private mapping is marked 1, a shared one 2.
pub proof fn law_sharing_marks(r: MemoryRegion, mark: u8)
    requires
        call_ensures(MemoryRegion::sharing_byte, (&r,), mark),
    ensures
        r.shared ==> mark == 2,
        !r.shared ==> mark == 1,
{
}

/// Regions of whole pages overlap exactly when an address lies in both.
pub proof fn law_overlap_is_a_common_address(a: Region, b: Region)
    requires
        whole_pages(a),
        whole_pages(b),
    ensures
        a.overlaps(b) <==> meet(a, b),
{
    if a.overlaps(b) {
        let addr: int = if a.start >= b.start {
            a.start as int
        } else {
            b.start as int
        };
        assert(covers(a, addr) && covers(b, addr));
    }
}

/// Looking an address up finds the region with `start <= addr < end`, and nothing exactly when
/// no region of the map covers it.
pub proof fn law_lookup_finds_the_covering_region(
    m: MemoryMapModel,
    regions: &[MemoryRegion],
    addr: u64,
    found: Option<&MemoryRegion>,
    covered: bool,
)
    requires
        call_ensures(MemoryMapModel::regions, (&m,), regions),
        call_ensures(MemoryMapModel::region_containing, (&m, addr), found),
        call_ensures(MemoryMapModel::contains_address, (&m, addr), covered),
    ensures
        covered == (found is Some),
        match found {
            Some(r) => {
                &&& r.start <= addr < r.end
                &&& exists|k: int| 0 <= k < regions@.len() && (#[trigger] regions@[k])@ == r@
            },
            None => forall|k: int|
                0 <= k < regions@.len() ==> !((#[trigger] regions@[k]).start <= addr
                    < regions@[k].end),
        },
{
    let s = m@;
    assert(s == crate::maps::region_views(regions@));
    match found {
        Some(r) => {
            let k = choose|k: int|
                0 <= k < s.len() && (#[trigger] s[k]) == r@ && r@.contains(addr);
            assert(regions@[k]@ == s[k]);
            assert(s[k].contains(addr));
        },
        None => {
            assert(!crate::model::covered(s, addr));
            assert forall|k: int| 0 <= k < regions@.len() implies !((
            #[trigger] regions@[k]).start <= addr < regions@[k].end) by {
                assert(s[k] == regions@[k]@);
                assert(!s[k].contains(addr));
            }
        },
    }
}

/// Putting a region in succeeds exactly when it encloses whole pages and meets no region of the
/// map. The map then has that region besides those it had, and is still in order.
pub proof fn law_adding_a_region(s: Seq<Region>, r: Region)
    requires
        tidy(s),
    ensures
        crate::model::added(s, r) is Ok <==> whole_pages(r) && forall|k: int|
            0 <= k < s.len() ==> !meet(#[trigger] s[k], r),
        crate::model::added(s, r) is Ok ==> {
            let t = crate::model::added(s, r)->Ok_0;
            tidy(t) && t.to_multiset() == s.to_multiset().insert(r)
        },
{
    broadcast use vstd::seq_lib::group_to_multiset_ensures;

    lemma_tidy(s);
    crate::model::lemma_overlap_position(s, r, 0);
    if whole_pages(r) {
        assert forall|k: int| 0 <= k < s.len() implies r.overlaps(#[trigger] s[k]) == meet(
            s[k],
            r,
        ) by {
            assert(whole_pages(s[k]));
            law_overlap_is_a_common_address(r, s[k]);
            if meet(s[k], r) {
                let addr = choose|addr: int| #[trigger] covers(s[k], addr) && covers(r, addr);
                assert(covers(r, addr) && covers(s[k], addr));
            }
            if meet(r, s[k]) {
                let addr = choose|addr: int| #[trigger] covers(r, addr) && covers(s[k], addr);
                assert(covers(s[k], addr) && covers(r, addr));
            }
        }
        if crate::model::overlap_position(s, r, 0) is Some {
            let k = crate::model::overlap_position(s, r, 0)->0;
            assert(r.overlaps(s[k]));
            assert(meet(s[k], r));
        }
    }
    if crate::model::added(s, r) is Ok {
        crate::model::law_operations_keep_canonical(s, r);
        lemma_tidy(crate::model::added(s, r)->Ok_0);
        crate::model::lemma_insert_canonical(s, r);
        let t = crate::model::inserted(s, r);
        let p = choose|p: int| 0 <= p <= s.len() && t == #[trigger] s.insert(p, r);
        vstd::seq_lib::to_multiset_insert(s, p, r);
    }
}

/// Taking a region out succeeds exactly when the map has one with the same fields, label aside,
/// and leaves the other regions as they are.
pub proof fn law_removing_a_region(s: Seq<Region>, r: Region)
    requires
        tidy(s),
    ensures
        crate::model::removed(s, r) is Ok <==> maps_it(s, r),
        crate::model::removed(s, r) is Ok ==> exists|k: int|
            0 <= k < s.len() && twin(#[trigger] s[k], r) && crate::model::removed(s, r)->Ok_0
                == s.remove(k),
{
    crate::model::lemma_vma_position(s, r, 0);
    if maps_it(s, r) {
        let k = choose|k: int| 0 <= k < s.len() && twin(#[trigger] s[k], r);
        lemma_twin(s[k], r);
    }
    if crate::model::removed(s, r) is Ok {
        let k = crate::model::vma_position(s, r, 0)->0;
        lemma_twin(s[k], r);
    }
}

proof fn lemma_order(s: Seq<Region>)
    ensures
        crate::maps::order_complaint(s) is None <==> tidy(s),
{
    crate::maps::lemma_order_complaint(s);
    lemma_tidy(s);
}

/// Regions are in canonical order exactly when they enclose whole pages and each ends before
/// the next begins; a map can then be made of them as they are.
pub proof fn law_canonical_regions_are_tidy(
    slice: &[MemoryRegion],
    checked: Result<(), String>,
    regions: Vec<MemoryRegion>,
    made: Result<MemoryMapModel, String>,
    listed: &[MemoryRegion],
)
    requires
        call_ensures(crate::maps::validate_regions_canonical_order, (slice,), checked),
        call_ensures(MemoryMapModel::from_canonical_regions, (regions,), made),
        made is Ok ==> call_ensures(MemoryMapModel::regions, (&made->Ok_0,), listed),
    ensures
        checked is Ok <==> tidy(crate::maps::region_views(slice@)),
        made is Ok <==> tidy(crate::maps::region_views(regions@)),
        made is Ok ==> crate::maps::region_views(listed@) == crate::maps::region_views(regions@),
{
    lemma_order(crate::maps::region_views(slice@));
    lemma_order(crate::maps::region_views(regions@));
}

/// Regions of whole pages, of which no two meet, stay so in whatever order they come.
proof fn lemma_apart(s: Seq<Region>, t: Seq<Region>)
    requires
        s.to_multiset() == t.to_multiset(),
        forall|i: int| 0 <= i < s.len() ==> whole_pages(#[trigger] s[i]),
        forall|i: int, j: int|
            0 <= i < j < s.len() ==> !meet(#[trigger] s[i], #[trigger] s[j]),
    ensures
        forall|i: int| 0 <= i < t.len() ==> whole_pages(#[trigger] t[i]),
        forall|i: int, j: int|
            0 <= i < j < t.len() ==> !meet(#[trigger] t[i], #[trigger] t[j]),
{
    broadcast use vstd::seq_lib::group_to_multiset_ensures;

    assert forall|i: int| 0 <= i < t.len() implies whole_pages(#[trigger] t[i]) by {
        assert(t.contains(t[i]));
        assert(t.to_multiset().count(t[i]) > 0);
        assert(s.contains(t[i]));
    }
    assert forall|i: int, j: int| 0 <= i < j < t.len() implies !meet(
        #[trigger] t[i],
        #[trigger] t[j],
    ) by {
        if meet(t[i], t[j]) {
            let x = t[i];
            let y = t[j];
            assert(t.contains(x) && t.contains(y));
            assert(t.to_multiset().count(x) > 0 && t.to_multiset().count(y) > 0);
            assert(s.contains(x) && s.contains(y));
            let a = choose|a: int| 0 <= a < s.len() && s[a] == x;
            let b = choose|b: int| 0 <= b < s.len() && s[b] == y;
            let addr = choose|addr: int| #[trigger] covers(x, addr) && covers(y, addr);
            assert(covers(y, addr) && covers(x, addr));
            if a == b {
                lemma_twice(t, i, j);
                lemma_twice_back(s, x);
                let (c, d) = choose|c: int, d: int|
                    0 <= c < d < s.len() && #[trigger] s[c] == x && #[trigger] s[d] == x;
                assert(covers(s[c], addr) && covers(s[d], addr));
                assert(!meet(s[c], s[d]));
            } else if a < b {
                assert(!meet(s[a], s[b]));
            } else {
                assert(!meet(s[b], s[a]));
            }
        }
    }
}

proof fn lemma_twice(t: Seq<Region>, i: int, j: int)
    requires
        0 <= i < j < t.len(),
        t[i] == t[j],
    ensures
        t.to_multiset().count(t[i]) >= 2,
{
    broadcast use vstd::seq_lib::group_to_multiset_ensures;

    let d = t.remove(j);
    assert(d[i] == t[i]);
    assert(d.contains(t[i]));
    assert(d.to_multiset().count(t[i]) > 0);
    assert(t.to_multiset().contains(t[j])) by {
        assert(t.contains(t[j]));
    }
    assert(d.to_multiset() =~= t.to_multiset().remove(t[j]));
}

proof fn lemma_twice_back(s: Seq<Region>, x: Region)
    requires
        s.to_multiset().count(x) >= 2,
    ensures
        exists|c: int, d: int|
            0 <= c < d < s.len() && #[trigger] s[c] == x && #[trigger] s[d] == x,
{
    broadcast use vstd::seq_lib::group_to_multiset_ensures;

    assert(s.contains(x));
    let a = choose|a: int| 0 <= a < s.len() && s[a] == x;
    let d = s.remove(a);
    assert(d.to_multiset() =~= s.to_multiset().remove(x));
    assert(d.to_multiset().count(x) > 0);
    assert(d.contains(x));
    let b = choose|b: int| 0 <= b < d.len() && d[b] == x;
    let bb = if b < a { b } else { b + 1 };
    assert(s[bb] == x);
    if a < bb {
        assert(s[a] == x && s[bb] == x);
    } else {
        assert(s[bb] == x && s[a] == x);
    }
}

/// A map can be made of regions exactly when each encloses whole pages and no two of them meet,
/// in whatever order they come; it lists the same regions, in address order.
pub proof fn law_making_a_map(
    regions: Vec<MemoryRegion>,
    made: Result<MemoryMapModel, String>,
    listed: &[MemoryRegion],
)
    requires
        call_ensures(MemoryMapModel::new, (regions,), made),
        made is Ok ==> call_ensures(MemoryMapModel::regions, (&made->Ok_0,), listed),
    ensures
        ({
            let s = crate::maps::region_views(regions@);
            &&& made is Ok <==> (forall|i: int|
                0 <= i < s.len() ==> whole_pages(#[trigger] s[i])) && (forall|i: int, j: int|
                0 <= i < j < s.len() ==> !meet(#[trigger] s[i], #[trigger] s[j]))
            &&& made is Ok ==> {
                let t = crate::maps::region_views(listed@);
                tidy(t) && t.to_multiset() == s.to_multiset()
            }
        }),
{
    lemma_made(crate::maps::region_views(regions@));
}

/// Sorting regions gives a map exactly when each encloses whole pages and no two meet.
pub proof fn lemma_made(s: Seq<Region>)
    ensures
        crate::maps::order_complaint(crate::model::address_sorted(s)) is None <==> (forall|i: int|
            0 <= i < s.len() ==> whole_pages(#[trigger] s[i])) && (forall|i: int, j: int|
            0 <= i < j < s.len() ==> !meet(#[trigger] s[i], #[trigger] s[j])),
        crate::maps::order_complaint(crate::model::address_sorted(s)) is None ==> tidy(
            crate::model::address_sorted(s),
        ),
        crate::model::address_sorted(s).to_multiset() == s.to_multiset(),
{
    let t = crate::model::address_sorted(s);
    crate::model::law_sorting_permutes(s);
    lemma_order(t);
    if tidy(t) {
        assert forall|i: int, j: int| 0 <= i < j < t.len() implies !meet(
            #[trigger] t[i],
            #[trigger] t[j],
        ) by {
            assert(t[i].end <= t[j].start);
        }
        lemma_apart(t, s);
    }
    if (forall|i: int| 0 <= i < s.len() ==> whole_pages(#[trigger] s[i])) && (forall|
        i: int,
        j: int,
    |
        0 <= i < j < s.len() ==> !meet(#[trigger] s[i], #[trigger] s[j])) {
        lemma_apart(s, t);
        assert forall|i: int, j: int| 0 <= i < j < t.len() implies (#[trigger] t[i]).end <= (
        #[trigger] t[j]).start by {
            assert(t[i].before_or_equal(t[j]));
            assert(whole_pages(t[i]) && whole_pages(t[j]));
            assert(!meet(t[i], t[j]));
            if t[i].end > t[j].start {
                assert(covers(t[i], t[j].start as int) && covers(t[j], t[j].start as int));
            }
        }
        assert(tidy(t));
    }
}

/// The difference of two maps lists the regions of the first that the second has not with the
/// same fields, and the regions of the second that the first has not; each in address order.
pub proof fn law_difference_lists_what_changed(
    a: MemoryMapModel,
    old_regions: &[MemoryRegion],
    b: MemoryMapModel,
    new_regions: &[MemoryRegion],
    r: (Vec<MemoryRegion>, Vec<MemoryRegion>),
)
    requires
        call_ensures(MemoryMapModel::regions, (&a,), old_regions),
        call_ensures(MemoryMapModel::regions, (&b,), new_regions),
        call_ensures(MemoryMapModel::diff, (&a, &b), r),
    ensures
        ({
            let before = crate::maps::region_views(old_regions@);
            let after = crate::maps::region_views(new_regions@);
            let gone = crate::maps::region_views(r.0@);
            let come = crate::maps::region_views(r.1@);
            &&& tidy(gone)
            &&& tidy(come)
            &&& forall|x: Region| #[trigger]
                gone.contains(x) <==> before.contains(x) && !maps_it(after, x)
            &&& forall|x: Region| #[trigger]
                come.contains(x) <==> after.contains(x) && !maps_it(before, x)
        }),
{
    lemma_not_in(a@, b@);
    lemma_not_in(b@, a@);
}

/// A difference by its members.
pub proof fn lemma_not_in(a: Seq<Region>, b: Seq<Region>)
    requires
        crate::maps::canonical(a),
    ensures
        tidy(crate::model::not_in(a, b)),
        forall|x: Region| #[trigger]
            crate::model::not_in(a, b).contains(x) <==> a.contains(x) && !maps_it(b, x),
{
    let p = |r: Region| !crate::model::has_vma(b, r);
    crate::model_laws::lemma_filter(a, p);
    lemma_tidy(crate::model::not_in(a, b));
    assert forall|x: Region| #[trigger] crate::model::has_vma(b, x) == maps_it(b, x) by {
        lemma_has(b, x);
    }
    assert forall|x: Region| #[trigger] crate::model::not_in(a, b).contains(x) <==> a.contains(x)
        && !maps_it(b, x) by {
        assert(p(x) == !crate::model::has_vma(b, x));
    }
}

proof fn lemma_has(s: Seq<Region>, x: Region)
    ensures
        crate::model::has_vma(s, x) == maps_it(s, x),
{
    if crate::model::has_vma(s, x) {
        let i = choose|i: int| 0 <= i < s.len() && (#[trigger] s[i]).same_vma(x);
        lemma_twin(s[i], x);
        assert(twin(s[i], x));
    }
    if maps_it(s, x) {
        let i = choose|i: int| 0 <= i < s.len() && twin(#[trigger] s[i], x);
        lemma_twin(s[i], x);
        assert(s[i].same_vma(x));
    }
}

/// Taking out of a map what a difference says is gone, and putting in what it says has come,
/// succeeds and gives a map that agrees with the second one in every field but the label.
pub proof fn law_difference_applied_gives_the_second_map(a: Seq<Region>, b: Seq<Region>)
    requires
        tidy(a),
        tidy(b),
    ensures
        ({
            let kept = crate::model_laws::removed_all(a, crate::model::not_in(a, b));
            let result = crate::model_laws::added_all(kept->Ok_0, crate::model::not_in(b, a));
            &&& kept is Ok
            &&& result is Ok
            &&& tidy(result->Ok_0)
            &&& result->Ok_0.len() == b.len()
            &&& forall|i: int| 0 <= i < b.len() ==> twin(#[trigger] result->Ok_0[i], b[i])
        }),
{
    lemma_tidy(a);
    lemma_tidy(b);
    crate::model_laws::law_difference_leads_to_new_map(a, b);
    let kept = crate::model_laws::removed_all(a, crate::model::not_in(a, b))->Ok_0;
    let result = crate::model_laws::added_all(kept, crate::model::not_in(b, a))->Ok_0;
    lemma_tidy(result);
    assert forall|i: int| 0 <= i < b.len() implies twin(#[trigger] result[i], b[i]) by {
        assert(result[i].same_vma(b[i]));
        lemma_twin(result[i], b[i]);
    }
}

} // verus!
