//! The normalized map of a process: its regions in address order, free of overlap.
use vstd::prelude::*;
use crate::maps::{MemoryRegion, Region, validate_regions_canonical_order};
use crate::text::Line;

verus! {

/// `s` with `r` put behind every region that does not come after it.
pub open spec fn inserted(s: Seq<Region>, r: Region) -> Seq<Region>
    decreases s.len(),
{
    if s.len() == 0 || s.last().before_or_equal(r) {
        s.push(r)
    } else {
        inserted(s.drop_last(), r).push(s.last())
    }
}

/// The regions in order of start, then end; regions that tie keep their order.
pub open spec fn address_sorted(s: Seq<Region>) -> Seq<Region>
    decreases s.len(),
{
    if s.len() == 0 {
        s
    } else {
        inserted(address_sorted(s.drop_last()), s.last())
    }
}

/// The position, from `i` on, of the first region that describes the same mapping as `r`.
pub open spec fn vma_position(s: Seq<Region>, r: Region, i: int) -> Option<int>
    decreases s.len() - i,
{
    if i < 0 || i >= s.len() {
        None
    } else if s[i].same_vma(r) {
        Some(i)
    } else {
        vma_position(s, r, i + 1)
    }
}

pub open spec fn has_vma(s: Seq<Region>, r: Region) -> bool {
    exists|i: int| 0 <= i < s.len() && (#[trigger] s[i]).same_vma(r)
}

/// Some region covers the address.
pub open spec fn covered(s: Seq<Region>, addr: u64) -> bool {
    exists|i: int| 0 <= i < s.len() && (#[trigger] s[i]).contains(addr)
}

/// The position, from `i` on, of the first region that overlaps `r`.
pub open spec fn overlap_position(s: Seq<Region>, r: Region, i: int) -> Option<int>
    decreases s.len() - i,
{
    if i < 0 || i >= s.len() {
        None
    } else if r.overlaps(s[i]) {
        Some(i)
    } else {
        overlap_position(s, r, i + 1)
    }
}

/// The map after region `r` is taken out.
pub open spec fn removed(s: Seq<Region>, r: Region) -> Result<Seq<Region>, Seq<char>> {
    match vma_position(s, r, 0) {
        Some(i) => Ok(s.remove(i)),
        None => Err(
            "semantic error: attempt to remove non-existent memory region [0x"@ + crate::text::hex(
                r.start as int,
            ) + ", 0x"@ + crate::text::hex(r.end as int) + ")"@,
        ),
    }
}

/// The map after region `r` is put in.
pub open spec fn added(s: Seq<Region>, r: Region) -> Result<Seq<Region>, Seq<char>> {
    match r.complaint() {
        Some(text) => Err(text),
        None => match overlap_position(s, r, 0) {
            Some(i) => Err(
                "semantic error: attempt to add region [0x"@ + crate::text::hex(r.start as int)
                    + ", 0x"@ + crate::text::hex(r.end as int)
                    + ") which overlaps with existing [0x"@ + crate::text::hex(s[i].start as int)
                    + ", 0x"@ + crate::text::hex(s[i].end as int) + ")"@,
            ),
            None => Ok(inserted(s, r)),
        },
    }
}

/// The regions of `a` whose mapping is not in `b`.
pub open spec fn not_in(a: Seq<Region>, b: Seq<Region>) -> Seq<Region> {
    a.filter(|r: Region| !has_vma(b, r))
}

pub proof fn lemma_vma_position(s: Seq<Region>, r: Region, i: int)
    requires
        0 <= i,
    ensures
        match vma_position(s, r, i) {
            Some(k) => i <= k < s.len() && s[k].same_vma(r) && forall|j: int|
                i <= j < k ==> !(#[trigger] s[j]).same_vma(r),
            None => forall|j: int| i <= j < s.len() ==> !(#[trigger] s[j]).same_vma(r),
        },
    decreases s.len() - i,
{
    if i < s.len() && !s[i].same_vma(r) {
        lemma_vma_position(s, r, i + 1);
    }
}

pub proof fn lemma_overlap_position(s: Seq<Region>, r: Region, i: int)
    requires
        0 <= i,
    ensures
        match overlap_position(s, r, i) {
            Some(k) => i <= k < s.len() && r.overlaps(s[k]),
            None => forall|j: int| i <= j < s.len() ==> !r.overlaps(#[trigger] s[j]),
        },
    decreases s.len() - i,
{
    if i < s.len() && !r.overlaps(s[i]) {
        lemma_overlap_position(s, r, i + 1);
    }
}

/// Where an inserted region lands: behind `p` regions that do not come after it, before one
/// that does.
pub proof fn lemma_inserted_at(s: Seq<Region>, r: Region, p: int)
    requires
        0 <= p <= s.len(),
        p == 0 || s[p - 1].before_or_equal(r),
        forall|j: int| p <= j < s.len() ==> !(#[trigger] s[j]).before_or_equal(r),
    ensures
        inserted(s, r) == s.insert(p, r),
    decreases s.len(),
{
    if p == s.len() {
        assert(s.insert(p, r) =~= s.push(r));
    } else {
        assert(!s[s.len() - 1].before_or_equal(r));
        lemma_inserted_at(s.drop_last(), r, p);
        assert(s.drop_last().insert(p, r).push(s.last()) =~= s.insert(p, r));
    }
}

/// Taking a region out of a canonical map leaves a canonical map.
pub proof fn lemma_remove_canonical(s: Seq<Region>, i: int)
    requires
        crate::maps::canonical(s),
        0 <= i < s.len(),
    ensures
        crate::maps::canonical(s.remove(i)),
{
    let t = s.remove(i);
    assert forall|k: int| 0 <= k < t.len() implies (#[trigger] t[k]).valid() by {
        assert(t[k] == if k < i { s[k] } else { s[k + 1] });
    }
    assert forall|j: int, k: int| 0 <= j < k < t.len() implies (#[trigger] t[j]).end <= (
    #[trigger] t[k]).start by {
        let jj = if j < i { j } else { j + 1 };
        let kk = if k < i { k } else { k + 1 };
        assert(s[jj].end <= s[kk].start);
    }
}

/// A valid region that overlaps nothing has one place in a canonical map, and the map stays
/// canonical with it.
pub proof fn lemma_insert_canonical(s: Seq<Region>, r: Region)
    requires
        crate::maps::canonical(s),
        r.valid(),
        forall|j: int| 0 <= j < s.len() ==> !r.overlaps(#[trigger] s[j]),
    ensures
        exists|p: int|
            0 <= p <= s.len() && inserted(s, r) == #[trigger] s.insert(p, r),
        crate::maps::canonical(inserted(s, r)),
    decreases s.len(),
{
    if s.len() == 0 || s.last().before_or_equal(r) {
        assert(s.push(r) =~= s.insert(s.len() as int, r));
        let t = s.push(r);
        assert forall|j: int, k: int| 0 <= j < k < t.len() implies (#[trigger] t[j]).end <= (
        #[trigger] t[k]).start by {
            if k == s.len() {
                assert(!r.overlaps(s[j]));
                assert(s[j].valid());
                assert(s.last().valid());
                if j < s.len() - 1 {
                    assert(s[j].end <= s[s.len() - 1].start);
                }
            }
        }
    } else {
        let d = s.drop_last();
        assert(crate::maps::canonical(d));
        lemma_insert_canonical(d, r);
        let p = choose|p: int| 0 <= p <= d.len() && inserted(d, r) == #[trigger] d.insert(p, r);
        assert(inserted(d, r).push(s.last()) =~= s.insert(p, r));
        let t = inserted(s, r);
        let x = inserted(d, r);
        assert forall|k: int| 0 <= k < t.len() implies (#[trigger] t[k]).valid() by {
            assert(s.last().valid());
            if k < x.len() {
                assert(t[k] == x[k]);
            }
        }
        assert forall|j: int, k: int| 0 <= j < k < t.len() implies (#[trigger] t[j]).end <= (
        #[trigger] t[k]).start by {
            if k < x.len() {
                assert(x[j].end <= x[k].start);
            } else {
                assert(t[k] == s.last());
                assert(s.last().valid());
                if j == p {
                    assert(t[j] == r);
                    assert(!r.overlaps(s[s.len() - 1]));
                } else {
                    let jj = if j < p { j } else { j - 1 };
                    assert(t[j] == s[jj]);
                    assert(s[jj].end <= s[s.len() - 1].start);
                }
            }
        }
    }
}

/// A map operation that succeeds on a canonical map leaves it canonical.
pub proof fn law_operations_keep_canonical(s: Seq<Region>, r: Region)
    requires
        crate::maps::canonical(s),
    ensures
        removed(s, r) is Ok ==> crate::maps::canonical(removed(s, r)->Ok_0),
        added(s, r) is Ok ==> crate::maps::canonical(added(s, r)->Ok_0),
{
    lemma_vma_position(s, r, 0);
    lemma_overlap_position(s, r, 0);
    if removed(s, r) is Ok {
        lemma_remove_canonical(s, vma_position(s, r, 0)->0);
    }
    if added(s, r) is Ok {
        lemma_insert_canonical(s, r);
    }
}

/// No address lies in two regions of a canonical map.
pub proof fn law_address_in_one_region(s: Seq<Region>, addr: u64, i: int, j: int)
    requires
        crate::maps::canonical(s),
        0 <= i < s.len(),
        0 <= j < s.len(),
        s[i].contains(addr),
        s[j].contains(addr),
    ensures
        i == j,
{
    if i < j {
        assert(s[i].end <= s[j].start);
    } else if j < i {
        assert(s[j].end <= s[i].start);
    }
}

proof fn lemma_inserted_sorted(s: Seq<Region>, r: Region)
    requires
        forall|i: int, j: int|
            0 <= i < j < s.len() ==> (#[trigger] s[i]).before_or_equal(#[trigger] s[j]),
    ensures
        inserted(s, r).to_multiset() == s.to_multiset().insert(r),
        inserted(s, r).len() == s.len() + 1,
        forall|i: int, j: int|
            0 <= i < j < s.len() + 1 ==> (#[trigger] inserted(s, r)[i]).before_or_equal(
                #[trigger] inserted(s, r)[j],
            ),
        forall|i: int|
            0 <= i < s.len() + 1 ==> (#[trigger] inserted(s, r)[i]) == r || exists|k: int|
                0 <= k < s.len() && s[k] == inserted(s, r)[i],
    decreases s.len(),
{
    broadcast use vstd::seq_lib::group_to_multiset_ensures;

    let t = inserted(s, r);
    if s.len() == 0 || s.last().before_or_equal(r) {
        assert forall|i: int| 0 <= i < t.len() implies (#[trigger] t[i]) == r || exists|k: int|
            0 <= k < s.len() && s[k] == t[i] by {
            if i < s.len() {
                assert(s[i] == t[i]);
            }
        }
        assert forall|i: int, j: int| 0 <= i < j < t.len() implies (
        #[trigger] t[i]).before_or_equal(#[trigger] t[j]) by {
            if j == s.len() && i < s.len() - 1 {
                assert(s[i].before_or_equal(s[s.len() - 1]));
            }
        }
    } else {
        let d = s.drop_last();
        let x = inserted(d, r);
        lemma_inserted_sorted(d, r);
        assert(s =~= d.push(s.last()));
        assert(t =~= x.push(s.last()));
        assert forall|i: int| 0 <= i < t.len() implies (#[trigger] t[i]) == r || exists|k: int|
            0 <= k < s.len() && s[k] == t[i] by {
            if i < x.len() {
                assert(x[i] == t[i]);
                if x[i] != r {
                    let k = choose|k: int| 0 <= k < d.len() && d[k] == x[i];
                    assert(s[k] == t[i]);
                }
            } else {
                assert(s[s.len() - 1] == t[i]);
            }
        }
        assert forall|i: int, j: int| 0 <= i < j < t.len() implies (
        #[trigger] t[i]).before_or_equal(#[trigger] t[j]) by {
            if j < x.len() {
                assert(x[i].before_or_equal(x[j]));
            } else {
                assert(t[j] == s.last());
                assert(x[i] == t[i]);
                if x[i] != r {
                    let k = choose|k: int| 0 <= k < d.len() && d[k] == x[i];
                    assert(s[k].before_or_equal(s[s.len() - 1]));
                }
            }
        }
        assert(s.to_multiset().insert(r) =~= d.to_multiset().insert(r).insert(s.last()));
    }
}

/// Sorting keeps every region, as often as it occurs, and puts them in address order.
pub proof fn law_sorting_permutes(s: Seq<Region>)
    ensures
        address_sorted(s).to_multiset() == s.to_multiset(),
        address_sorted(s).len() == s.len(),
        forall|i: int, j: int|
            0 <= i < j < s.len() ==> (#[trigger] address_sorted(s)[i]).before_or_equal(
                #[trigger] address_sorted(s)[j],
            ),
    decreases s.len(),
{
    broadcast use vstd::seq_lib::group_to_multiset_ensures;

    if s.len() > 0 {
        law_sorting_permutes(s.drop_last());
        lemma_inserted_sorted(address_sorted(s.drop_last()), s.last());
        assert(s =~= s.drop_last().push(s.last()));
    }
}

/// Sorting the regions of a canonical map, in whatever order they come, gives the map.
pub proof fn law_sorting_restores_a_map(s: Seq<Region>, p: Seq<Region>)
    requires
        crate::maps::canonical(s),
        p.to_multiset() == s.to_multiset(),
    ensures
        address_sorted(p) == s,
{
    broadcast use vstd::seq_lib::group_to_multiset_ensures;

    law_sorting_permutes(p);
    assert(p.len() == p.to_multiset().len());
    lemma_one_order(s, address_sorted(p));
}

/// Regions in address order that are those of a canonical map are that map.
proof fn lemma_one_order(s: Seq<Region>, q: Seq<Region>)
    requires
        crate::maps::canonical(s),
        q.to_multiset() == s.to_multiset(),
        forall|i: int, j: int|
            0 <= i < j < q.len() ==> (#[trigger] q[i]).before_or_equal(#[trigger] q[j]),
    ensures
        q == s,
    decreases s.len(),
{
    broadcast use vstd::seq_lib::group_to_multiset_ensures;

    assert(q.len() == q.to_multiset().len() == s.len());
    if s.len() > 0 {
        assert(s.contains(s[s.len() - 1]));
        assert(q.contains(q[q.len() - 1]));
        assert(s.to_multiset().count(s.last()) > 0);
        assert(q.to_multiset().count(q.last()) > 0);
        assert(q.contains(s.last()));
        assert(s.contains(q.last()));
        let i = choose|i: int| 0 <= i < q.len() && q[i] == s.last();
        let j = choose|j: int| 0 <= j < s.len() && s[j] == q.last();
        if j < s.len() - 1 {
            assert(s[j].valid());
            assert(s[j].end <= s[s.len() - 1].start);
            assert(q[i].before_or_equal(q.last()));
        }
        let d = s.drop_last();
        let c = q.drop_last();
        assert(s =~= d.push(s.last()));
        assert(q =~= c.push(q.last()));
        assert(c.to_multiset() =~= q.to_multiset().remove(q.last()));
        assert(d.to_multiset() =~= s.to_multiset().remove(s.last()));
        assert(crate::maps::canonical(d));
        lemma_one_order(d, c);
    }
}

/// A normalized, non-overlapping collection of virtual-memory regions.
#[derive(Debug, Eq)]
pub struct MemoryMapModel {
    regions: Vec<MemoryRegion>,
}

impl View for MemoryMapModel {
    type V = Seq<Region>;

    closed spec fn view(&self) -> Seq<Region> {
        crate::maps::region_views(self.regions@)
    }
}

impl Clone for MemoryMapModel {
    fn clone(&self) -> (m: MemoryMapModel)
        ensures
            m@ == self@,
    {
        proof {
            use_type_invariant(self);
        }
        let regions = copy_regions(self.regions.as_slice());
        MemoryMapModel { regions }
    }
}

impl PartialEq for MemoryMapModel {
    fn eq(&self, other: &MemoryMapModel) -> (r: bool) {
        if self.regions.len() != other.regions.len() {
            assert(self@.len() != other@.len());
            return false;
        }
        let mut i: usize = 0;
        while i < self.regions.len()
            invariant
                i <= self.regions@.len(),
                self.regions@.len() == other.regions@.len(),
                forall|k: int| 0 <= k < i ==> #[trigger] self@[k] == other@[k],
            decreases self.regions.len() - i,
        {
            if self.regions[i] != other.regions[i] {
                assert(self@[i as int] != other@[i as int]);
                return false;
            }
            i += 1;
        }
        assert(self@ =~= other@);
        true
    }
}

impl vstd::std_specs::cmp::PartialEqSpecImpl for MemoryMapModel {
    open spec fn obeys_eq_spec() -> bool {
        true
    }

    open spec fn eq_spec(&self, other: &MemoryMapModel) -> bool {
        self@ == other@
    }
}

pub fn copy_regions(regions: &[MemoryRegion]) -> (out: Vec<MemoryRegion>)
    ensures
        crate::maps::region_views(out@) == crate::maps::region_views(regions@),
{
    let mut out: Vec<MemoryRegion> = Vec::new();
    let mut i: usize = 0;
    while i < regions.len()
        invariant
            i <= regions.len(),
            out@.len() == i,
            forall|k: int| 0 <= k < i ==> (#[trigger] out@[k])@ == regions@[k]@,
        decreases regions.len() - i,
    {
        out.push(regions[i].clone());
        i += 1;
    }
    assert(crate::maps::region_views(out@) =~= crate::maps::region_views(regions@));
    out
}

/// Sorts the regions by start, then end, keeping the order of regions that tie.
fn sort_by_address(regions: Vec<MemoryRegion>) -> (sorted: Vec<MemoryRegion>)
    ensures
        crate::maps::region_views(sorted@) == address_sorted(crate::maps::region_views(regions@)),
{
    let mut regions = regions;
    let ghost input = crate::maps::region_views(regions@);
    let mut i: usize = 0;
    proof {
        assert(input.take(0) =~= Seq::<Region>::empty());
        assert(crate::maps::region_views(regions@).take(0) =~= Seq::<Region>::empty());
    }
    while i < regions.len()
        invariant
            i <= regions@.len() == input.len(),
            crate::maps::region_views(regions@).take(i as int) == address_sorted(
                input.take(i as int),
            ),
            crate::maps::region_views(regions@).skip(i as int) == input.skip(i as int),
        decreases regions.len() - i,
    {
        let ghost views = crate::maps::region_views(regions@);
        let ghost r = views[i as int];
        let ghost sorted = views.take(i as int);
        let mut p: usize = i;
        proof {
            assert(views.skip(i as int)[0] == input.skip(i as int)[0]);
            assert(input.take(i + 1).drop_last() =~= input.take(i as int));
        }
        while p > 0 && !(regions[p - 1].start < regions[i].start || (regions[p - 1].start
            == regions[i].start && regions[p - 1].end <= regions[i].end))
            invariant
                p <= i < regions@.len(),
                views == crate::maps::region_views(regions@),
                r == views[i as int],
                sorted == views.take(i as int),
                forall|j: int| p <= j < i ==> !(#[trigger] sorted[j]).before_or_equal(r),
            decreases p,
        {
            assert(sorted[p - 1] == regions@[p - 1]@);
            p -= 1;
        }
        proof {
            if p > 0 {
                assert(sorted[p - 1] == regions@[p - 1]@);
            }
            lemma_inserted_at(sorted, r, p as int);
        }
        if p < i {
            let region = regions.remove(i);
            regions.insert(p, region);
        }
        proof {
            let now = crate::maps::region_views(regions@);
            assert(now.take(i + 1) =~= sorted.insert(p as int, r));
            assert(now.skip(i + 1) =~= views.skip(i as int).skip(1));
            assert(input.skip(i + 1) =~= input.skip(i as int).skip(1));
        }
        i += 1;
    }
    proof {
        let now = crate::maps::region_views(regions@);
        assert(now.take(i as int) =~= now);
        assert(input.take(i as int) =~= input);
    }
    regions
}

impl MemoryMapModel {
    #[verifier::type_invariant]
    spec fn normalized(self) -> bool {
        crate::maps::canonical(crate::maps::region_views(self.regions@))
    }

    /// Sorts the regions and makes a map of them, if they are valid and free of overlap.
    pub fn new(regions: Vec<MemoryRegion>) -> (r: Result<MemoryMapModel, String>)
        ensures
            match crate::maps::order_complaint(
                address_sorted(crate::maps::region_views(regions@)),
            ) {
                None => r is Ok && r->Ok_0@ == address_sorted(crate::maps::region_views(regions@)),
                Some(text) => r is Err && r->Err_0@ == text,
            },
            r is Ok <==> crate::maps::canonical(
                address_sorted(crate::maps::region_views(regions@)),
            ),
    {
        let sorted = sort_by_address(regions);
        match validate_regions_canonical_order(sorted.as_slice()) {
            Ok(_) => Ok(MemoryMapModel { regions: sorted }),
            Err(text) => Err(text),
        }
    }

    /// Makes a map of regions that are already in canonical order.
    pub fn from_canonical_regions(regions: Vec<MemoryRegion>) -> (r: Result<
        MemoryMapModel,
        String,
    >)
        ensures
            match crate::maps::order_complaint(crate::maps::region_views(regions@)) {
                None => r is Ok && r->Ok_0@ == crate::maps::region_views(regions@),
                Some(text) => r is Err && r->Err_0@ == text,
            },
            r is Ok <==> crate::maps::canonical(crate::maps::region_views(regions@)),
    {
        match validate_regions_canonical_order(regions.as_slice()) {
            Ok(_) => Ok(MemoryMapModel { regions }),
            Err(text) => Err(text),
        }
    }

    /// The regions in address order.
    pub fn regions(&self) -> (s: &[MemoryRegion])
        ensures
            crate::maps::region_views(s@) == self@,
            crate::maps::canonical(self@),
    {
        proof {
            use_type_invariant(self);
        }
        self.regions.as_slice()
    }

    /// Tells whether some region covers the address.
    pub fn contains_address(&self, addr: u64) -> (r: bool)
        ensures
            r == exists|i: int| 0 <= i < self@.len() && (#[trigger] self@[i]).contains(addr),
            r == covered(self@, addr),
    {
        self.region_containing(addr).is_some()
    }

    /// Finds the region that covers the address.
    pub fn region_containing(&self, addr: u64) -> (r: Option<&MemoryRegion>)
        ensures
            match r {
                Some(region) => exists|i: int|
                    0 <= i < self@.len() && (#[trigger] self@[i]) == region@ && region@.contains(
                        addr,
                    ),
                None => forall|i: int| 0 <= i < self@.len() ==> !(#[trigger] self@[i]).contains(addr),
            },
            r is Some <==> covered(self@, addr),
    {
        proof {
            use_type_invariant(self);
        }
        let mut low: usize = 0;
        let mut high: usize = self.regions.len();
        while low < high
            invariant
                low <= high <= self.regions@.len(),
                self@.len() == self.regions@.len(),
                crate::maps::canonical(self@),
                forall|i: int| 0 <= i < low ==> !(#[trigger] self@[i]).contains(addr),
                forall|i: int| high <= i < self@.len() ==> !(#[trigger] self@[i]).contains(addr),
            decreases high - low,
        {
            let mid: usize = low + (high - low) / 2;
            let region = &self.regions[mid];
            assert(self@[mid as int] == region@);
            if addr < region.start {
                assert forall|i: int| mid <= i < self@.len() implies !(
                #[trigger] self@[i]).contains(addr) by {
                    if i > mid {
                        assert(self@[mid as int].end <= self@[i].start);
                        assert(self@[mid as int].valid());
                    }
                }
                high = mid;
            } else if addr >= region.end {
                assert forall|i: int| 0 <= i <= mid implies !(#[trigger] self@[i]).contains(
                    addr,
                ) by {
                    if i < mid {
                        assert(self@[i].end <= self@[mid as int].start);
                        assert(self@[mid as int].valid());
                    }
                }
                low = mid + 1;
            } else {
                assert(self@[mid as int].contains(addr));
                return Some(region);
            }
        }
        None
    }

    /// Takes out the region that describes the same mapping as `region`.
    pub fn apply_remove(&mut self, region: &MemoryRegion) -> (r: Result<(), String>)
        ensures
            match removed(old(self)@, region@) {
                Ok(s) => r is Ok && final(self)@ == s,
                Err(text) => r is Err && r->Err_0@ == text && final(self)@ == old(self)@,
            },
    {
        proof {
            use_type_invariant(&*self);
        }
        let ghost s = self@;
        let mut i: usize = 0;
        while i < self.regions.len()
            invariant
                i <= self.regions@.len(),
                self@ == s,
                s == old(self)@,
                s.len() == self.regions@.len(),
                crate::maps::canonical(s),
                vma_position(s, region@, 0) == vma_position(s, region@, i as int),
            decreases self.regions.len() - i,
        {
            assert(s[i as int] == self.regions@[i as int]@);
            if self.regions[i].canonical_eq(region) {
                let mut regions: Vec<MemoryRegion> = Vec::new();
                std::mem::swap(&mut regions, &mut self.regions);
                let _taken = regions.remove(i);
                proof {
                    assert(crate::maps::region_views(regions@) =~= s.remove(i as int));
                    lemma_remove_canonical(s, i as int);
                }
                self.regions = regions;
                return Ok(());
            }
            i += 1;
        }
        Err(
            Line::new("semantic error: attempt to remove non-existent memory region [0x").hex(
                region.start,
            ).lit(", 0x").hex(region.end).lit(")").done(),
        )
    }

    /// Puts a region in, in address order, unless it is invalid or overlaps another.
    pub fn apply_add(&mut self, region: MemoryRegion) -> (r: Result<(), String>)
        ensures
            match added(old(self)@, region@) {
                Ok(s) => r is Ok && final(self)@ == s,
                Err(text) => r is Err && r->Err_0@ == text && final(self)@ == old(self)@,
            },
    {
        proof {
            use_type_invariant(&*self);
        }
        match region.validate() {
            Err(text) => {
                return Err(text);
            },
            Ok(_) => {},
        }
        let ghost s = self@;
        let mut i: usize = 0;
        while i < self.regions.len()
            invariant
                i <= self.regions@.len(),
                self@ == s,
                s == old(self)@,
                s.len() == self.regions@.len(),
                crate::maps::canonical(s),
                region@.complaint() is None,
                overlap_position(s, region@, 0) == overlap_position(s, region@, i as int),
            decreases self.regions.len() - i,
        {
            let existing = &self.regions[i];
            assert(s[i as int] == existing@);
            if region.start < existing.end && region.end > existing.start {
                return Err(
                    Line::new("semantic error: attempt to add region [0x").hex(region.start).lit(
                        ", 0x",
                    ).hex(region.end).lit(") which overlaps with existing [0x").hex(
                        existing.start,
                    ).lit(", 0x").hex(existing.end).lit(")").done(),
                );
            }
            i += 1;
        }
        let mut p: usize = self.regions.len();
        while p > 0 && self.regions[p - 1].start > region.start
            invariant
                p <= self.regions@.len(),
                self@ == s,
                s == old(self)@,
                s.len() == self.regions@.len(),
                crate::maps::canonical(s),
                forall|j: int| p <= j < s.len() ==> !(#[trigger] s[j]).before_or_equal(region@),
            decreases p,
        {
            assert(s[p - 1] == self.regions@[p - 1]@);
            p -= 1;
        }
        proof {
            lemma_overlap_position(s, region@, 0);
            if p > 0 {
                assert(s[p - 1] == self.regions@[p - 1]@);
                assert(s[p - 1].valid());
                assert(!region@.overlaps(s[p - 1]));
            }
            lemma_inserted_at(s, region@, p as int);
            lemma_insert_canonical(s, region@);
        }
        let mut regions: Vec<MemoryRegion> = Vec::new();
        std::mem::swap(&mut regions, &mut self.regions);
        let ghost added_region = region@;
        regions.insert(p, region);
        proof {
            assert(crate::maps::region_views(regions@) =~= s.insert(p as int, added_region));
        }
        self.regions = regions;
        Ok(())
    }

    /// The regions to take out of `self` and those to put in, each in address order, that
    /// lead from `self` to `new_model`.
    pub fn diff(&self, new_model: &MemoryMapModel) -> (r: (Vec<MemoryRegion>, Vec<MemoryRegion>))
        ensures
            crate::maps::region_views(r.0@) == not_in(self@, new_model@),
            crate::maps::region_views(r.1@) == not_in(new_model@, self@),
    {
        (self.missing_from(new_model), new_model.missing_from(self))
    }

    /// The regions of `self` whose mapping is not in `other`.
    fn missing_from(&self, other: &MemoryMapModel) -> (out: Vec<MemoryRegion>)
        ensures
            crate::maps::region_views(out@) == not_in(self@, other@),
    {
        let ghost keep = |r: Region| !has_vma(other@, r);
        let mut out: Vec<MemoryRegion> = Vec::new();
        let mut i: usize = 0;
        proof {
            assert(self@.take(0) =~= Seq::<Region>::empty());
            reveal(Seq::filter);
            assert(crate::maps::region_views(out@) =~= self@.take(0).filter(keep));
        }
        while i < self.regions.len()
            invariant
                i <= self.regions@.len(),
                self@.len() == self.regions@.len(),
                keep == (|r: Region| !has_vma(other@, r)),
                crate::maps::region_views(out@) == self@.take(i as int).filter(keep),
            decreases self.regions.len() - i,
        {
            let region = &self.regions[i];
            assert(self@[i as int] == region@);
            proof {
                reveal(Seq::filter);
                assert(self@.take(i + 1).drop_last() =~= self@.take(i as int));
            }
            if !other.holds_vma(region) {
                let ghost before = crate::maps::region_views(out@);
                out.push(region.clone());
                proof {
                    assert(crate::maps::region_views(out@) =~= before.push(region@));
                }
            }
            i += 1;
        }
        proof {
            assert(self@.take(i as int) =~= self@);
        }
        out
    }

    fn holds_vma(&self, region: &MemoryRegion) -> (r: bool)
        ensures
            r == has_vma(self@, region@),
    {
        let mut i: usize = 0;
        while i < self.regions.len()
            invariant
                i <= self.regions@.len(),
                self@.len() == self.regions@.len(),
                forall|k: int| 0 <= k < i ==> !(#[trigger] self@[k]).same_vma(region@),
            decreases self.regions.len() - i,
        {
            assert(self@[i as int] == self.regions@[i as int]@);
            if self.regions[i].canonical_eq(region) {
                return true;
            }
            i += 1;
        }
        false
    }
}

} // verus!
