//! What differences and updates of maps amount to.
use vstd::prelude::*;
use crate::maps::Region;

verus! {

/// The map after the regions `rs` are taken out, one after the other.
pub open spec fn removed_all(s: Seq<Region>, rs: Seq<Region>) -> Result<Seq<Region>, Seq<char>>
    decreases rs.len(),
{
    if rs.len() == 0 {
        Ok(s)
    } else {
        match crate::model::removed(s, rs[0]) {
            Ok(t) => removed_all(t, rs.drop_first()),
            Err(text) => Err(text),
        }
    }
}

/// The map after the regions `rs` are put in, one after the other.
pub open spec fn added_all(s: Seq<Region>, rs: Seq<Region>) -> Result<Seq<Region>, Seq<char>>
    decreases rs.len(),
{
    if rs.len() == 0 {
        Ok(s)
    } else {
        match crate::model::added(s, rs[0]) {
            Ok(t) => added_all(t, rs.drop_first()),
            Err(text) => Err(text),
        }
    }
}

/// Regions of the two maps that describe the same mapping carry the same label.
pub open spec fn labels_agree(a: Seq<Region>, b: Seq<Region>) -> bool {
    forall|i: int, j: int|
        0 <= i < a.len() && 0 <= j < b.len() && (#[trigger] a[i]).same_vma(#[trigger] b[j])
            ==> a[i] == b[j]
}

/// The maps list the same mappings, label aside.
pub open spec fn same_vmas(a: Seq<Region>, b: Seq<Region>) -> bool {
    &&& a.len() == b.len()
    &&& forall|i: int| 0 <= i < a.len() ==> (#[trigger] a[i]).same_vma(b[i])
}

/// In a canonical map a start address names one region.
pub proof fn lemma_start_is_unique(s: Seq<Region>, i: int, j: int)
    requires
        crate::maps::canonical(s),
        0 <= i < s.len(),
        0 <= j < s.len(),
        s[i].start == s[j].start,
    ensures
        i == j,
{
    assert(s[i].valid());
    assert(s[j].valid());
    crate::model::law_address_in_one_region(s, s[i].start, i, j);
}

#[verifier::rlimit(50)]
pub proof fn lemma_filter(s: Seq<Region>, p: spec_fn(Region) -> bool)
    requires
        crate::maps::canonical(s),
    ensures
        crate::maps::canonical(s.filter(p)),
        forall|x: Region| #[trigger] s.filter(p).contains(x) <==> s.contains(x) && p(x),
    decreases s.len(),
{
    reveal(Seq::filter);
    let f = s.filter(p);
    if s.len() == 0 {
        assert(f =~= s);
    } else {
        let d = s.drop_last();
        let fd = d.filter(p);
        assert(crate::maps::canonical(d));
        lemma_filter(d, p);
        assert forall|x: Region| #[trigger] f.contains(x) <==> s.contains(x) && p(x) by {
            if f.contains(x) {
                let i = choose|i: int| 0 <= i < f.len() && f[i] == x;
                if i < fd.len() {
                    assert(fd[i] == x);
                    assert(fd.contains(x));
                    let k = choose|k: int| 0 <= k < d.len() && d[k] == x;
                    assert(s[k] == x);
                } else {
                    assert(s[s.len() - 1] == x);
                }
            }
            if s.contains(x) && p(x) {
                let k = choose|k: int| 0 <= k < s.len() && s[k] == x;
                if k < d.len() {
                    assert(d[k] == x);
                    assert(fd.contains(x));
                    let i = choose|i: int| 0 <= i < fd.len() && fd[i] == x;
                    assert(f[i] == x);
                } else {
                    assert(f[f.len() - 1] == x);
                }
            }
        }
        if p(s.last()) {
            assert(f == fd.push(s.last()));
            assert forall|i: int, j: int| 0 <= i < j < f.len() implies (#[trigger] f[i]).end <= (
            #[trigger] f[j]).start by {
                if j == fd.len() {
                    assert(fd.contains(fd[i]));
                    let k = choose|k: int| 0 <= k < d.len() && d[k] == fd[i];
                    assert(s[k].end <= s[s.len() - 1].start);
                }
            }
            assert(s[s.len() - 1].valid());
        }
    }
}

/// The regions that a difference lists come in address order.
pub proof fn law_difference_is_canonical(a: Seq<Region>, b: Seq<Region>)
    requires
        crate::maps::canonical(a),
    ensures
        crate::maps::canonical(crate::model::not_in(a, b)),
{
    lemma_filter(a, |r: Region| !crate::model::has_vma(b, r));
}

#[verifier::rlimit(50)]
proof fn lemma_removed_all(s: Seq<Region>, rs: Seq<Region>)
    requires
        crate::maps::canonical(s),
        crate::maps::canonical(rs),
        forall|x: Region| #[trigger] rs.contains(x) ==> s.contains(x),
    ensures
        removed_all(s, rs) is Ok,
        crate::maps::canonical(removed_all(s, rs)->Ok_0),
        forall|x: Region| #[trigger]
            removed_all(s, rs)->Ok_0.contains(x) <==> s.contains(x) && !rs.contains(x),
    decreases rs.len(),
{
    if rs.len() > 0 {
        let r = rs[0];
        assert(rs.contains(r));
        let k = choose|k: int| 0 <= k < s.len() && s[k] == r;
        crate::model::lemma_vma_position(s, r, 0);
        assert(s[k].same_vma(r));
        let i = crate::model::vma_position(s, r, 0)->0;
        lemma_start_is_unique(s, i, k);
        crate::model::lemma_remove_canonical(s, i);
        let t = s.remove(i);
        let rest = rs.drop_first();
        assert forall|x: Region| #[trigger] t.contains(x) <==> s.contains(x) && x != r by {
            if t.contains(x) {
                let j = choose|j: int| 0 <= j < t.len() && t[j] == x;
                let jj = if j < i { j } else { j + 1 };
                assert(s[jj] == x);
                if x == r {
                    lemma_start_is_unique(s, i, jj);
                }
            }
            if s.contains(x) && x != r {
                let j = choose|j: int| 0 <= j < s.len() && s[j] == x;
                assert(t[if j < i { j } else { j - 1 }] == x);
            }
        }
        assert forall|x: Region| #[trigger] rest.contains(x) <==> rs.contains(x) && x != r by {
            if rest.contains(x) {
                let j = choose|j: int| 0 <= j < rest.len() && rest[j] == x;
                assert(rs[j + 1] == x);
                if x == r {
                    lemma_start_is_unique(rs, 0, j + 1);
                }
            }
            if rs.contains(x) && x != r {
                let j = choose|j: int| 0 <= j < rs.len() && rs[j] == x;
                assert(rest[j - 1] == x);
            }
        }
        assert forall|j: int, m: int| 0 <= j < m < rest.len() implies (#[trigger] rest[j]).end <= (
        #[trigger] rest[m]).start by {
            assert(rs[j + 1].end <= rs[m + 1].start);
        }
        assert forall|j: int| 0 <= j < rest.len() implies (#[trigger] rest[j]).valid() by {
            assert(rs[j + 1].valid());
        }
        lemma_removed_all(t, rest);
    }
}

#[verifier::rlimit(50)]
proof fn lemma_added_all(s: Seq<Region>, rs: Seq<Region>)
    requires
        crate::maps::canonical(s),
        crate::maps::canonical(rs),
        forall|x: Region, y: Region|
            #[trigger] s.contains(x) && #[trigger] rs.contains(y) ==> !y.overlaps(x),
    ensures
        added_all(s, rs) is Ok,
        crate::maps::canonical(added_all(s, rs)->Ok_0),
        forall|x: Region| #[trigger]
            added_all(s, rs)->Ok_0.contains(x) <==> s.contains(x) || rs.contains(x),
    decreases rs.len(),
{
    if rs.len() > 0 {
        let r = rs[0];
        assert(rs.contains(r));
        assert forall|j: int| 0 <= j < s.len() implies !r.overlaps(#[trigger] s[j]) by {
            assert(s.contains(s[j]));
        }
        crate::model::lemma_overlap_position(s, r, 0);
        crate::model::lemma_insert_canonical(s, r);
        let t = crate::model::inserted(s, r);
        let p = choose|p: int| 0 <= p <= s.len() && t == #[trigger] s.insert(p, r);
        let rest = rs.drop_first();
        assert forall|x: Region| #[trigger] t.contains(x) <==> s.contains(x) || x == r by {
            if t.contains(x) {
                let j = choose|j: int| 0 <= j < t.len() && t[j] == x;
                if j != p {
                    assert(s[if j < p { j } else { j - 1 }] == x);
                }
            }
            if x == r {
                assert(t[p] == x);
            }
            if s.contains(x) {
                let j = choose|j: int| 0 <= j < s.len() && s[j] == x;
                assert(t[if j < p { j } else { j + 1 }] == x);
            }
        }
        assert forall|x: Region| #[trigger] rest.contains(x) || x == r <==> rs.contains(x) by {
            if rest.contains(x) {
                let j = choose|j: int| 0 <= j < rest.len() && rest[j] == x;
                assert(rs[j + 1] == x);
            }
            if rs.contains(x) && x != r {
                let j = choose|j: int| 0 <= j < rs.len() && rs[j] == x;
                assert(rest[j - 1] == x);
            }
        }
        assert forall|x: Region, y: Region|
            #[trigger] t.contains(x) && #[trigger] rest.contains(y) implies !y.overlaps(x) by {
            if x == r {
                let j = choose|j: int| 0 <= j < rest.len() && rest[j] == y;
                assert(rs[0].end <= rs[j + 1].start);
            } else {
                assert(s.contains(x));
                assert(rs.contains(y));
            }
        }
        assert forall|j: int, m: int| 0 <= j < m < rest.len() implies (#[trigger] rest[j]).end <= (
        #[trigger] rest[m]).start by {
            assert(rs[j + 1].end <= rs[m + 1].start);
        }
        assert forall|j: int| 0 <= j < rest.len() implies (#[trigger] rest[j]).valid() by {
            assert(rs[j + 1].valid());
        }
        lemma_added_all(t, rest);
    }
}

/// Two canonical maps that have each other's mappings end in the same one.
proof fn lemma_same_last(x: Seq<Region>, y: Seq<Region>)
    requires
        crate::maps::canonical(x),
        crate::maps::canonical(y),
        x.len() > 0,
        y.len() > 0,
        crate::model::has_vma(y, x.last()),
        crate::model::has_vma(x, y.last()),
    ensures
        x.last().same_vma(y.last()),
{
    let xl = x.len() - 1;
    let yl = y.len() - 1;
    let j = choose|j: int| 0 <= j < y.len() && (#[trigger] y[j]).same_vma(x.last());
    let i = choose|i: int| 0 <= i < x.len() && (#[trigger] x[i]).same_vma(y.last());
    assert(x[i].valid() && x[xl].valid() && y[j].valid() && y[yl].valid());
    if i < xl {
        assert(x[i].end <= x[xl].start);
    }
    if j < yl {
        assert(y[j].end <= y[yl].start);
    }
    assert(j == yl);
}

/// What two canonical maps have in common but for the last region, they have without it.
proof fn lemma_has_without_last(x: Seq<Region>, y: Seq<Region>, a: int)
    requires
        crate::maps::canonical(x),
        crate::maps::canonical(y),
        x.len() > 0,
        y.len() > 0,
        x.last().same_vma(y.last()),
        0 <= a < x.len() - 1,
        crate::model::has_vma(y, x[a]),
    ensures
        crate::model::has_vma(y.drop_last(), x[a]),
{
    let b = choose|b: int| 0 <= b < y.len() && (#[trigger] y[b]).same_vma(x[a]);
    if b == y.len() - 1 {
        lemma_start_is_unique(x, a, x.len() - 1);
    }
    assert(y.drop_last()[b].same_vma(x[a]));
}

/// Two canonical maps that have each other's mappings list them alike.
#[verifier::rlimit(50)]
proof fn lemma_same_vmas(x: Seq<Region>, y: Seq<Region>)
    requires
        crate::maps::canonical(x),
        crate::maps::canonical(y),
        forall|i: int| 0 <= i < x.len() ==> crate::model::has_vma(y, #[trigger] x[i]),
        forall|j: int| 0 <= j < y.len() ==> crate::model::has_vma(x, #[trigger] y[j]),
    ensures
        same_vmas(x, y),
    decreases x.len(),
{
    if x.len() == 0 {
        if y.len() > 0 {
            assert(crate::model::has_vma(x, y[0]));
        }
    } else {
        assert(crate::model::has_vma(y, x[x.len() - 1]));
        assert(y.len() > 0);
        assert(crate::model::has_vma(x, y[y.len() - 1]));
        lemma_same_last(x, y);
        let xd = x.drop_last();
        let yd = y.drop_last();
        assert forall|a: int| 0 <= a < xd.len() implies crate::model::has_vma(
            yd,
            #[trigger] xd[a],
        ) by {
            assert(crate::model::has_vma(y, x[a]));
            lemma_has_without_last(x, y, a);
        }
        assert forall|b: int| 0 <= b < yd.len() implies crate::model::has_vma(
            xd,
            #[trigger] yd[b],
        ) by {
            assert(crate::model::has_vma(x, y[b]));
            lemma_has_without_last(y, x, b);
        }
        assert(crate::maps::canonical(xd));
        assert(crate::maps::canonical(yd));
        lemma_same_vmas(xd, yd);
        assert forall|a: int| 0 <= a < x.len() implies (#[trigger] x[a]).same_vma(y[a]) by {
            if a < xd.len() {
                assert(xd[a].same_vma(yd[a]));
            }
        }
    }
}

/// The members of the map that a difference leads to: the mappings in common as the first map
/// has them, and the other mappings of the second.
spec fn merges(a: Seq<Region>, b: Seq<Region>, y: Seq<Region>) -> bool {
    forall|x: Region| #[trigger]
        y.contains(x) <==> (a.contains(x) && crate::model::has_vma(b, x)) || (b.contains(x)
            && !crate::model::has_vma(a, x))
}

/// Every removal and every addition of a difference succeeds.
#[verifier::rlimit(50)]
proof fn lemma_difference_applies(a: Seq<Region>, b: Seq<Region>)
    requires
        crate::maps::canonical(a),
        crate::maps::canonical(b),
    ensures
        removed_all(a, crate::model::not_in(a, b)) is Ok,
        ({
            let kept = removed_all(a, crate::model::not_in(a, b))->Ok_0;
            let result = added_all(kept, crate::model::not_in(b, a));
            &&& crate::maps::canonical(kept)
            &&& result is Ok
            &&& crate::maps::canonical(result->Ok_0)
            &&& merges(a, b, result->Ok_0)
        }),
{
    let gone = |r: Region| !crate::model::has_vma(b, r);
    let fresh = |r: Region| !crate::model::has_vma(a, r);
    let rem = crate::model::not_in(a, b);
    let new = crate::model::not_in(b, a);
    lemma_filter(a, gone);
    lemma_filter(b, fresh);
    lemma_removed_all(a, rem);
    let kept = removed_all(a, rem)->Ok_0;
    assert forall|x: Region, y: Region|
        #[trigger] kept.contains(x) && #[trigger] new.contains(y) implies !y.overlaps(x) by {
        assert(a.contains(x) && !rem.contains(x));
        assert(crate::model::has_vma(b, x));
        let j = choose|j: int| 0 <= j < b.len() && (#[trigger] b[j]).same_vma(x);
        assert(b.contains(y) && fresh(y));
        let k = choose|k: int| 0 <= k < b.len() && b[k] == y;
        let i = choose|i: int| 0 <= i < a.len() && a[i] == x;
        if k == j {
            assert(a[i].same_vma(y));
        } else if k < j {
            assert(b[k].end <= b[j].start);
        } else {
            assert(b[j].end <= b[k].start);
        }
    }
    lemma_added_all(kept, new);
    let y = added_all(kept, new)->Ok_0;
    assert forall|x: Region| #[trigger] y.contains(x) <==> (a.contains(x) && crate::model::has_vma(
        b,
        x,
    )) || (b.contains(x) && !crate::model::has_vma(a, x)) by {
        assert(rem.contains(x) <==> a.contains(x) && gone(x));
        assert(new.contains(x) <==> b.contains(x) && fresh(x));
        assert(kept.contains(x) <==> a.contains(x) && !rem.contains(x));
    }
}

/// The map that a difference leads to lists the mappings of the second map.
#[verifier::rlimit(50)]
proof fn lemma_merge_lists_same(a: Seq<Region>, b: Seq<Region>, y: Seq<Region>)
    requires
        crate::maps::canonical(b),
        crate::maps::canonical(y),
        merges(a, b, y),
    ensures
        same_vmas(y, b),
{
    assert forall|i: int| 0 <= i < y.len() implies crate::model::has_vma(b, #[trigger] y[i]) by {
        assert(y.contains(y[i]));
        if b.contains(y[i]) {
            let k = choose|k: int| 0 <= k < b.len() && b[k] == y[i];
            assert(b[k].same_vma(y[i]));
        }
    }
    assert forall|j: int| 0 <= j < b.len() implies crate::model::has_vma(y, #[trigger] b[j]) by {
        assert(b.contains(b[j]));
        if crate::model::has_vma(a, b[j]) {
            let i = choose|i: int| 0 <= i < a.len() && (#[trigger] a[i]).same_vma(b[j]);
            assert(a.contains(a[i]));
            assert(b[j].same_vma(a[i]));
            assert(y.contains(a[i]));
            let k = choose|k: int| 0 <= k < y.len() && y[k] == a[i];
            assert(y[k].same_vma(b[j]));
        } else {
            assert(y.contains(b[j]));
            let k = choose|k: int| 0 <= k < y.len() && y[k] == b[j];
            assert(y[k].same_vma(b[j]));
        }
    }
    lemma_same_vmas(y, b);
}

/// The map that a difference leads to is the second map if and only if the labels agree.
#[verifier::rlimit(50)]
proof fn lemma_merge_equals(a: Seq<Region>, b: Seq<Region>, y: Seq<Region>)
    requires
        crate::maps::canonical(b),
        merges(a, b, y),
        same_vmas(y, b),
    ensures
        y == b <==> labels_agree(a, b),
{
    if labels_agree(a, b) {
        assert forall|i: int| 0 <= i < y.len() implies y[i] == b[i] by {
            assert(y.contains(y[i]));
            assert(y[i].same_vma(b[i]));
            if a.contains(y[i]) {
                let k = choose|k: int| 0 <= k < a.len() && a[k] == y[i];
                assert(a[k].same_vma(b[i]));
            } else {
                assert(b.contains(y[i]));
                let k = choose|k: int| 0 <= k < b.len() && b[k] == y[i];
                lemma_start_is_unique(b, k, i);
            }
        }
        assert(y =~= b);
    }
    if y == b {
        assert forall|i: int, j: int|
            0 <= i < a.len() && 0 <= j < b.len() && (#[trigger] a[i]).same_vma(
                #[trigger] b[j],
            ) implies a[i] == b[j] by {
            assert(a.contains(a[i]));
            assert(b[j].same_vma(a[i]));
            assert(crate::model::has_vma(b, a[i]));
            assert(y.contains(a[i]));
            let k = choose|k: int| 0 <= k < b.len() && b[k] == a[i];
            lemma_start_is_unique(b, k, j);
        }
    }
}

/// Applying the difference of two maps to the first gives the second: every removal and
/// every addition succeeds, the result lists the mappings of the second map, and it equals
/// that map exactly when regions in common carry the same label.
pub proof fn law_difference_leads_to_new_map(a: Seq<Region>, b: Seq<Region>)
    requires
        crate::maps::canonical(a),
        crate::maps::canonical(b),
    ensures
        removed_all(a, crate::model::not_in(a, b)) is Ok,
        ({
            let kept = removed_all(a, crate::model::not_in(a, b))->Ok_0;
            let result = added_all(kept, crate::model::not_in(b, a));
            &&& crate::maps::canonical(kept)
            &&& result is Ok
            &&& crate::maps::canonical(result->Ok_0)
            &&& same_vmas(result->Ok_0, b)
            &&& result->Ok_0 == b <==> labels_agree(a, b)
        }),
{
    lemma_difference_applies(a, b);
    let kept = removed_all(a, crate::model::not_in(a, b))->Ok_0;
    let y = added_all(kept, crate::model::not_in(b, a))->Ok_0;
    lemma_merge_lists_same(a, b, y);
    lemma_merge_equals(a, b, y);
}

/// Whatever a map lists has its mapping in a map that lists the same mappings.
proof fn lemma_nothing_missing(a: Seq<Region>, b: Seq<Region>)
    requires
        crate::maps::canonical(a),
        a.len() == b.len(),
        forall|i: int| 0 <= i < a.len() ==> (#[trigger] b[i]).same_vma(a[i]),
    ensures
        crate::model::not_in(a, b).len() == 0,
{
    let f = crate::model::not_in(a, b);
    lemma_filter(a, |r: Region| !crate::model::has_vma(b, r));
    if f.len() > 0 {
        assert(f.contains(f[0]));
        let i = choose|i: int| 0 <= i < a.len() && a[i] == f[0];
        assert(b[i].same_vma(a[i]));
    }
}

/// Two maps differ in nothing exactly when they list the same mappings.
pub proof fn law_difference_is_empty_for_same_mappings(a: Seq<Region>, b: Seq<Region>)
    requires
        crate::maps::canonical(a),
        crate::maps::canonical(b),
    ensures
        crate::model::not_in(a, b).len() == 0 && crate::model::not_in(b, a).len() == 0
            <==> same_vmas(a, b),
{
    if crate::model::not_in(a, b).len() == 0 && crate::model::not_in(b, a).len() == 0 {
        law_difference_leads_to_new_map(a, b);
    }
    if same_vmas(a, b) {
        assert forall|i: int| 0 <= i < a.len() implies (#[trigger] b[i]).same_vma(a[i]) by {
            assert(a[i].same_vma(b[i]));
        }
        lemma_nothing_missing(a, b);
        lemma_nothing_missing(b, a);
    }
}

/// Taking out a region just put in gives the map back.
pub proof fn law_remove_undoes_add(s: Seq<Region>, r: Region)
    requires
        crate::maps::canonical(s),
        crate::model::added(s, r) is Ok,
    ensures
        crate::model::removed(crate::model::added(s, r)->Ok_0, r) == Ok::<Seq<Region>, Seq<char>>(s),
{
    crate::model::lemma_overlap_position(s, r, 0);
    crate::model::lemma_insert_canonical(s, r);
    let t = crate::model::inserted(s, r);
    let p = choose|p: int| 0 <= p <= s.len() && t == #[trigger] s.insert(p, r);
    assert(t[p] == r);
    crate::model::lemma_vma_position(t, r, 0);
    assert(t[p].same_vma(r));
    let k = crate::model::vma_position(t, r, 0)->0;
    lemma_start_is_unique(t, p, k);
    assert(t.remove(p) =~= s);
}

/// Putting back the region that a removal took out gives the map back.
pub proof fn law_add_undoes_remove(s: Seq<Region>, i: int)
    requires
        crate::maps::canonical(s),
        0 <= i < s.len(),
    ensures
        crate::model::removed(s, s[i]) == Ok::<Seq<Region>, Seq<char>>(s.remove(i)),
        crate::model::added(s.remove(i), s[i]) == Ok::<Seq<Region>, Seq<char>>(s),
{
    let r = s[i];
    let t = s.remove(i);
    assert(s[i].valid());
    crate::model::lemma_vma_position(s, r, 0);
    assert(s[i].same_vma(r));
    lemma_start_is_unique(s, i, crate::model::vma_position(s, r, 0)->0);
    crate::model::lemma_overlap_position(t, r, 0);
    assert forall|j: int| 0 <= j < t.len() implies !r.overlaps(#[trigger] t[j]) by {
        if j < i {
            assert(s[j].end <= s[i].start);
        } else {
            assert(s[i].end <= s[j + 1].start);
        }
    }
    assert forall|j: int| i <= j < t.len() implies !(#[trigger] t[j]).before_or_equal(r) by {
        assert(s[i].end <= s[j + 1].start);
    }
    if i > 0 {
        assert(s[i - 1].end <= s[i].start);
        assert(s[i - 1].valid());
    }
    crate::model::lemma_inserted_at(t, r, i);
    assert(t.insert(i, r) =~= s);
}

} // verus!
