//! How the lines of a map listing are read.
use vstd::prelude::*;
use crate::maps::{MemoryMapModel, MemoryRegion, Region};

verus! {

/// A space or a tab.
pub open spec fn is_gap(c: u8) -> bool {
    c == 32 || c == 9
}

/// Between `i` and `j` there are only spaces and tabs.
pub open spec fn gap(line: Seq<u8>, i: int, j: int) -> bool {
    &&& 0 <= i <= j <= line.len()
    &&& forall|k: int| i <= k < j ==> is_gap(#[trigger] line[k])
}

/// Between `i` and `j` there is a word, and behind it the end or a space or a tab.
pub open spec fn word(line: Seq<u8>, i: int, j: int) -> bool {
    &&& 0 <= i < j <= line.len()
    &&& forall|k: int| i <= k < j ==> !is_gap(#[trigger] line[k])
    &&& j < line.len() ==> is_gap(line[j])
}

/// Where the words of a line are: five of them, then the label.
pub struct Words {
    pub range: (int, int),
    pub perms: (int, int),
    pub offset: (int, int),
    pub device: (int, int),
    pub inode: (int, int),
    pub label: int,
}

pub open spec fn has_words(line: Seq<u8>, w: Words) -> bool {
    &&& gap(line, 0, w.range.0)
    &&& word(line, w.range.0, w.range.1)
    &&& gap(line, w.range.1, w.perms.0)
    &&& word(line, w.perms.0, w.perms.1)
    &&& gap(line, w.perms.1, w.offset.0)
    &&& word(line, w.offset.0, w.offset.1)
    &&& gap(line, w.offset.1, w.device.0)
    &&& word(line, w.device.0, w.device.1)
    &&& gap(line, w.device.1, w.inode.0)
    &&& word(line, w.inode.0, w.inode.1)
    &&& gap(line, w.inode.1, w.label)
    &&& w.label < line.len() ==> !is_gap(line[w.label])
}

/// The bytes are text that denotes the number: digits, perhaps behind a plus sign.
pub open spec fn number_text(b: Seq<u8>, base: nat, n: nat) -> bool {
    vstd::utf8::valid_utf8(b) && crate::proc_maps::number_value(vstd::utf8::decode_utf8(b), base)
        == Some(n)
}

/// The bytes are two numbers in base sixteen with `mark` between them, the first one there is.
pub open spec fn two_numbers(b: Seq<u8>, mark: u8, x: nat, y: nat) -> bool {
    exists|p: int|
        {
            &&& 0 <= p < b.len()
            &&& #[trigger] b[p] == mark
            &&& forall|k: int| 0 <= k < p ==> b[k] != mark
            &&& number_text(b.subrange(0, p), 16, x)
            &&& number_text(b.subrange(p + 1, b.len() as int), 16, y)
        }
}

/// The letter or a hyphen.
pub open spec fn flag(c: u8, letter: u8, set: bool) -> bool {
    if set {
        c == letter
    } else {
        c == 45
    }
}

/// The words of the line describe the region: its bounds in hexadecimal with a hyphen between
/// them; `r`, `w` and `x`, or a hyphen for each, and `s` or `p`; the offset in hexadecimal; the
/// device, two hexadecimal numbers with a colon between them; the inode in base ten; and the
/// label, which is all the rest.
pub open spec fn describes(line: Seq<u8>, w: Words, r: Region) -> bool {
    &&& two_numbers(line.subrange(w.range.0, w.range.1), 45, r.start as nat, r.end as nat)
    &&& w.perms.1 - w.perms.0 == 4
    &&& flag(line[w.perms.0], 114, r.prot_read)
    &&& flag(line[w.perms.0 + 1], 119, r.prot_write)
    &&& flag(line[w.perms.0 + 2], 120, r.prot_exec)
    &&& line[w.perms.0 + 3] == (if r.shared {
        115u8
    } else {
        112u8
    })
    &&& number_text(line.subrange(w.offset.0, w.offset.1), 16, r.file_offset as nat)
    &&& two_numbers(
        line.subrange(w.device.0, w.device.1),
        58,
        r.dev_major as nat,
        r.dev_minor as nat,
    )
    &&& number_text(line.subrange(w.inode.0, w.inode.1), 10, r.inode as nat)
    &&& r.label == line.subrange(w.label, line.len() as int)
}

proof fn lemma_field(line: Seq<u8>, i: int, start: int, end: int, complaint: Seq<char>)
    requires
        gap(line, i, start),
        word(line, start, end),
    ensures
        crate::proc_maps::field_of(line, i, complaint) == Ok::<(Seq<u8>, int), Seq<char>>(
            (line.subrange(start, end), end),
        ),
{
    assert forall|k: int| i <= k < start implies crate::proc_maps::is_blank(#[trigger] line[k]) by {
        assert(is_gap(line[k]));
    }
    assert forall|k: int| start <= k < end implies !crate::proc_maps::is_blank(
        #[trigger] line[k],
    ) by {
        assert(!is_gap(line[k]));
    }
    crate::listing_laws::lemma_after_blanks(line, i, start);
    crate::listing_laws::lemma_field_end(line, start, end);
}

proof fn lemma_two(b: Seq<u8>, mark: u8, x: nat, y: nat)
    ensures
        two_numbers(b, mark, x, y) <==> ({
            let p = crate::proc_maps::position_of(b, mark, 0);
            &&& p < b.len()
            &&& number_text(b.take(p), 16, x)
            &&& number_text(b.skip(p + 1), 16, y)
        }),
{
    let q = crate::proc_maps::position_of(b, mark, 0);
    crate::proc_maps::lemma_position_of(b, mark, 0);
    if q < b.len() {
        assert(b.take(q) =~= b.subrange(0, q));
        assert(b.skip(q + 1) =~= b.subrange(q + 1, b.len() as int));
        assert(b[q] == mark);
    }
    if two_numbers(b, mark, x, y) {
        let p = choose|p: int|
            {
                &&& 0 <= p < b.len()
                &&& #[trigger] b[p] == mark
                &&& forall|k: int| 0 <= k < p ==> b[k] != mark
                &&& number_text(b.subrange(0, p), 16, x)
                &&& number_text(b.subrange(p + 1, b.len() as int), 16, y)
            };
        crate::listing_laws::lemma_position(b, mark, 0, p);
        assert(p == q);
    }
}

/// A line with five words and a label is read as a region exactly when the words describe it.
#[verifier::rlimit(50)]
pub proof fn law_line_is_read_as_it_describes(line: Seq<u8>, w: Words, r: Region)
    requires
        has_words(line, w),
    ensures
        crate::proc_maps::line_region(line) == Ok::<Option<Region>, Seq<char>>(Some(r))
            <==> describes(line, w, r),
{
    let range = line.subrange(w.range.0, w.range.1);
    let perms = line.subrange(w.perms.0, w.perms.1);
    let device = line.subrange(w.device.0, w.device.1);
    lemma_field(line, 0, w.range.0, w.range.1, Seq::empty());
    lemma_field(
        line,
        w.range.1,
        w.perms.0,
        w.perms.1,
        "missing permissions field in proc maps line"@,
    );
    lemma_field(
        line,
        w.perms.1,
        w.offset.0,
        w.offset.1,
        "missing file offset field in proc maps line"@,
    );
    lemma_field(
        line,
        w.offset.1,
        w.device.0,
        w.device.1,
        "missing device field in proc maps line"@,
    );
    lemma_field(
        line,
        w.device.1,
        w.inode.0,
        w.inode.1,
        "missing inode field in proc maps line"@,
    );
    assert forall|k: int| w.inode.1 <= k < w.label implies crate::proc_maps::is_blank(
        #[trigger] line[k],
    ) by {
        assert(is_gap(line[k]));
    }
    crate::listing_laws::lemma_after_blanks(line, w.inode.1, w.label);
    assert(line.skip(w.label) =~= line.subrange(w.label, line.len() as int));
    lemma_range_of(range, r.start, r.end);
    lemma_dev_of(device, r.dev_major, r.dev_minor);
    lemma_perms_of(perms, r);
    if perms.len() == 4 {
        assert(perms[0] == line[w.perms.0] && perms[1] == line[w.perms.0 + 1] && perms[2]
            == line[w.perms.0 + 2] && perms[3] == line[w.perms.0 + 3]);
    }
    let offset = line.subrange(w.offset.0, w.offset.1);
    let inode = line.subrange(w.inode.0, w.inode.1);
    assert(crate::proc_maps::offset_of(offset) == Ok::<u64, Seq<char>>(r.file_offset)
        <==> number_text(offset, 16, r.file_offset as nat));
    assert(crate::proc_maps::inode_of(inode) == Ok::<u64, Seq<char>>(r.inode) <==> number_text(
        inode,
        10,
        r.inode as nat,
    ));
    lemma_assembled(line, w, r);
}

proof fn lemma_range_of(b: Seq<u8>, x: u64, y: u64)
    ensures
        crate::proc_maps::range_of(b) == Ok::<(u64, u64), Seq<char>>((x, y)) <==> two_numbers(
            b,
            45,
            x as nat,
            y as nat,
        ),
{
    lemma_two(b, 45, x as nat, y as nat);
    crate::proc_maps::lemma_position_of(b, 45, 0);
}

proof fn lemma_dev_of(b: Seq<u8>, x: u32, y: u32)
    ensures
        crate::proc_maps::dev_of(b) == Ok::<(u32, u32), Seq<char>>((x, y)) <==> two_numbers(
            b,
            58,
            x as nat,
            y as nat,
        ),
{
    lemma_two(b, 58, x as nat, y as nat);
    crate::proc_maps::lemma_position_of(b, 58, 0);
}

proof fn lemma_perms_of(b: Seq<u8>, r: Region)
    ensures
        ({
            let p = crate::proc_maps::perms_of(b);
            (p is Ok && p->Ok_0.read == r.prot_read && p->Ok_0.write == r.prot_write
                && p->Ok_0.execute == r.prot_exec && p->Ok_0.shared == r.shared) <==> (b.len() == 4
                && flag(b[0], 114, r.prot_read) && flag(b[1], 119, r.prot_write) && flag(
                b[2],
                120,
                r.prot_exec,
            ) && b[3] == (if r.shared {
                115u8
            } else {
                112u8
            }))
        }),
{
}

/// A line is read as the region that its words are read as, one by one.
proof fn lemma_assembled(line: Seq<u8>, w: Words, r: Region)
    requires
        has_words(line, w),
        crate::proc_maps::field_of(line, 0, Seq::empty()) == Ok::<(Seq<u8>, int), Seq<char>>(
            (line.subrange(w.range.0, w.range.1), w.range.1),
        ),
        crate::proc_maps::field_of(
            line,
            w.range.1,
            "missing permissions field in proc maps line"@,
        ) == Ok::<(Seq<u8>, int), Seq<char>>((line.subrange(w.perms.0, w.perms.1), w.perms.1)),
        crate::proc_maps::field_of(
            line,
            w.perms.1,
            "missing file offset field in proc maps line"@,
        ) == Ok::<(Seq<u8>, int), Seq<char>>((line.subrange(w.offset.0, w.offset.1), w.offset.1)),
        crate::proc_maps::field_of(line, w.offset.1, "missing device field in proc maps line"@)
            == Ok::<(Seq<u8>, int), Seq<char>>(
            (line.subrange(w.device.0, w.device.1), w.device.1),
        ),
        crate::proc_maps::field_of(line, w.device.1, "missing inode field in proc maps line"@)
            == Ok::<(Seq<u8>, int), Seq<char>>((line.subrange(w.inode.0, w.inode.1), w.inode.1)),
        crate::proc_maps::after_blanks(line, w.inode.1) == w.label,
    ensures
        ({
            let p = crate::proc_maps::perms_of(line.subrange(w.perms.0, w.perms.1));
            crate::proc_maps::line_region(line) == Ok::<Option<Region>, Seq<char>>(Some(r)) <==> {
                &&& crate::proc_maps::range_of(line.subrange(w.range.0, w.range.1)) == Ok::<
                    (u64, u64),
                    Seq<char>,
                >((r.start, r.end))
                &&& p is Ok
                &&& p->Ok_0.read == r.prot_read
                &&& p->Ok_0.write == r.prot_write
                &&& p->Ok_0.execute == r.prot_exec
                &&& p->Ok_0.shared == r.shared
                &&& crate::proc_maps::offset_of(line.subrange(w.offset.0, w.offset.1)) == Ok::<
                    u64,
                    Seq<char>,
                >(r.file_offset)
                &&& crate::proc_maps::dev_of(line.subrange(w.device.0, w.device.1)) == Ok::<
                    (u32, u32),
                    Seq<char>,
                >((r.dev_major, r.dev_minor))
                &&& crate::proc_maps::inode_of(line.subrange(w.inode.0, w.inode.1)) == Ok::<
                    u64,
                    Seq<char>,
                >(r.inode)
                &&& r.label == line.skip(w.label)
            }
        }),
{
}

proof fn lemma_blanks(s: Seq<u8>, i: int)
    requires
        0 <= i <= s.len(),
    ensures
        gap(s, i, crate::proc_maps::after_blanks(s, i)),
        crate::proc_maps::after_blanks(s, i) < s.len() ==> !is_gap(
            s[crate::proc_maps::after_blanks(s, i)],
        ),
    decreases s.len() - i,
{
    if i < s.len() && crate::proc_maps::is_blank(s[i]) {
        lemma_blanks(s, i + 1);
    }
}

proof fn lemma_word(s: Seq<u8>, i: int)
    requires
        0 <= i < s.len(),
        !is_gap(s[i]),
    ensures
        word(s, i, crate::proc_maps::field_end(s, i)),
    decreases s.len() - i,
{
    if i + 1 < s.len() && !is_gap(s[i + 1]) {
        lemma_word(s, i + 1);
        assert(crate::proc_maps::field_end(s, i) == crate::proc_maps::field_end(s, i + 1));
    } else {
        reveal_with_fuel(crate::proc_maps::field_end, 3);
        assert(crate::proc_maps::field_end(s, i) == i + 1);
    }
}

/// A line is read as no region exactly when it is blank, and as a region only if it has five
/// words.
pub proof fn law_only_whole_lines_are_read(line: Seq<u8>)
    ensures
        crate::proc_maps::line_region(line) == Ok::<Option<Region>, Seq<char>>(None) <==> gap(
            line,
            0,
            line.len() as int,
        ),
        crate::proc_maps::line_region(line) is Ok && crate::proc_maps::line_region(line)->Ok_0
            is Some ==> exists|w: Words| has_words(line, w),
{
    let a = crate::proc_maps::after_blanks(line, 0);
    lemma_blanks(line, 0);
    if gap(line, 0, line.len() as int) {
        if a < line.len() {
            assert(is_gap(line[a]));
        }
    } else if a >= line.len() {
        assert(gap(line, 0, line.len() as int));
    }
    if crate::proc_maps::line_region(line) is Ok && crate::proc_maps::line_region(line)->Ok_0
        is Some {
        lemma_word(line, a);
        let b = crate::proc_maps::field_end(line, a);
        lemma_blanks(line, b);
        let c = crate::proc_maps::after_blanks(line, b);
        lemma_word(line, c);
        let d = crate::proc_maps::field_end(line, c);
        lemma_blanks(line, d);
        let e = crate::proc_maps::after_blanks(line, d);
        lemma_word(line, e);
        let f = crate::proc_maps::field_end(line, e);
        lemma_blanks(line, f);
        let g = crate::proc_maps::after_blanks(line, f);
        lemma_word(line, g);
        let h = crate::proc_maps::field_end(line, g);
        lemma_blanks(line, h);
        let i = crate::proc_maps::after_blanks(line, h);
        lemma_word(line, i);
        let j = crate::proc_maps::field_end(line, i);
        lemma_blanks(line, j);
        let k = crate::proc_maps::after_blanks(line, j);
        let w = Words {
            range: (a, b),
            perms: (c, d),
            offset: (e, f),
            device: (g, h),
            inode: (i, j),
            label: k,
        };
        assert(has_words(line, w));
    }
}

/// The regions of a listing, in the order of its lines.
pub open spec fn regions_listed(b: Seq<u8>) -> Result<Seq<Region>, Seq<char>> {
    crate::proc_maps::regions_of_lines(b, 0, Seq::empty())
}

proof fn lemma_position_shift(p: Seq<u8>, y: Seq<u8>, c: u8, at: int)
    requires
        0 <= at <= y.len(),
    ensures
        crate::proc_maps::position_of(p + y, c, p.len() + at) == p.len()
            + crate::proc_maps::position_of(y, c, at),
    decreases y.len() - at,
{
    if at < y.len() {
        assert((p + y)[p.len() + at] == y[at]);
        if y[at] != c {
            lemma_position_shift(p, y, c, at + 1);
        }
    }
}

proof fn lemma_shift(p: Seq<u8>, y: Seq<u8>, at: int, got: Seq<Region>)
    requires
        0 <= at <= y.len(),
    ensures
        crate::proc_maps::regions_of_lines(p + y, p.len() + at, got)
            == crate::proc_maps::regions_of_lines(y, at, got),
    decreases y.len() - at,
{
    let n = crate::proc_maps::position_of(y, 10, at);
    lemma_position_shift(p, y, 10, at);
    crate::proc_maps::lemma_position_of(y, 10, at);
    assert((p + y).subrange(p.len() + at, p.len() + n) =~= y.subrange(at, n));
    let region = crate::proc_maps::line_region(
        crate::proc_maps::without_return(y.subrange(at, n)),
    );
    if region is Ok && n < y.len() {
        let now = match region->Ok_0 {
            None => got,
            Some(r) => got.push(r),
        };
        lemma_shift(p, y, n + 1, now);
    }
}

proof fn lemma_behind(b: Seq<u8>, at: int, got: Seq<Region>)
    requires
        0 <= at <= b.len(),
    ensures
        crate::proc_maps::regions_of_lines(b, at, got) == match crate::proc_maps::regions_of_lines(
            b,
            at,
            Seq::empty(),
        ) {
            Err(text) => Err::<Seq<Region>, Seq<char>>(text),
            Ok(rs) => Ok(got + rs),
        },
    decreases b.len() - at,
{
    let none = Seq::<Region>::empty();
    let n = crate::proc_maps::position_of(b, 10, at);
    crate::proc_maps::lemma_position_of(b, 10, at);
    let region = crate::proc_maps::line_region(
        crate::proc_maps::without_return(b.subrange(at, n)),
    );
    if region is Ok {
        let one = match region->Ok_0 {
            None => none,
            Some(r) => none.push(r),
        };
        let now = match region->Ok_0 {
            None => got,
            Some(r) => got.push(r),
        };
        assert(now =~= got + one);
        if n < b.len() {
            lemma_behind(b, n + 1, now);
            lemma_behind(b, n + 1, one);
            let rest = crate::proc_maps::regions_of_lines(b, n + 1, none);
            if rest is Ok {
                assert(now + rest->Ok_0 =~= got + (one + rest->Ok_0));
            }
        }
    }
}

proof fn lemma_front(x: Seq<u8>, y: Seq<u8>, at: int, got: Seq<Region>)
    requires
        0 <= at <= x.len(),
    ensures
        crate::proc_maps::regions_of_lines(x + seq![10u8] + y, at, got)
            == match crate::proc_maps::regions_of_lines(x, at, got) {
            Err(text) => Err::<Seq<Region>, Seq<char>>(text),
            Ok(now) => crate::proc_maps::regions_of_lines(
                x + seq![10u8] + y,
                x.len() as int + 1,
                now,
            ),
        },
    decreases x.len() - at,
{
    let b = x + seq![10u8] + y;
    let n = crate::proc_maps::position_of(x, 10, at);
    crate::proc_maps::lemma_position_of(x, 10, at);
    assert forall|k: int| at <= k < n implies #[trigger] b[k] != 10 by {
        assert(b[k] == x[k]);
    }
    assert(b[n] == 10) by {
        if n < x.len() {
            assert(b[n] == x[n]);
        }
    }
    crate::listing_laws::lemma_position(b, 10, at, n);
    assert(b.subrange(at, n) =~= x.subrange(at, n));
    let region = crate::proc_maps::line_region(
        crate::proc_maps::without_return(x.subrange(at, n)),
    );
    if region is Ok && n < x.len() {
        let now = match region->Ok_0 {
            None => got,
            Some(r) => got.push(r),
        };
        lemma_front(x, y, n + 1, now);
    }
}

/// The lines of a listing are read one by one: a listing of two parts with a line break between
/// them can be read exactly when both parts can, and holds the regions of both, in order.
pub proof fn law_lines_are_read_one_by_one(x: Seq<u8>, y: Seq<u8>)
    ensures
        match (regions_listed(x), regions_listed(y)) {
            (Ok(a), Ok(b)) => regions_listed(x + seq![10u8] + y) == Ok::<Seq<Region>, Seq<char>>(
                a + b,
            ),
            _ => regions_listed(x + seq![10u8] + y) is Err,
        },
{
    lemma_front(x, y, 0, Seq::empty());
    let head = x + seq![10u8];
    if regions_listed(x) is Ok {
        let a = regions_listed(x)->Ok_0;
        lemma_shift(head, y, 0, a);
        lemma_behind(y, 0, a);
    }
}

/// A line without a line break in it holds its region, or none if it is blank; a carriage return
/// that ends it does not count.
pub proof fn law_one_line_holds_its_region(line: Seq<u8>)
    requires
        forall|k: int| 0 <= k < line.len() ==> #[trigger] line[k] != 10,
        line.len() > 0 ==> line.last() != 13,
    ensures
        regions_listed(line) == match crate::proc_maps::line_region(line) {
            Err(text) => Err::<Seq<Region>, Seq<char>>(text),
            Ok(None) => Ok(Seq::empty()),
            Ok(Some(r)) => Ok(seq![r]),
        },
        regions_listed(line.push(13)) == regions_listed(line),
{
    let n = crate::proc_maps::position_of(line, 10, 0);
    crate::proc_maps::lemma_position_of(line, 10, 0);
    if n < line.len() {
        assert(line[n] != 10);
    }
    assert(line.subrange(0, n) =~= line);
    let more = line.push(13);
    let m = crate::proc_maps::position_of(more, 10, 0);
    crate::proc_maps::lemma_position_of(more, 10, 0);
    if m < more.len() {
        if m < line.len() {
            assert(line[m] != 10);
        }
    }
    assert(more.subrange(0, m) =~= more);
    assert(more.drop_last() =~= line);
}

/// A listing gives a map exactly when its lines can be read and hold regions of whole pages of
/// which no two meet; the map has the regions of the lines, in address order. Text is read as
/// its bytes are.
pub proof fn law_listing_gives_its_map(
    bytes: &[u8],
    r: Result<MemoryMapModel, String>,
    regions: &[MemoryRegion],
    text: &str,
    q: Result<MemoryMapModel, String>,
)
    requires
        call_ensures(crate::proc_maps::parse_proc_maps_bytes, (bytes,), r),
        r is Ok ==> call_ensures(MemoryMapModel::regions, (&r->Ok_0,), regions),
        call_ensures(crate::proc_maps::parse_proc_maps, (text,), q),
    ensures
        ({
            let listed = regions_listed(bytes@);
            let s = listed->Ok_0;
            &&& r is Ok <==> listed is Ok && (forall|i: int|
                0 <= i < s.len() ==> crate::region_laws::whole_pages(#[trigger] s[i])) && (forall|
                i: int,
                j: int,
            |
                0 <= i < j < s.len() ==> !crate::region_laws::meet(
                    #[trigger] s[i],
                    #[trigger] s[j],
                ))
            &&& r is Ok ==> {
                let t = crate::maps::region_views(regions@);
                crate::region_laws::tidy(t) && t.to_multiset() == s.to_multiset()
            }
        }),
        bytes@ == vstd::utf8::encode_utf8(text@) ==> (q is Ok <==> r is Ok) && (r is Ok
            ==> q->Ok_0@ == r->Ok_0@),
{
    let listed = regions_listed(bytes@);
    if listed is Ok {
        crate::region_laws::lemma_made(listed->Ok_0);
    }
}

/// A row of digits is read as the number that it denotes.
pub proof fn law_digits_are_read_as_their_number(s: Seq<char>, base: nat)
    requires
        base == 10 || base == 16,
        s.len() > 0,
        forall|i: int|
            0 <= i < s.len() ==> crate::saying_laws::digit_worth(#[trigger] s[i]) < base,
    ensures
        crate::saying_laws::worth(s, base as int) >= 0,
        crate::proc_maps::number_value(s, base) == Some(
            crate::saying_laws::worth(s, base as int) as nat,
        ),
{
    lemma_digits(s, base);
    assert(crate::saying_laws::digit_worth(s[0]) < base);
}

proof fn lemma_digits(s: Seq<char>, base: nat)
    requires
        base == 10 || base == 16,
        forall|i: int|
            0 <= i < s.len() ==> crate::saying_laws::digit_worth(#[trigger] s[i]) < base,
    ensures
        crate::saying_laws::worth(s, base as int) >= 0,
        crate::proc_maps::digits_value(s, base) == Some(
            crate::saying_laws::worth(s, base as int) as nat,
        ),
    decreases s.len(),
{
    if s.len() > 0 {
        let d = s.drop_last();
        assert forall|i: int| 0 <= i < d.len() implies crate::saying_laws::digit_worth(
            #[trigger] d[i],
        ) < base by {
            assert(d[i] == s[i]);
        }
        lemma_digits(d, base);
        assert(crate::saying_laws::digit_worth(s[s.len() - 1]) < base);
        let high = crate::saying_laws::worth(d, base as int);
        assert(high * base >= 0) by (nonlinear_arith)
            requires
                high >= 0,
                base >= 0,
        ;
    }
}

/// What is said of permissions that are none: their length, or the first character that is
/// wrong.
pub proof fn law_wrong_permissions_are_explained(field: Seq<u8>)
    requires
        crate::proc_maps::perms_of(field) is Err,
    ensures
        ({
            let text = crate::proc_maps::perms_of(field)->Err_0;
            if field.len() != 4 {
                crate::saying_laws::says(
                    text,
                    crate::saying_laws::line(
                        "invalid permissions field length: expected 4 bytes, got "@,
                    ).number(field.len() as int),
                )
            } else if field[0] != 114 && field[0] != 45 {
                text == "invalid read permission char '"@ + seq![field[0] as char] + "'"@
            } else if field[1] != 119 && field[1] != 45 {
                text == "invalid write permission char '"@ + seq![field[1] as char] + "'"@
            } else if field[2] != 120 && field[2] != 45 {
                text == "invalid exec permission char '"@ + seq![field[2] as char] + "'"@
            } else {
                text == "invalid sharing char '"@ + seq![field[3] as char] + "'"@
            }
        }),
{
    broadcast use crate::saying_laws::group_says;

    if field.len() == 4 {
        assert("invalid read permission char '"@.push(field[0] as char)
            =~= "invalid read permission char '"@ + seq![field[0] as char]);
        assert("invalid write permission char '"@.push(field[1] as char)
            =~= "invalid write permission char '"@ + seq![field[1] as char]);
        assert("invalid exec permission char '"@.push(field[2] as char)
            =~= "invalid exec permission char '"@ + seq![field[2] as char]);
        assert("invalid sharing char '"@.push(field[3] as char) =~= "invalid sharing char '"@
            + seq![field[3] as char]);
    }
}

/// A line that ends before its words do is told which word is missing.
pub proof fn law_missing_words_are_explained(line: Seq<u8>, w: Words)
    ensures
        gap(line, 0, w.range.0) && word(line, w.range.0, w.range.1) && crate::proc_maps::range_of(
            line.subrange(w.range.0, w.range.1),
        ) is Ok && gap(line, w.range.1, line.len() as int) ==> crate::proc_maps::line_region(line)
            == Err::<Option<Region>, Seq<char>>("missing permissions field in proc maps line"@),
        gap(line, 0, w.range.0) && word(line, w.range.0, w.range.1) && crate::proc_maps::range_of(
            line.subrange(w.range.0, w.range.1),
        ) is Ok && gap(line, w.range.1, w.perms.0) && word(line, w.perms.0, w.perms.1)
            && crate::proc_maps::perms_of(line.subrange(w.perms.0, w.perms.1)) is Ok && gap(
            line,
            w.perms.1,
            line.len() as int,
        ) ==> crate::proc_maps::line_region(line) == Err::<Option<Region>, Seq<char>>(
            "missing file offset field in proc maps line"@,
        ),
{
    if gap(line, 0, w.range.0) && word(line, w.range.0, w.range.1) {
        lemma_field(line, 0, w.range.0, w.range.1, Seq::empty());
        if gap(line, w.range.1, line.len() as int) {
            lemma_no_field(line, w.range.1);
        }
        if gap(line, w.range.1, w.perms.0) && word(line, w.perms.0, w.perms.1) {
            lemma_field(
                line,
                w.range.1,
                w.perms.0,
                w.perms.1,
                "missing permissions field in proc maps line"@,
            );
            if gap(line, w.perms.1, line.len() as int) {
                lemma_no_field(line, w.perms.1);
            }
        }
    }
}

proof fn lemma_no_field(line: Seq<u8>, i: int)
    requires
        gap(line, i, line.len() as int),
    ensures
        crate::proc_maps::after_blanks(line, i) == line.len(),
{
    lemma_blanks(line, i);
    let a = crate::proc_maps::after_blanks(line, i);
    if a < line.len() {
        assert(is_gap(line[a]));
    }
}

} // verus!
