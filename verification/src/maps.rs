//! Virtual-memory regions and the normalized map that holds them.
use vstd::prelude::*;
use vstd::string::*;
use crate::bytes::{bytes_equal, copy_range};
use crate::text::Line;
pub use crate::model::MemoryMapModel;
pub use crate::proc_maps::{parse_proc_maps, parse_proc_maps_bytes};

verus! {

/// The mathematical value of a [`MemoryRegion`].
#[verifier::ext_equal]
pub struct Region {
    pub start: u64,
    pub end: u64,
    pub prot_read: bool,
    pub prot_write: bool,
    pub prot_exec: bool,
    pub shared: bool,
    pub file_offset: u64,
    pub dev_major: u32,
    pub dev_minor: u32,
    pub inode: u64,
    pub label: Seq<u8>,
}

impl Region {
    /// A region is nonempty and its bounds lie on page boundaries.
    pub open spec fn valid(self) -> bool {
        &&& self.start < self.end
        &&& self.start % 4096 == 0
        &&& self.end % 4096 == 0
    }

    /// What is wrong with an invalid region.
    pub open spec fn complaint(self) -> Option<Seq<char>> {
        if self.start >= self.end {
            Some(
                "invalid region bounds: start 0x"@ + crate::text::hex(self.start as int)
                    + " >= end 0x"@ + crate::text::hex(self.end as int),
            )
        } else if self.start % 4096 != 0 {
            Some(
                "region start 0x"@ + crate::text::hex(self.start as int)
                    + " is not aligned to 4096-byte page boundary"@,
            )
        } else if self.end % 4096 != 0 {
            Some(
                "region end 0x"@ + crate::text::hex(self.end as int)
                    + " is not aligned to 4096-byte page boundary"@,
            )
        } else {
            None
        }
    }

    /// Two regions describe the same mapping; the label is only descriptive.
    pub open spec fn same_vma(self, other: Region) -> bool {
        self == (Region { label: self.label, ..other })
    }

    pub open spec fn contains(self, addr: u64) -> bool {
        self.start <= addr < self.end
    }

    pub open spec fn overlaps(self, other: Region) -> bool {
        self.start < other.end && self.end > other.start
    }

    /// The order of regions by start address, then end address.
    pub open spec fn before_or_equal(self, other: Region) -> bool {
        self.start < other.start || (self.start == other.start && self.end <= other.end)
    }

    /// Read, write and execute permission as bits 0, 1 and 2.
    pub open spec fn prot_code(self) -> u8 {
        ((if self.prot_read { 1int } else { 0 }) + (if self.prot_write { 2int } else { 0 }) + (
        if self.prot_exec { 4int } else { 0 })) as u8
    }

    /// 1 for a private mapping, 2 for a shared one.
    pub open spec fn sharing_code(self) -> u8 {
        if self.shared { 2 } else { 1 }
    }

    /// The line that describes the region, with `label` as the text of its label.
    pub open spec fn line(self, label: Seq<char>) -> Seq<char> {
        let fields = crate::text::zero_padded(crate::text::hex(self.start as int), 8) + "-"@
            + crate::text::zero_padded(crate::text::hex(self.end as int), 8) + " "@ + (
        if self.prot_read { "r"@ } else { "-"@ }) + (if self.prot_write { "w"@ } else { "-"@ }) + (
        if self.prot_exec { "x"@ } else { "-"@ }) + (if self.shared { "s"@ } else { "p"@ }) + " "@
            + crate::text::zero_padded(crate::text::hex(self.file_offset as int), 8) + " "@
            + crate::text::zero_padded(crate::text::hex(self.dev_major as int), 2) + ":"@
            + crate::text::zero_padded(crate::text::hex(self.dev_minor as int), 2) + " "@
            + crate::text::dec(self.inode as int);
        if label.len() == 0 {
            fields
        } else {
            fields + " "@ + label
        }
    }
}

/// The text that lossy UTF-8 decoding makes of `bytes`.
pub uninterp spec fn lossy_text(bytes: Seq<u8>) -> Seq<char>;

/// Calls `String::from_utf8_lossy`: the result depends on the bytes alone, and valid UTF-8
/// comes out as the text that it encodes. What stands for an invalid sequence is not stated.
#[verifier::external_body]
fn decode_lossy(bytes: &[u8]) -> (s: String)
    ensures
        s@ == lossy_text(bytes@),
        vstd::utf8::valid_utf8(bytes@) ==> s@ == vstd::utf8::decode_utf8(bytes@),
{
    String::from_utf8_lossy(bytes).into_owned()
}

/// A single normalized virtual-memory region.
#[derive(Debug, Eq)]
pub struct MemoryRegion {
    pub start: u64,
    pub end: u64,
    pub prot_read: bool,
    pub prot_write: bool,
    pub prot_exec: bool,
    pub shared: bool,
    pub file_offset: u64,
    pub dev_major: u32,
    pub dev_minor: u32,
    pub inode: u64,
    pub label: Vec<u8>,
}

impl View for MemoryRegion {
    type V = Region;

    open spec fn view(&self) -> Region {
        Region {
            start: self.start,
            end: self.end,
            prot_read: self.prot_read,
            prot_write: self.prot_write,
            prot_exec: self.prot_exec,
            shared: self.shared,
            file_offset: self.file_offset,
            dev_major: self.dev_major,
            dev_minor: self.dev_minor,
            inode: self.inode,
            label: self.label@,
        }
    }
}

impl Clone for MemoryRegion {
    fn clone(&self) -> (r: MemoryRegion)
        ensures
            r@ == self@,
    {
        let label = copy_range(self.label.as_slice(), 0, self.label.len());
        assert(label@ =~= self.label@);
        MemoryRegion {
            start: self.start,
            end: self.end,
            prot_read: self.prot_read,
            prot_write: self.prot_write,
            prot_exec: self.prot_exec,
            shared: self.shared,
            file_offset: self.file_offset,
            dev_major: self.dev_major,
            dev_minor: self.dev_minor,
            inode: self.inode,
            label,
        }
    }
}

impl PartialEq for MemoryRegion {
    fn eq(&self, other: &MemoryRegion) -> (r: bool) {
        self.canonical_eq(other) && bytes_equal(self.label.as_slice(), other.label.as_slice())
    }
}

impl vstd::std_specs::cmp::PartialEqSpecImpl for MemoryRegion {
    open spec fn obeys_eq_spec() -> bool {
        true
    }

    open spec fn eq_spec(&self, other: &MemoryRegion) -> bool {
        self@ == other@
    }
}

impl MemoryRegion {
    pub const PAGE_SIZE: u64 = 4096;

    /// Checks the bounds of this region.
    pub fn validate(&self) -> (r: Result<(), String>)
        ensures
            r is Ok <==> self@.valid(),
            match self@.complaint() {
                None => r is Ok,
                Some(text) => r is Err && r->Err_0@ == text,
            },
    {
        if self.start >= self.end {
            return Err(
                Line::new("invalid region bounds: start 0x").hex(self.start).lit(
                    " >= end 0x",
                ).hex(self.end).done(),
            );
        }
        if self.start % Self::PAGE_SIZE != 0 {
            return Err(
                Line::new("region start 0x").hex(self.start).lit(
                    " is not aligned to 4096-byte page boundary",
                ).done(),
            );
        }
        if self.end % Self::PAGE_SIZE != 0 {
            return Err(
                Line::new("region end 0x").hex(self.end).lit(
                    " is not aligned to 4096-byte page boundary",
                ).done(),
            );
        }
        Ok(())
    }

    /// Compares everything but the descriptive label.
    pub fn canonical_eq(&self, other: &MemoryRegion) -> (r: bool)
        ensures
            r == self@.same_vma(other@),
    {
        self.start == other.start && self.end == other.end && self.prot_read == other.prot_read
            && self.prot_write == other.prot_write && self.prot_exec == other.prot_exec
            && self.shared == other.shared && self.file_offset == other.file_offset
            && self.dev_major == other.dev_major && self.dev_minor == other.dev_minor && self.inode
            == other.inode
    }

    /// The protection as a number from 0 to 7: read 1, write 2, execute 4.
    pub fn prot_bits(&self) -> (bits: u8)
        ensures
            bits == self@.prot_code(),
    {
        let read: u8 = if self.prot_read { 1 } else { 0 };
        let write: u8 = if self.prot_write { 2 } else { 0 };
        let exec: u8 = if self.prot_exec { 4 } else { 0 };
        read + write + exec
    }

    /// The sharing mode: 1 for private, 2 for shared.
    pub fn sharing_byte(&self) -> (code: u8)
        ensures
            code == self@.sharing_code(),
    {
        if self.shared { 2 } else { 1 }
    }

    /// Formats the region as a line of a process map listing.
    pub fn format_maps_line(&self) -> (s: String)
        ensures
            s@ == self@.line(lossy_text(self.label@)),
            vstd::utf8::valid_utf8(self.label@) ==> s@ == self@.line(
                vstd::utf8::decode_utf8(self.label@),
            ),
    {
        let label = decode_lossy(self.label.as_slice());
        self.maps_line(label.as_str())
    }

    /// Formats the region with `label` as the text of its label.
    pub fn maps_line(&self, label: &str) -> (s: String)
        ensures
            s@ == self@.line(label@),
    {
        let line = Line::new("").hex_padded(self.start, 8).lit("-").hex_padded(self.end, 8).lit(
            " ",
        ).lit(if self.prot_read { "r" } else { "-" }).lit(
            if self.prot_write { "w" } else { "-" },
        ).lit(if self.prot_exec { "x" } else { "-" }).lit(
            if self.shared { "s" } else { "p" },
        ).lit(" ").hex_padded(self.file_offset, 8).lit(" ").hex_padded(
            self.dev_major as u64,
            2,
        ).lit(":").hex_padded(self.dev_minor as u64, 2).lit(" ").dec(self.inode);
        proof {
            reveal_strlit("");
            let first = crate::text::zero_padded(crate::text::hex(self.start as int), 8);
            assert(""@ + first =~= first);
        }
        if label.is_empty() {
            line.done()
        } else {
            line.lit(" ").lit(label).done()
        }
    }
}

pub open spec fn region_views(s: Seq<MemoryRegion>) -> Seq<Region> {
    Seq::new(s.len(), |i: int| s[i]@)
}

/// Every region is valid, and each ends before the next begins.
pub open spec fn canonical(s: Seq<Region>) -> bool {
    &&& forall|i: int| 0 <= i < s.len() ==> (#[trigger] s[i]).valid()
    &&& forall|i: int, j: int| 0 <= i < j < s.len() ==> (#[trigger] s[i]).end <= (#[trigger] s[j]).start
}

/// What is wrong with the first invalid region from position `i` on.
pub open spec fn first_invalid(s: Seq<Region>, i: int) -> Option<Seq<char>>
    decreases s.len() - i,
{
    if i < 0 || i >= s.len() {
        None
    } else if s[i].complaint() is Some {
        s[i].complaint()
    } else {
        first_invalid(s, i + 1)
    }
}

/// What is wrong with the first region, from position `i` on, that does not follow its
/// predecessor.
pub open spec fn first_disorder(s: Seq<Region>, i: int) -> Option<Seq<char>>
    decreases s.len() - i,
{
    if i < 1 || i >= s.len() {
        None
    } else if s[i - 1].start >= s[i].start {
        Some(
            "non-canonical snapshot ordering: region start 0x"@ + crate::text::hex(
                s[i - 1].start as int,
            ) + " is not strictly less than subsequent region start 0x"@ + crate::text::hex(
                s[i].start as int,
            ),
        )
    } else if s[i - 1].end > s[i].start {
        Some(
            "overlapping regions detected: [0x"@ + crate::text::hex(s[i - 1].start as int)
                + ", 0x"@ + crate::text::hex(s[i - 1].end as int) + ") overlaps with [0x"@
                + crate::text::hex(s[i].start as int) + ", 0x"@ + crate::text::hex(
                s[i].end as int,
            ) + ")"@,
        )
    } else {
        first_disorder(s, i + 1)
    }
}

/// What is wrong with a sequence of regions that is not canonical.
pub open spec fn order_complaint(s: Seq<Region>) -> Option<Seq<char>> {
    if first_invalid(s, 0) is Some {
        first_invalid(s, 0)
    } else {
        first_disorder(s, 1)
    }
}

proof fn lemma_first_invalid(s: Seq<Region>, i: int)
    requires
        0 <= i,
    ensures
        first_invalid(s, i) is None <==> forall|k: int| i <= k < s.len() ==> (#[trigger] s[k]).valid(),
    decreases s.len() - i,
{
    if i < s.len() {
        lemma_first_invalid(s, i + 1);
        assert(s[i].complaint() is None <==> s[i].valid());
    }
}

proof fn lemma_first_disorder(s: Seq<Region>, i: int)
    requires
        1 <= i,
    ensures
        first_disorder(s, i) is None <==> forall|k: int|
            i <= k < s.len() ==> s[k - 1].start < (#[trigger] s[k]).start && s[k - 1].end
                <= s[k].start,
    decreases s.len() - i,
{
    if i < s.len() {
        lemma_first_disorder(s, i + 1);
    }
}

proof fn lemma_chain(s: Seq<Region>, i: int, j: int)
    requires
        0 <= i < j < s.len(),
        forall|k: int| 0 <= k < s.len() ==> (#[trigger] s[k]).valid(),
        forall|k: int| 1 <= k < s.len() ==> s[k - 1].end <= (#[trigger] s[k]).start,
    ensures
        s[i].end <= s[j].start,
    decreases j - i,
{
    if i + 1 < j {
        lemma_chain(s, i, j - 1);
        assert(s[j - 1].valid());
        assert(s[j].start >= s[j - 1].end);
    } else {
        assert(s[j].start >= s[j - 1].end);
    }
}

/// Nothing is wrong with a sequence of regions exactly when it is canonical.
pub proof fn lemma_order_complaint(s: Seq<Region>)
    ensures
        order_complaint(s) is None <==> canonical(s),
{
    lemma_first_invalid(s, 0);
    lemma_first_disorder(s, 1);
    if order_complaint(s) is None {
        assert forall|i: int, j: int| 0 <= i < j < s.len() implies (#[trigger] s[i]).end
            <= (#[trigger] s[j]).start by {
            lemma_chain(s, i, j);
        }
    }
    if canonical(s) {
        assert forall|k: int| 1 <= k < s.len() implies s[k - 1].start < (#[trigger] s[k]).start
            && s[k - 1].end <= s[k].start by {
            assert(s[k - 1].valid());
        }
    }
}

/// Checks that the regions are valid, sorted by start address and free of overlap.
pub fn validate_regions_canonical_order(regions: &[MemoryRegion]) -> (r: Result<(), String>)
    ensures
        r is Ok <==> canonical(region_views(regions@)),
        match order_complaint(region_views(regions@)) {
            None => r is Ok,
            Some(text) => r is Err && r->Err_0@ == text,
        },
{
    let ghost s = region_views(regions@);
    proof {
        lemma_order_complaint(s);
    }
    let mut i: usize = 0;
    while i < regions.len()
        invariant
            i <= regions.len(),
            s == region_views(regions@),
            first_invalid(s, 0) == first_invalid(s, i as int),
            order_complaint(s) is None <==> canonical(s),
        decreases regions.len() - i,
    {
        assert(s[i as int] == regions@[i as int]@);
        match regions[i].validate() {
            Err(text) => {
                return Err(text);
            },
            Ok(_) => {},
        }
        i += 1;
    }
    let mut k: usize = 1;
    while k < regions.len()
        invariant
            1 <= k,
            k <= regions.len() || k == 1,
            s == region_views(regions@),
            first_invalid(s, 0) is None,
            first_disorder(s, 1) == first_disorder(s, k as int),
            order_complaint(s) is None <==> canonical(s),
        decreases regions.len() - k,
    {
        let prev = &regions[k - 1];
        let next = &regions[k];
        assert(s[k - 1] == prev@ && s[k as int] == next@);
        if prev.start >= next.start {
            return Err(
                Line::new("non-canonical snapshot ordering: region start 0x").hex(prev.start).lit(
                    " is not strictly less than subsequent region start 0x",
                ).hex(next.start).done(),
            );
        }
        if prev.end > next.start {
            return Err(
                Line::new("overlapping regions detected: [0x").hex(prev.start).lit(", 0x").hex(
                    prev.end,
                ).lit(") overlaps with [0x").hex(next.start).lit(", 0x").hex(next.end).lit(
                    ")",
                ).done(),
            );
        }
        k += 1;
    }
    Ok(())
}

} // verus!
