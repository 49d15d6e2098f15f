//! The encoding of one memory region in a trace.
use vstd::prelude::*;
use vstd::slice::slice_subrange;
use vstd::string::*;
use crate::bytes::{copy_range, push_bytes, push_len, push_u32, push_u64, read_u32, read_u64};
use crate::maps::{MemoryRegion, Region};
use crate::text::Line;

verus! {

/// Length of a region descriptor without its label.
pub const DESCRIPTOR_LEN_REGION_HEADER: usize = 48;

/// The bytes of a region: its numbers, its protection and sharing, two reserved zeros, and
/// its label behind the label's length.
pub open spec fn descriptor(r: Region) -> Seq<u8> {
    crate::bytes::le_bytes(r.start as nat, 8) + crate::bytes::le_bytes(r.end as nat, 8)
        + crate::bytes::le_bytes(r.file_offset as nat, 8) + crate::bytes::le_bytes(
        r.inode as nat,
        8,
    ) + crate::bytes::le_bytes(r.dev_major as nat, 4) + crate::bytes::le_bytes(
        r.dev_minor as nat,
        4,
    ) + seq![r.prot_code(), r.sharing_code(), 0u8, 0u8] + crate::bytes::le_bytes(r.label.len(), 4)
        + r.label
}

/// The region whose descriptor header stands at `at` and whose label has `label_len` bytes.
pub open spec fn region_at(b: Seq<u8>, at: int, label_len: int) -> Region {
    Region {
        start: crate::bytes::le_at(b, at, 8) as u64,
        end: crate::bytes::le_at(b, at + 8, 8) as u64,
        prot_read: b[at + 40] % 2 == 1,
        prot_write: (b[at + 40] / 2) % 2 == 1,
        prot_exec: (b[at + 40] / 4) % 2 == 1,
        shared: b[at + 41] == 2,
        file_offset: crate::bytes::le_at(b, at + 16, 8) as u64,
        dev_major: crate::bytes::le_at(b, at + 32, 4) as u32,
        dev_minor: crate::bytes::le_at(b, at + 36, 4) as u32,
        inode: crate::bytes::le_at(b, at + 24, 8) as u64,
        label: b.subrange(at + 48, at + 48 + label_len),
    }
}

/// What the bytes at `at` decode to, and where decoding stops.
pub open spec fn decoded(b: Seq<u8>, at: int) -> (Result<Region, Seq<char>>, int) {
    if at + 48 > b.len() {
        (Err("truncated region descriptor header"@), at)
    } else if b[at + 42] != 0 || b[at + 43] != 0 {
        (
            Err(
                "nonzero descriptor reserved bytes: "@ + crate::text::byte_list(
                    b.subrange(at + 42, at + 44),
                ),
            ),
            at,
        )
    } else if b[at + 40] > 7 {
        (Err("invalid prot bits "@ + crate::text::dec(b[at + 40] as int)), at)
    } else if b[at + 41] != 1 && b[at + 41] != 2 {
        (Err("invalid sharing byte "@ + crate::text::dec(b[at + 41] as int)), at)
    } else {
        let label_len = crate::bytes::le_at(b, at + 44, 4) as int;
        if at + 48 + label_len > b.len() {
            (Err("label length extends past descriptor boundary"@), at + 48)
        } else {
            let r = region_at(b, at, label_len);
            match r.complaint() {
                Some(text) => (Err(text), at + 48 + label_len),
                None => (Ok(r), at + 48 + label_len),
            }
        }
    }
}

/// Appends the descriptor of `region` to `buf`.
pub fn encode_region_descriptor(region: &MemoryRegion, buf: &mut Vec<u8>)
    ensures
        final(buf)@ == old(buf)@ + descriptor(region@),
{
    let ghost before = buf@;
    push_u64(buf, region.start);
    push_u64(buf, region.end);
    push_u64(buf, region.file_offset);
    push_u64(buf, region.inode);
    push_u32(buf, region.dev_major);
    push_u32(buf, region.dev_minor);
    let ghost numbers = buf@;
    buf.push(region.prot_bits());
    buf.push(region.sharing_byte());
    buf.push(0);
    buf.push(0);
    proof {
        assert(buf@ =~= numbers + seq![region@.prot_code(), region@.sharing_code(), 0u8, 0u8]);
    }
    push_len(buf, region.label.len());
    push_bytes(buf, region.label.as_slice());
    proof {
        assert(buf@ =~= before + descriptor(region@));
    }
}

/// Decodes the region descriptor at `offset`, which moves past what was read.
pub fn decode_region_descriptor(bytes: &[u8], offset: &mut usize) -> (r: Result<
    MemoryRegion,
    String,
>)
    ensures
        *final(offset) == decoded(bytes@, *old(offset) as int).1,
        match decoded(bytes@, *old(offset) as int).0 {
            Ok(region) => r is Ok && r->Ok_0@ == region,
            Err(text) => r is Err && r->Err_0@ == text,
        },
{
    let at: usize = *offset;
    if bytes.len() < DESCRIPTOR_LEN_REGION_HEADER || at > bytes.len()
        - DESCRIPTOR_LEN_REGION_HEADER {
        return Err(Line::new("truncated region descriptor header").done());
    }
    let start: u64 = read_u64(bytes, at);
    let end: u64 = read_u64(bytes, at + 8);
    let file_offset: u64 = read_u64(bytes, at + 16);
    let inode: u64 = read_u64(bytes, at + 24);
    let dev_major: u32 = read_u32(bytes, at + 32);
    let dev_minor: u32 = read_u32(bytes, at + 36);
    let prot_bits: u8 = bytes[at + 40];
    let sharing_byte: u8 = bytes[at + 41];
    if bytes[at + 42] != 0 || bytes[at + 43] != 0 {
        let reserved = slice_subrange(bytes, at + 42, at + 44);
        return Err(
            Line::new("nonzero descriptor reserved bytes: ").byte_list(reserved).done(),
        );
    }
    if prot_bits > 7 {
        return Err(Line::new("invalid prot bits ").dec(prot_bits as u64).done());
    }
    if sharing_byte != 1 && sharing_byte != 2 {
        return Err(Line::new("invalid sharing byte ").dec(sharing_byte as u64).done());
    }
    let label_len: u32 = read_u32(bytes, at + 44);
    let label_start: usize = at + DESCRIPTOR_LEN_REGION_HEADER;
    *offset = label_start;
    if label_len as u64 > (bytes.len() - label_start) as u64 {
        return Err(Line::new("label length extends past descriptor boundary").done());
    }
    let label_end: usize = label_start + label_len as usize;
    let label = copy_range(bytes, label_start, label_end);
    *offset = label_end;
    let region = MemoryRegion {
        start,
        end,
        prot_read: prot_bits % 2 == 1,
        prot_write: (prot_bits / 2) % 2 == 1,
        prot_exec: (prot_bits / 4) % 2 == 1,
        shared: sharing_byte == 2,
        file_offset,
        dev_major,
        dev_minor,
        inode,
        label,
    };
    assert(region@ =~= region_at(bytes@, at as int, label_len as int));
    match region.validate() {
        Ok(_) => Ok(region),
        Err(text) => Err(text),
    }
}

pub proof fn lemma_descriptor_len(r: Region)
    ensures
        descriptor(r).len() == 48 + r.label.len(),
{
    crate::bytes::lemma_le_bytes_len(r.start as nat, 8);
    crate::bytes::lemma_le_bytes_len(r.end as nat, 8);
    crate::bytes::lemma_le_bytes_len(r.file_offset as nat, 8);
    crate::bytes::lemma_le_bytes_len(r.inode as nat, 8);
    crate::bytes::lemma_le_bytes_len(r.dev_major as nat, 4);
    crate::bytes::lemma_le_bytes_len(r.dev_minor as nat, 4);
    crate::bytes::lemma_le_bytes_len(r.label.len(), 4);
}

/// Decoding the descriptor of a valid region gives the region back and stops behind it,
/// whatever stands before and after. The label's length has to fit its four bytes.
#[verifier::rlimit(50)]
pub proof fn law_descriptor_decodes(b: Seq<u8>, at: int, r: Region)
    requires
        r.valid(),
        r.label.len() < 0x1_0000_0000,
        0 <= at,
        at + descriptor(r).len() <= b.len(),
        b.subrange(at, at + descriptor(r).len()) == descriptor(r),
    ensures
        decoded(b, at) == (Ok::<Region, Seq<char>>(r), at + descriptor(r).len()),
{
    let d = descriptor(r);
    lemma_descriptor_len(r);
    crate::bytes::lemma_bounds();
    crate::bytes::lemma_le_bytes_len(r.start as nat, 8);
    crate::bytes::lemma_le_bytes_len(r.end as nat, 8);
    crate::bytes::lemma_le_bytes_len(r.file_offset as nat, 8);
    crate::bytes::lemma_le_bytes_len(r.inode as nat, 8);
    crate::bytes::lemma_le_bytes_len(r.dev_major as nat, 4);
    crate::bytes::lemma_le_bytes_len(r.dev_minor as nat, 4);
    crate::bytes::lemma_le_bytes_len(r.label.len(), 4);
    assert(d.subrange(0, 8) =~= crate::bytes::le_bytes(r.start as nat, 8));
    assert(d.subrange(8, 16) =~= crate::bytes::le_bytes(r.end as nat, 8));
    assert(d.subrange(16, 24) =~= crate::bytes::le_bytes(r.file_offset as nat, 8));
    assert(d.subrange(24, 32) =~= crate::bytes::le_bytes(r.inode as nat, 8));
    assert(d.subrange(32, 36) =~= crate::bytes::le_bytes(r.dev_major as nat, 4));
    assert(d.subrange(36, 40) =~= crate::bytes::le_bytes(r.dev_minor as nat, 4));
    assert(d.subrange(44, 48) =~= crate::bytes::le_bytes(r.label.len(), 4));
    crate::bytes::lemma_read_within(b, at, d, 0, r.start as nat, 8);
    crate::bytes::lemma_read_within(b, at, d, 8, r.end as nat, 8);
    crate::bytes::lemma_read_within(b, at, d, 16, r.file_offset as nat, 8);
    crate::bytes::lemma_read_within(b, at, d, 24, r.inode as nat, 8);
    crate::bytes::lemma_read_within(b, at, d, 32, r.dev_major as nat, 4);
    crate::bytes::lemma_read_within(b, at, d, 36, r.dev_minor as nat, 4);
    crate::bytes::lemma_read_within(b, at, d, 44, r.label.len(), 4);
    assert(d.subrange(48, d.len() as int) =~= r.label);
    let s = b.subrange(at, at + d.len());
    assert(b.subrange(at + 48, at + 48 + r.label.len()) =~= s.subrange(48, d.len() as int));
    assert(b[at + 40] == s[40] && b[at + 41] == s[41] && b[at + 42] == s[42] && b[at + 43]
        == s[43]);
    assert(region_at(b, at, r.label.len() as int) =~= r);
}

/// What decodes to a region is the descriptor of that region.
pub proof fn law_decoded_is_descriptor(b: Seq<u8>, at: int)
    requires
        0 <= at,
        decoded(b, at).0 is Ok,
    ensures
        ({
            let r = decoded(b, at).0->Ok_0;
            let end = decoded(b, at).1;
            &&& r.valid()
            &&& r.label.len() < 0x1_0000_0000
            &&& end == at + descriptor(r).len() <= b.len()
            &&& b.subrange(at, end) == descriptor(r)
        }),
{
    let r = decoded(b, at).0->Ok_0;
    let n = crate::bytes::le_at(b, at + 44, 4);
    crate::bytes::lemma_bounds();
    crate::bytes::lemma_write_back(b, at, 8);
    crate::bytes::lemma_write_back(b, at + 8, 8);
    crate::bytes::lemma_write_back(b, at + 16, 8);
    crate::bytes::lemma_write_back(b, at + 24, 8);
    crate::bytes::lemma_write_back(b, at + 32, 4);
    crate::bytes::lemma_write_back(b, at + 36, 4);
    crate::bytes::lemma_write_back(b, at + 44, 4);
    lemma_descriptor_len(r);
    assert(r.label.len() == n);
    assert(r.prot_code() == b[at + 40]);
    assert(r.sharing_code() == b[at + 41]);
    assert(b.subrange(at, at + 48 + n) =~= descriptor(r));
}

} // verus!
