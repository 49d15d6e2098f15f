//! Where the bytes of a trace stand.
use vstd::prelude::*;
use crate::maps::Region;
use crate::trace::Event;

verus! {

/// What the byte at a place counts: one at the first place, and 256 times as much at each
/// further place.
pub open spec fn place(i: nat) -> int
    decreases i,
{
    if i == 0 {
        1
    } else {
        256 * place((i - 1) as nat)
    }
}

/// What a row of bytes counts, the first of them least.
pub open spec fn total(s: Seq<u8>) -> int
    decreases s.len(),
{
    if s.len() == 0 {
        0
    } else {
        total(s.drop_last()) + s.last() * place((s.len() - 1) as nat)
    }
}

/// The number in the `width` bytes of `b` at `at`.
pub open spec fn number_at(b: Seq<u8>, at: int, width: int) -> int {
    total(b.subrange(at, at + width))
}

proof fn lemma_total_first(s: Seq<u8>)
    requires
        s.len() > 0,
    ensures
        total(s) == s[0] + 256 * total(s.drop_first()),
    decreases s.len(),
{
    if s.len() == 1 {
        assert(s.drop_last() =~= Seq::<u8>::empty());
        assert(s.drop_first() =~= Seq::<u8>::empty());
        assert(total(s.drop_last()) == 0);
        assert(total(s.drop_first()) == 0);
        assert(place(0) == 1);
    } else {
        let d = s.drop_last();
        let r = s.drop_first();
        lemma_total_first(d);
        assert(d.drop_first() =~= r.drop_last());
        let k = (r.len() - 1) as nat;
        assert(place((s.len() - 1) as nat) == 256 * place(k));
        let x = s.last() as int;
        assert(x * (256 * place(k)) == 256 * (x * place(k))) by (nonlinear_arith);
        assert(total(r) == total(r.drop_last()) + x * place(k));
    }
}

pub proof fn lemma_total(s: Seq<u8>)
    ensures
        total(s) == crate::bytes::le_value(s),
    decreases s.len(),
{
    if s.len() > 0 {
        lemma_total_first(s);
        lemma_total(s.drop_first());
    }
}

proof fn lemma_number(b: Seq<u8>, at: int, width: nat, n: nat)
    requires
        0 <= at,
        at + width <= b.len(),
        b.subrange(at, at + width) == crate::bytes::le_bytes(n, width),
        n < crate::bytes::le_bound(width),
    ensures
        number_at(b, at, width as int) == n,
{
    lemma_total(b.subrange(at, at + width));
    crate::bytes::lemma_value_of_bytes(n, width);
}

/// Numbers are read with the least byte first.
pub proof fn law_numbers_are_read_least_byte_first(b: &[u8], at: usize, x: u32, y: u64)
    requires
        at + 4 <= b@.len(),
        call_ensures(crate::bytes::read_u32, (b, at), x),
        at + 8 <= b@.len() ==> call_ensures(crate::bytes::read_u64, (b, at), y),
    ensures
        x == number_at(b@, at as int, 4),
        at + 8 <= b@.len() ==> y == number_at(b@, at as int, 8),
{
    lemma_total(b@.subrange(at as int, at + 4));
    if at + 8 <= b@.len() {
        lemma_total(b@.subrange(at as int, at + 8));
    }
}

/// A number is written in as many bytes as asked for, and they count as much as the number.
pub proof fn law_numbers_are_written_least_byte_first(n: nat, width: nat)
    requires
        n < place(width),
    ensures
        crate::bytes::le_bytes(n, width).len() == width,
        total(crate::bytes::le_bytes(n, width)) == n,
{
    lemma_place(width);
    crate::bytes::lemma_le_bytes_len(n, width);
    crate::bytes::lemma_value_of_bytes(n, width);
    lemma_total(crate::bytes::le_bytes(n, width));
}

proof fn lemma_place(i: nat)
    ensures
        place(i) == crate::bytes::le_bound(i),
    decreases i,
{
    if i > 0 {
        lemma_place((i - 1) as nat);
    }
}

/// Signed numbers and their bit patterns are the same modulo the number of bit patterns.
pub proof fn law_bit_patterns(
    x: i64,
    u: u64,
    v: u64,
    y: i64,
    x32: i32,
    u32_: u32,
    v32: u32,
    y32: i32,
)
    requires
        call_ensures(crate::bytes::to_unsigned, (x,), u),
        call_ensures(crate::bytes::to_signed, (v,), y),
        call_ensures(crate::bytes::to_unsigned32, (x32,), u32_),
        call_ensures(crate::bytes::to_signed32, (v32,), y32),
    ensures
        u == x || u == x + 0x1_0000_0000_0000_0000,
        v == y || v == y + 0x1_0000_0000_0000_0000,
        u32_ == x32 || u32_ == x32 + 0x1_0000_0000,
        v32 == y32 || v32 == y32 + 0x1_0000_0000,
{
}

/// A region takes 48 bytes and its label: start, end, file offset and inode in eight bytes
/// each, the two numbers of its device in four, a byte with a bit for each permission, a byte
/// that is 1 for private and 2 for shared, two zeros, the length of the label in four bytes, and
/// the label.
pub proof fn law_region_layout(r: Region)
    requires
        r.label.len() <= u32::MAX,
    ensures
        ({
            let b = crate::descriptor::descriptor(r);
            &&& b.len() == 48 + r.label.len()
            &&& number_at(b, 0, 8) == r.start
            &&& number_at(b, 8, 8) == r.end
            &&& number_at(b, 16, 8) == r.file_offset
            &&& number_at(b, 24, 8) == r.inode
            &&& number_at(b, 32, 4) == r.dev_major
            &&& number_at(b, 36, 4) == r.dev_minor
            &&& b[40] < 8
            &&& (b[40] % 2 == 1) == r.prot_read
            &&& (b[40] / 2 % 2 == 1) == r.prot_write
            &&& (b[40] / 4 % 2 == 1) == r.prot_exec
            &&& b[41] == (if r.shared {
                2u8
            } else {
                1u8
            })
            &&& b[42] == 0
            &&& b[43] == 0
            &&& number_at(b, 44, 4) == r.label.len()
            &&& b.subrange(48, b.len() as int) == r.label
        }),
{
    let b = crate::descriptor::descriptor(r);
    crate::descriptor::lemma_descriptor_len(r);
    crate::bytes::lemma_bounds();
    crate::bytes::lemma_le_bytes_len(r.start as nat, 8);
    crate::bytes::lemma_le_bytes_len(r.end as nat, 8);
    crate::bytes::lemma_le_bytes_len(r.file_offset as nat, 8);
    crate::bytes::lemma_le_bytes_len(r.inode as nat, 8);
    crate::bytes::lemma_le_bytes_len(r.dev_major as nat, 4);
    crate::bytes::lemma_le_bytes_len(r.dev_minor as nat, 4);
    crate::bytes::lemma_le_bytes_len(r.label.len(), 4);
    assert(b.subrange(0, 8) =~= crate::bytes::le_bytes(r.start as nat, 8));
    assert(b.subrange(8, 16) =~= crate::bytes::le_bytes(r.end as nat, 8));
    assert(b.subrange(16, 24) =~= crate::bytes::le_bytes(r.file_offset as nat, 8));
    assert(b.subrange(24, 32) =~= crate::bytes::le_bytes(r.inode as nat, 8));
    assert(b.subrange(32, 36) =~= crate::bytes::le_bytes(r.dev_major as nat, 4));
    assert(b.subrange(36, 40) =~= crate::bytes::le_bytes(r.dev_minor as nat, 4));
    assert(b.subrange(44, 48) =~= crate::bytes::le_bytes(r.label.len(), 4));
    assert(b.subrange(48, b.len() as int) =~= r.label);
    lemma_number(b, 0, 8, r.start as nat);
    lemma_number(b, 8, 8, r.end as nat);
    lemma_number(b, 16, 8, r.file_offset as nat);
    lemma_number(b, 24, 8, r.inode as nat);
    lemma_number(b, 32, 4, r.dev_major as nat);
    lemma_number(b, 36, 4, r.dev_minor as nat);
    lemma_number(b, 44, 4, r.label.len());
    assert(b[40] == r.prot_code());
    assert(b[41] == r.sharing_code());
}

/// A header is the eight bytes "CAUSAL" and two zeros, the version in four bytes, the
/// architecture 1 in two, the byte order 1 and the pointer width 8.
pub proof fn law_header_layout(version: u32)
    ensures
        ({
            let b = crate::wire::header(version);
            &&& b.len() == 16
            &&& b.subrange(0, 8) == seq![67u8, 65u8, 85u8, 83u8, 65u8, 76u8, 0u8, 0u8]
            &&& number_at(b, 8, 4) == version
            &&& number_at(b, 12, 2) == 1
            &&& b[14] == 1
            &&& b[15] == 8
        }),
{
    let b = crate::wire::header(version);
    crate::wire::lemma_header_len(version);
    crate::bytes::lemma_bounds();
    assert(crate::bytes::le_bound(2) == 0x10000) by {
        reveal_with_fuel(crate::bytes::le_bound, 3);
    }
    crate::bytes::lemma_le_bytes_len(version as nat, 4);
    crate::bytes::lemma_le_bytes_len(1, 2);
    assert(b.subrange(0, 8) =~= seq![67u8, 65u8, 85u8, 83u8, 65u8, 76u8, 0u8, 0u8]);
    assert(b.subrange(8, 12) =~= crate::bytes::le_bytes(version as nat, 4));
    assert(b.subrange(12, 14) =~= crate::bytes::le_bytes(1, 2));
    lemma_number(b, 8, 4, version as nat);
    lemma_number(b, 12, 2, 1);
}

/// A footer is the number of events in eight bytes, then the eight bytes "CAUSEND" and a zero.
pub proof fn law_footer_layout(count: nat)
    requires
        count <= u64::MAX,
    ensures
        ({
            let b = crate::wire::footer(count);
            &&& b.len() == 16
            &&& number_at(b, 0, 8) == count
            &&& b.subrange(8, 16) == seq![67u8, 65u8, 85u8, 83u8, 69u8, 78u8, 68u8, 0u8]
        }),
{
    let b = crate::wire::footer(count);
    crate::wire::lemma_footer_len(count);
    crate::bytes::lemma_bounds();
    crate::bytes::lemma_le_bytes_len(count, 8);
    assert(b.subrange(0, 8) =~= crate::bytes::le_bytes(count, 8));
    assert(b.subrange(8, 16) =~= seq![67u8, 65u8, 85u8, 83u8, 69u8, 78u8, 68u8, 0u8]);
    lemma_number(b, 0, 8, count);
}

/// What a record holds behind its length, kind, id and thread.
pub open spec fn holds(b: Seq<u8>, e: Event) -> bool {
    match e {
        Event::SyscallEnter { number, args, .. } => {
            &&& b.len() == 76
            &&& number_at(b, 20, 8) == number
            &&& number_at(b, 28, 8) == args[0]
            &&& number_at(b, 36, 8) == args[1]
            &&& number_at(b, 44, 8) == args[2]
            &&& number_at(b, 52, 8) == args[3]
            &&& number_at(b, 60, 8) == args[4]
            &&& number_at(b, 68, 8) == args[5]
        },
        Event::SyscallExit { number, result, .. } => {
            &&& b.len() == 36
            &&& number_at(b, 20, 8) == number
            &&& number_at(b, 28, 8) == pattern64(result)
        },
        Event::KernelMemoryWrite { source_event_id, recorded_address, data, .. } => {
            &&& b.len() == 44 + data.len()
            &&& number_at(b, 20, 8) == source_event_id
            &&& number_at(b, 28, 8) == recorded_address
            &&& number_at(b, 36, 4) == data.len()
            &&& number_at(b, 40, 4) == 0
            &&& b.subrange(44, b.len() as int) == data
        },
        Event::MemoryMapSnapshot { regions, .. } => {
            &&& number_at(b, 20, 4) == regions.len()
            &&& number_at(b, 24, 4) == 0
            &&& b.subrange(28, b.len() as int) == crate::wire::descriptors(regions)
        },
        Event::MemoryMapAdd { source_event_id, region, .. } => {
            &&& number_at(b, 20, 8) == source_event_id
            &&& b.subrange(28, b.len() as int) == crate::descriptor::descriptor(region)
        },
        Event::MemoryMapRemove { source_event_id, region, .. } => {
            &&& number_at(b, 20, 8) == source_event_id
            &&& b.subrange(28, b.len() as int) == crate::descriptor::descriptor(region)
        },
        Event::SignalDelivery { signal_number, si_errno, si_code, siginfo_bytes, .. } => {
            &&& number_at(b, 20, 4) == pattern32(signal_number)
            &&& number_at(b, 24, 4) == pattern32(si_errno)
            &&& number_at(b, 28, 4) == pattern32(si_code)
            &&& number_at(b, 32, 4) == siginfo_bytes.len()
            &&& b.subrange(36, b.len() as int) == siginfo_bytes
        },
    }
}

pub open spec fn pattern64(x: i64) -> int {
    if x < 0 {
        x + 0x1_0000_0000_0000_0000
    } else {
        x as int
    }
}

pub open spec fn pattern32(x: i32) -> int {
    if x < 0 {
        x + 0x1_0000_0000
    } else {
        x as int
    }
}

/// The kind of an event, by which a record is told apart.
pub open spec fn kind_number(e: Event) -> int {
    match e {
        Event::SyscallEnter { .. } => 1,
        Event::SyscallExit { .. } => 2,
        Event::KernelMemoryWrite { .. } => 3,
        Event::MemoryMapSnapshot { .. } => 4,
        Event::MemoryMapAdd { .. } => 5,
        Event::MemoryMapRemove { .. } => 6,
        Event::SignalDelivery { .. } => 7,
    }
}

/// A record begins with the length of what follows in four bytes, the kind, three zeros, the id
/// of the event in eight bytes and its thread in four; then comes what the event holds.
#[verifier::rlimit(50)]
pub proof fn law_record_layout(e: Event)
    requires
        crate::wire::body(e).len() <= u32::MAX,
        e is SyscallEnter ==> e->SyscallEnter_args.len() == 6,
        e is MemoryMapSnapshot ==> e->MemoryMapSnapshot_regions.len() <= u32::MAX,
    ensures
        ({
            let b = crate::wire::record(e);
            &&& number_at(b, 0, 4) == b.len() - 4
            &&& b[4] == kind_number(e)
            &&& b[5] == 0 && b[6] == 0 && b[7] == 0
            &&& number_at(b, 8, 8) == e.id()
            &&& number_at(b, 16, 4) == e.thread()
            &&& holds(b, e)
        }),
{
    let b = crate::wire::record(e);
    let body = crate::wire::body(e);
    let h = crate::wire::event_header(e);
    let p = crate::wire::payload(e);
    crate::bytes::lemma_bounds();
    crate::wire::lemma_event_header_len(e);
    crate::wire::lemma_body_len(e);
    crate::bytes::lemma_le_bytes_len(body.len(), 4);
    crate::bytes::lemma_le_bytes_len(e.id() as nat, 8);
    crate::bytes::lemma_le_bytes_len(e.thread() as nat, 4);
    assert(b.subrange(0, 4) =~= crate::bytes::le_bytes(body.len(), 4));
    assert(b.subrange(8, 16) =~= crate::bytes::le_bytes(e.id() as nat, 8));
    assert(b.subrange(16, 20) =~= crate::bytes::le_bytes(e.thread() as nat, 4));
    assert(b[4] == h[0] && b[5] == h[1] && b[6] == h[2] && b[7] == h[3]);
    lemma_number(b, 0, 4, body.len());
    lemma_number(b, 8, 8, e.id() as nat);
    lemma_number(b, 16, 4, e.thread() as nat);
    assert(b.subrange(20, b.len() as int) =~= p);
    lemma_payload(b, e);
}

/// A number in the payload of a record.
proof fn lemma_payload_number(b: Seq<u8>, p: Seq<u8>, at: int, width: nat, n: nat)
    requires
        0 <= at,
        20 <= b.len(),
        b.subrange(20, b.len() as int) == p,
        at + width <= p.len(),
        p.subrange(at, at + width) == crate::bytes::le_bytes(n, width),
        n < crate::bytes::le_bound(width),
    ensures
        number_at(b, 20 + at, width as int) == n,
{
    assert(b.subrange(20 + at, 20 + at + width) =~= b.subrange(20, b.len() as int).subrange(
        at,
        at + width,
    ));
    lemma_number(b, 20 + at, width, n);
}

#[verifier::rlimit(50)]
proof fn lemma_payload(b: Seq<u8>, e: Event)
    requires
        20 <= b.len(),
        b.len() == 4 + crate::wire::body(e).len(),
        b.subrange(20, b.len() as int) == crate::wire::payload(e),
        b.len() <= u32::MAX + 4,
        e is SyscallEnter ==> e->SyscallEnter_args.len() == 6,
        e is MemoryMapSnapshot ==> e->MemoryMapSnapshot_regions.len() <= u32::MAX,
    ensures
        holds(b, e),
{
    let p = crate::wire::payload(e);
    crate::bytes::lemma_bounds();
    crate::wire::lemma_body_len(e);
    match e {
        Event::SyscallEnter { number, args, .. } => {
            lemma_enter(b, number, args);
        },
        Event::SyscallExit { number, result, .. } => {
            let r = crate::bytes::unsigned_of(result);
            crate::bytes::lemma_le_bytes_len(number as nat, 8);
            crate::bytes::lemma_le_bytes_len(r as nat, 8);
            assert(p.subrange(0, 8) =~= crate::bytes::le_bytes(number as nat, 8));
            assert(p.subrange(8, 16) =~= crate::bytes::le_bytes(r as nat, 8));
            lemma_payload_number(b, p, 0, 8, number as nat);
            lemma_payload_number(b, p, 8, 8, r as nat);
        },
        Event::KernelMemoryWrite { source_event_id, recorded_address, data, .. } => {
            crate::bytes::lemma_le_bytes_len(source_event_id as nat, 8);
            crate::bytes::lemma_le_bytes_len(recorded_address as nat, 8);
            crate::bytes::lemma_le_bytes_len(data.len(), 4);
            crate::bytes::lemma_le_bytes_len(0, 4);
            assert(p.subrange(0, 8) =~= crate::bytes::le_bytes(source_event_id as nat, 8));
            assert(p.subrange(8, 16) =~= crate::bytes::le_bytes(recorded_address as nat, 8));
            assert(p.subrange(16, 20) =~= crate::bytes::le_bytes(data.len(), 4));
            assert(p.subrange(20, 24) =~= crate::bytes::le_bytes(0, 4));
            lemma_payload_number(b, p, 0, 8, source_event_id as nat);
            lemma_payload_number(b, p, 8, 8, recorded_address as nat);
            lemma_payload_number(b, p, 16, 4, data.len());
            lemma_payload_number(b, p, 20, 4, 0);
            assert(b.subrange(44, b.len() as int) =~= b.subrange(20, b.len() as int).skip(24));
            assert(p.skip(24) =~= data);
        },
        Event::MemoryMapSnapshot { regions, .. } => {
            crate::bytes::lemma_le_bytes_len(regions.len(), 4);
            crate::bytes::lemma_le_bytes_len(0, 4);
            assert(p.subrange(0, 4) =~= crate::bytes::le_bytes(regions.len(), 4));
            assert(p.subrange(4, 8) =~= crate::bytes::le_bytes(0, 4));
            lemma_payload_number(b, p, 0, 4, regions.len());
            lemma_payload_number(b, p, 4, 4, 0);
            assert(b.subrange(28, b.len() as int) =~= b.subrange(20, b.len() as int).skip(8));
            assert(p.skip(8) =~= crate::wire::descriptors(regions));
        },
        Event::MemoryMapAdd { source_event_id, region, .. } => {
            crate::bytes::lemma_le_bytes_len(source_event_id as nat, 8);
            assert(p.subrange(0, 8) =~= crate::bytes::le_bytes(source_event_id as nat, 8));
            lemma_payload_number(b, p, 0, 8, source_event_id as nat);
            assert(b.subrange(28, b.len() as int) =~= b.subrange(20, b.len() as int).skip(8));
            assert(p.skip(8) =~= crate::descriptor::descriptor(region));
        },
        Event::MemoryMapRemove { source_event_id, region, .. } => {
            crate::bytes::lemma_le_bytes_len(source_event_id as nat, 8);
            assert(p.subrange(0, 8) =~= crate::bytes::le_bytes(source_event_id as nat, 8));
            lemma_payload_number(b, p, 0, 8, source_event_id as nat);
            assert(b.subrange(28, b.len() as int) =~= b.subrange(20, b.len() as int).skip(8));
            assert(p.skip(8) =~= crate::descriptor::descriptor(region));
        },
        Event::SignalDelivery { signal_number, si_errno, si_code, siginfo_bytes, .. } => {
            let x = crate::bytes::unsigned32_of(signal_number) as nat;
            let y = crate::bytes::unsigned32_of(si_errno) as nat;
            let z = crate::bytes::unsigned32_of(si_code) as nat;
            crate::bytes::lemma_le_bytes_len(x, 4);
            crate::bytes::lemma_le_bytes_len(y, 4);
            crate::bytes::lemma_le_bytes_len(z, 4);
            crate::bytes::lemma_le_bytes_len(siginfo_bytes.len(), 4);
            assert(p.subrange(0, 4) =~= crate::bytes::le_bytes(x, 4));
            assert(p.subrange(4, 8) =~= crate::bytes::le_bytes(y, 4));
            assert(p.subrange(8, 12) =~= crate::bytes::le_bytes(z, 4));
            assert(p.subrange(12, 16) =~= crate::bytes::le_bytes(siginfo_bytes.len(), 4));
            lemma_payload_number(b, p, 0, 4, x);
            lemma_payload_number(b, p, 4, 4, y);
            lemma_payload_number(b, p, 8, 4, z);
            lemma_payload_number(b, p, 12, 4, siginfo_bytes.len());
            assert(b.subrange(36, b.len() as int) =~= b.subrange(20, b.len() as int).skip(16));
            assert(p.skip(16) =~= siginfo_bytes);
        },
    }
}

proof fn lemma_enter(b: Seq<u8>, number: u64, args: Seq<u64>)
    requires
        b.len() == 76,
        args.len() == 6,
        b.subrange(20, b.len() as int) == crate::bytes::le_bytes(number as nat, 8)
            + crate::bytes::le_bytes(args[0] as nat, 8) + crate::bytes::le_bytes(args[1] as nat, 8)
            + crate::bytes::le_bytes(args[2] as nat, 8) + crate::bytes::le_bytes(args[3] as nat, 8)
            + crate::bytes::le_bytes(args[4] as nat, 8) + crate::bytes::le_bytes(args[5] as nat, 8),
    ensures
        number_at(b, 20, 8) == number,
        number_at(b, 28, 8) == args[0],
        number_at(b, 36, 8) == args[1],
        number_at(b, 44, 8) == args[2],
        number_at(b, 52, 8) == args[3],
        number_at(b, 60, 8) == args[4],
        number_at(b, 68, 8) == args[5],
{
    let p = b.subrange(20, b.len() as int);
    crate::bytes::lemma_bounds();
    crate::bytes::lemma_le_bytes_len(number as nat, 8);
    crate::bytes::lemma_le_bytes_len(args[0] as nat, 8);
    crate::bytes::lemma_le_bytes_len(args[1] as nat, 8);
    crate::bytes::lemma_le_bytes_len(args[2] as nat, 8);
    crate::bytes::lemma_le_bytes_len(args[3] as nat, 8);
    crate::bytes::lemma_le_bytes_len(args[4] as nat, 8);
    crate::bytes::lemma_le_bytes_len(args[5] as nat, 8);
    assert(p.subrange(0, 8) =~= crate::bytes::le_bytes(number as nat, 8));
    assert(p.subrange(8, 16) =~= crate::bytes::le_bytes(args[0] as nat, 8));
    assert(p.subrange(16, 24) =~= crate::bytes::le_bytes(args[1] as nat, 8));
    assert(p.subrange(24, 32) =~= crate::bytes::le_bytes(args[2] as nat, 8));
    assert(p.subrange(32, 40) =~= crate::bytes::le_bytes(args[3] as nat, 8));
    assert(p.subrange(40, 48) =~= crate::bytes::le_bytes(args[4] as nat, 8));
    assert(p.subrange(48, 56) =~= crate::bytes::le_bytes(args[5] as nat, 8));
    lemma_payload_number(b, p, 0, 8, number as nat);
    lemma_payload_number(b, p, 8, 8, args[0] as nat);
    lemma_payload_number(b, p, 16, 8, args[1] as nat);
    lemma_payload_number(b, p, 24, 8, args[2] as nat);
    lemma_payload_number(b, p, 32, 8, args[3] as nat);
    lemma_payload_number(b, p, 40, 8, args[4] as nat);
    lemma_payload_number(b, p, 48, 8, args[5] as nat);
}

/// The regions of a snapshot stand one behind the other.
pub proof fn law_regions_stand_in_a_row(rs: Seq<Region>, r: Region)
    ensures
        crate::wire::descriptors(Seq::<Region>::empty()).len() == 0,
        crate::wire::descriptors(rs.push(r)) == crate::wire::descriptors(rs)
            + crate::descriptor::descriptor(r),
{
    assert(rs.push(r).drop_last() =~= rs);
}

/// A trace is its header, one record to each event in order, and its footer.
pub proof fn law_trace_layout(version: u32, es: Seq<Event>, e: Event)
    ensures
        crate::wire::records(Seq::<Event>::empty()).len() == 0,
        crate::wire::records(es.push(e)) == crate::wire::records(es) + crate::wire::record(e),
        crate::wire::trace_bytes(version, es) == crate::wire::header(version)
            + crate::wire::records(es) + crate::wire::footer(es.len()),
{
    assert(es.push(e).drop_last() =~= es);
}

} // verus!
