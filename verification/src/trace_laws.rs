//! Writing and reading a trace undo each other.
use vstd::prelude::*;
use crate::maps::Region;
use crate::trace::{Event, Trace};
use crate::writer::Progress;

verus! {

/// Events that a record of the given format can hold.
pub open spec fn encodable(version: u32, e: Event) -> bool {
    &&& e.thread() != 0
    &&& crate::wire::body(e).len() <= u32::MAX
    &&& match e {
        Event::SyscallEnter { args, .. } => args.len() == 6,
        Event::SyscallExit { .. } => true,
        Event::KernelMemoryWrite { .. } => version >= 2,
        Event::MemoryMapSnapshot { regions, .. } => {
            &&& version >= 3
            &&& regions.len() <= u32::MAX
            &&& crate::maps::canonical(regions)
        },
        Event::MemoryMapAdd { region, .. } => version >= 3 && region.valid(),
        Event::MemoryMapRemove { region, .. } => version >= 3 && region.valid(),
        Event::SignalDelivery { signal_number, si_errno, si_code, siginfo_bytes, .. } => {
            &&& version >= 4
            &&& 1 <= signal_number <= 64
            &&& siginfo_bytes.len() == 128
            &&& crate::parser::i32_at(siginfo_bytes, 0) == signal_number
            &&& crate::parser::i32_at(siginfo_bytes, 4) == si_errno
            &&& crate::parser::i32_at(siginfo_bytes, 8) == si_code
        },
    }
}

/// The traces there are: a known format, events numbered from 1 that the format can hold, and
/// a sound structure.
pub open spec fn well_formed(t: Trace) -> bool {
    &&& 1 <= t.version <= 4
    &&& t.events.len() <= u64::MAX
    &&& forall|i: int| 0 <= i < t.events.len() ==> (#[trigger] t.events[i]).id() == i + 1
    &&& forall|i: int| 0 <= i < t.events.len() ==> encodable(t.version, #[trigger] t.events[i])
    &&& crate::structure::structure_complaint(t.version, t.events) is None
}

proof fn lemma_descriptors_split(s: Seq<Region>, t: Seq<Region>)
    ensures
        crate::wire::descriptors(s + t) == crate::wire::descriptors(s) + crate::wire::descriptors(
            t,
        ),
    decreases t.len(),
{
    if t.len() == 0 {
        assert(s + t =~= s);
        assert(crate::wire::descriptors(s) + Seq::<u8>::empty() =~= crate::wire::descriptors(s));
    } else {
        lemma_descriptors_split(s, t.drop_last());
        assert((s + t).drop_last() =~= s + t.drop_last());
        assert((s + t).last() == t.last());
        assert(crate::wire::descriptors(s) + crate::wire::descriptors(t.drop_last())
            + crate::descriptor::descriptor(t.last()) =~= crate::wire::descriptors(s) + (
        crate::wire::descriptors(t.drop_last()) + crate::descriptor::descriptor(t.last())));
    }
}

proof fn lemma_descriptors_first(rs: Seq<Region>)
    requires
        rs.len() > 0,
    ensures
        crate::wire::descriptors(rs) == crate::descriptor::descriptor(rs[0])
            + crate::wire::descriptors(rs.drop_first()),
{
    let one = seq![rs[0]];
    assert(rs =~= one + rs.drop_first());
    lemma_descriptors_split(one, rs.drop_first());
    assert(one.drop_last() =~= Seq::<Region>::empty());
    assert(crate::wire::descriptors(one.drop_last()) =~= Seq::<u8>::empty());
    assert(crate::wire::descriptors(one) =~= crate::descriptor::descriptor(rs[0]));
}

/// Descriptors in a row decode to their regions.
proof fn lemma_regions_decode(b: Seq<u8>, at: int, rs: Seq<Region>, got: Seq<Region>)
    requires
        0 <= at,
        at + crate::wire::descriptors(rs).len() <= b.len() <= u32::MAX,
        b.subrange(at, at + crate::wire::descriptors(rs).len()) == crate::wire::descriptors(rs),
        forall|i: int| 0 <= i < rs.len() ==> (#[trigger] rs[i]).valid(),
    ensures
        crate::parser::regions_of(b, at, rs.len(), got) == Ok::<(Seq<Region>, int), Seq<char>>(
            (got + rs, at + crate::wire::descriptors(rs).len()),
        ),
    decreases rs.len(),
{
    if rs.len() == 0 {
        assert(got + rs =~= got);
    } else {
        lemma_descriptors_first(rs);
        let rest = rs.drop_first();
        let d = crate::descriptor::descriptor(rs[0]);
        let whole = crate::wire::descriptors(rs);
        crate::descriptor::lemma_descriptor_len(rs[0]);
        assert(b.subrange(at, at + d.len()) =~= b.subrange(at, at + whole.len()).subrange(
            0,
            d.len() as int,
        ));
        assert(whole.subrange(0, d.len() as int) =~= d);
        crate::descriptor::law_descriptor_decodes(b, at, rs[0]);
        let next = at + d.len();
        let tail = crate::wire::descriptors(rest);
        assert(b.subrange(next, next + tail.len()) =~= b.subrange(at, at + whole.len()).subrange(
            d.len() as int,
            whole.len() as int,
        ));
        assert(whole.subrange(d.len() as int, whole.len() as int) =~= tail);
        assert forall|i: int| 0 <= i < rest.len() implies (#[trigger] rest[i]).valid() by {
            assert(rs[i + 1].valid());
        }
        lemma_regions_decode(b, next, rest, got.push(rs[0]));
        assert(got.push(rs[0]) + rest =~= got + rs);
    }
}

/// What decodes to regions is their descriptors in a row.
proof fn lemma_decoded_regions(b: Seq<u8>, at: int, count: nat, got: Seq<Region>)
    requires
        0 <= at <= b.len(),
        crate::parser::regions_of(b, at, count, got) is Ok,
    ensures
        ({
            let (rs, end) = crate::parser::regions_of(b, at, count, got)->Ok_0;
            &&& rs.len() == got.len() + count
            &&& at <= end <= b.len()
            &&& got == rs.take(got.len() as int)
            &&& b.subrange(at, end) == crate::wire::descriptors(rs.skip(got.len() as int))
        }),
    decreases count,
{
    let (rs, end) = crate::parser::regions_of(b, at, count, got)->Ok_0;
    if count == 0 {
        assert(rs.take(got.len() as int) =~= got);
        assert(rs.skip(got.len() as int) =~= Seq::<Region>::empty());
        assert(b.subrange(at, at) =~= Seq::<u8>::empty());
    } else {
        crate::descriptor::law_decoded_is_descriptor(b, at);
        let r = crate::descriptor::decoded(b, at).0->Ok_0;
        let next = crate::descriptor::decoded(b, at).1;
        lemma_decoded_regions(b, next, (count - 1) as nat, got.push(r));
        let tail = rs.skip(got.len() as int);
        assert(rs.take(got.len() as int) =~= got.push(r).take(got.len() as int)) by {
            assert(rs.take(got.len() as int + 1) == got.push(r));
            assert(rs.take(got.len() as int) =~= rs.take(got.len() as int + 1).take(got.len() as int));
        }
        assert(got.push(r).take(got.len() as int) =~= got);
        assert(tail[0] == r) by {
            assert(rs.take(got.len() as int + 1)[got.len() as int] == r);
        }
        assert(tail.drop_first() =~= rs.skip(got.len() as int + 1));
        lemma_descriptors_first(tail);
        assert(b.subrange(at, end) =~= b.subrange(at, next) + b.subrange(next, end));
    }
}

/// The event header of a record's body.
proof fn lemma_event_header_reads(e: Event)
    ensures
        ({
            let b = crate::wire::body(e);
            &&& b.len() >= 16
            &&& b[0] == crate::wire::kind(e)
            &&& b[1] == 0 && b[2] == 0 && b[3] == 0
            &&& crate::parser::u64_at(b, 4) == e.id()
            &&& crate::parser::u32_at(b, 12) == e.thread()
            &&& b.subrange(16, b.len() as int) == crate::wire::payload(e)
        }),
{
    let b = crate::wire::body(e);
    crate::wire::lemma_event_header_len(e);
    crate::bytes::lemma_bounds();
    crate::bytes::lemma_le_bytes_len(e.id() as nat, 8);
    crate::bytes::lemma_le_bytes_len(e.thread() as nat, 4);
    assert(b.subrange(4, 12) =~= crate::bytes::le_bytes(e.id() as nat, 8));
    assert(b.subrange(12, 16) =~= crate::bytes::le_bytes(e.thread() as nat, 4));
    crate::bytes::lemma_read_back(b, 4, e.id() as nat, 8);
    crate::bytes::lemma_read_back(b, 12, e.thread() as nat, 4);
    assert(b.subrange(16, b.len() as int) =~= crate::wire::payload(e));
}

/// A number that the payload holds at `k` is read at `16 + k` of the body.
proof fn lemma_payload_number(e: Event, k: int, n: nat, width: nat)
    requires
        0 <= k,
        k + width <= crate::wire::payload(e).len(),
        crate::wire::payload(e).subrange(k, k + width) == crate::bytes::le_bytes(n, width),
        n < crate::bytes::le_bound(width),
    ensures
        crate::bytes::le_at(crate::wire::body(e), 16 + k, width as int) == n,
{
    lemma_event_header_reads(e);
    let b = crate::wire::body(e);
    let p = crate::wire::payload(e);
    assert(p.len() == b.len() - 16);
    crate::bytes::lemma_read_within(b, 16, p, k, n, width);
}

proof fn lemma_enter_reads(version: u32, e: Event)
    requires
        encodable(version, e),
        e is SyscallEnter,
    ensures
        crate::parser::event_of(version, e.id(), crate::wire::body(e)) == Ok::<Event, Seq<char>>(e),
{
    lemma_event_header_reads(e);
    crate::wire::lemma_body_len(e);
    crate::bytes::lemma_bounds();
    let p = crate::wire::payload(e);
    let number = e->SyscallEnter_number;
    let args = e->SyscallEnter_args;
    crate::bytes::lemma_le_bytes_len(number as nat, 8);
    crate::bytes::lemma_le_bytes_len(args[0] as nat, 8);
    crate::bytes::lemma_le_bytes_len(args[1] as nat, 8);
    crate::bytes::lemma_le_bytes_len(args[2] as nat, 8);
    crate::bytes::lemma_le_bytes_len(args[3] as nat, 8);
    crate::bytes::lemma_le_bytes_len(args[4] as nat, 8);
    crate::bytes::lemma_le_bytes_len(args[5] as nat, 8);
    assert(p.subrange(0, 8) =~= crate::bytes::le_bytes(number as nat, 8));
    assert(p.subrange(8, 16) =~= crate::bytes::le_bytes(args[0] as nat, 8));
    assert(p.subrange(16, 24) =~= crate::bytes::le_bytes(args[1] as nat, 8));
    assert(p.subrange(24, 32) =~= crate::bytes::le_bytes(args[2] as nat, 8));
    assert(p.subrange(32, 40) =~= crate::bytes::le_bytes(args[3] as nat, 8));
    assert(p.subrange(40, 48) =~= crate::bytes::le_bytes(args[4] as nat, 8));
    assert(p.subrange(48, 56) =~= crate::bytes::le_bytes(args[5] as nat, 8));
    lemma_payload_number(e, 0, number as nat, 8);
    lemma_payload_number(e, 8, args[0] as nat, 8);
    lemma_payload_number(e, 16, args[1] as nat, 8);
    lemma_payload_number(e, 24, args[2] as nat, 8);
    lemma_payload_number(e, 32, args[3] as nat, 8);
    lemma_payload_number(e, 40, args[4] as nat, 8);
    lemma_payload_number(e, 48, args[5] as nat, 8);
    let got = crate::parser::enter_of(e.id(), e.thread(), crate::wire::body(e))->Ok_0;
    assert(got->SyscallEnter_args =~= args);
}

proof fn lemma_exit_reads(version: u32, e: Event)
    requires
        encodable(version, e),
        e is SyscallExit,
    ensures
        crate::parser::event_of(version, e.id(), crate::wire::body(e)) == Ok::<Event, Seq<char>>(e),
{
    lemma_event_header_reads(e);
    crate::wire::lemma_body_len(e);
    crate::bytes::lemma_bounds();
    let p = crate::wire::payload(e);
    let number = e->SyscallExit_number;
    let result = crate::bytes::unsigned_of(e->SyscallExit_result);
    crate::bytes::lemma_le_bytes_len(number as nat, 8);
    crate::bytes::lemma_le_bytes_len(result as nat, 8);
    assert(p.subrange(0, 8) =~= crate::bytes::le_bytes(number as nat, 8));
    assert(p.subrange(8, 16) =~= crate::bytes::le_bytes(result as nat, 8));
    lemma_payload_number(e, 0, number as nat, 8);
    lemma_payload_number(e, 8, result as nat, 8);
}

proof fn lemma_data_reads(version: u32, e: Event)
    requires
        encodable(version, e),
        e is KernelMemoryWrite,
    ensures
        crate::parser::event_of(version, e.id(), crate::wire::body(e)) == Ok::<Event, Seq<char>>(e),
{
    lemma_event_header_reads(e);
    crate::wire::lemma_body_len(e);
    crate::bytes::lemma_bounds();
    let b = crate::wire::body(e);
    let p = crate::wire::payload(e);
    let source = e->KernelMemoryWrite_source_event_id;
    let address = e->KernelMemoryWrite_recorded_address;
    let data = e->KernelMemoryWrite_data;
    crate::bytes::lemma_le_bytes_len(source as nat, 8);
    crate::bytes::lemma_le_bytes_len(address as nat, 8);
    crate::bytes::lemma_le_bytes_len(data.len(), 4);
    crate::bytes::lemma_le_bytes_len(0, 4);
    assert(p.subrange(0, 8) =~= crate::bytes::le_bytes(source as nat, 8));
    assert(p.subrange(8, 16) =~= crate::bytes::le_bytes(address as nat, 8));
    assert(p.subrange(16, 20) =~= crate::bytes::le_bytes(data.len(), 4));
    assert(p.subrange(20, 24) =~= crate::bytes::le_bytes(0, 4));
    lemma_payload_number(e, 0, source as nat, 8);
    lemma_payload_number(e, 8, address as nat, 8);
    lemma_payload_number(e, 16, data.len(), 4);
    lemma_payload_number(e, 20, 0, 4);
    assert(b.subrange(40, b.len() as int) =~= data);
}

proof fn lemma_delta_reads(version: u32, e: Event)
    requires
        encodable(version, e),
        e is MemoryMapAdd || e is MemoryMapRemove,
    ensures
        crate::parser::event_of(version, e.id(), crate::wire::body(e)) == Ok::<Event, Seq<char>>(e),
{
    lemma_event_header_reads(e);
    crate::wire::lemma_body_len(e);
    crate::bytes::lemma_bounds();
    let b = crate::wire::body(e);
    let p = crate::wire::payload(e);
    let source = match e {
        Event::MemoryMapAdd { source_event_id, .. } => source_event_id,
        Event::MemoryMapRemove { source_event_id, .. } => source_event_id,
        _ => 0,
    };
    let region = match e {
        Event::MemoryMapAdd { region, .. } => region,
        Event::MemoryMapRemove { region, .. } => region,
        _ => arbitrary(),
    };
    crate::bytes::lemma_le_bytes_len(source as nat, 8);
    crate::descriptor::lemma_descriptor_len(region);
    assert(p.subrange(0, 8) =~= crate::bytes::le_bytes(source as nat, 8));
    lemma_payload_number(e, 0, source as nat, 8);
    let d = crate::descriptor::descriptor(region);
    assert(b.subrange(24, 24 + d.len() as int) =~= d);
    crate::descriptor::law_descriptor_decodes(b, 24, region);
}

proof fn lemma_snapshot_reads(version: u32, e: Event)
    requires
        encodable(version, e),
        e is MemoryMapSnapshot,
    ensures
        crate::parser::event_of(version, e.id(), crate::wire::body(e)) == Ok::<Event, Seq<char>>(e),
{
    lemma_event_header_reads(e);
    crate::wire::lemma_body_len(e);
    crate::bytes::lemma_bounds();
    let b = crate::wire::body(e);
    let p = crate::wire::payload(e);
    let regions = e->MemoryMapSnapshot_regions;
    let d = crate::wire::descriptors(regions);
    crate::bytes::lemma_le_bytes_len(regions.len(), 4);
    crate::bytes::lemma_le_bytes_len(0, 4);
    assert(p.subrange(0, 4) =~= crate::bytes::le_bytes(regions.len(), 4));
    assert(p.subrange(4, 8) =~= crate::bytes::le_bytes(0, 4));
    lemma_payload_number(e, 0, regions.len(), 4);
    lemma_payload_number(e, 4, 0, 4);
    assert(b.subrange(24, 24 + d.len() as int) =~= d);
    lemma_regions_decode(b, 24, regions, Seq::empty());
    assert(Seq::<Region>::empty() + regions =~= regions);
    crate::maps::lemma_order_complaint(regions);
}

proof fn lemma_signal_reads(version: u32, e: Event)
    requires
        encodable(version, e),
        e is SignalDelivery,
    ensures
        crate::parser::event_of(version, e.id(), crate::wire::body(e)) == Ok::<Event, Seq<char>>(e),
{
    lemma_event_header_reads(e);
    crate::wire::lemma_body_len(e);
    crate::bytes::lemma_bounds();
    let b = crate::wire::body(e);
    let p = crate::wire::payload(e);
    let signo = crate::bytes::unsigned32_of(e->SignalDelivery_signal_number);
    let errno = crate::bytes::unsigned32_of(e->SignalDelivery_si_errno);
    let code = crate::bytes::unsigned32_of(e->SignalDelivery_si_code);
    let info = e->SignalDelivery_siginfo_bytes;
    crate::bytes::lemma_le_bytes_len(signo as nat, 4);
    crate::bytes::lemma_le_bytes_len(errno as nat, 4);
    crate::bytes::lemma_le_bytes_len(code as nat, 4);
    crate::bytes::lemma_le_bytes_len(info.len(), 4);
    assert(p.subrange(0, 4) =~= crate::bytes::le_bytes(signo as nat, 4));
    assert(p.subrange(4, 8) =~= crate::bytes::le_bytes(errno as nat, 4));
    assert(p.subrange(8, 12) =~= crate::bytes::le_bytes(code as nat, 4));
    assert(p.subrange(12, 16) =~= crate::bytes::le_bytes(info.len(), 4));
    lemma_payload_number(e, 0, signo as nat, 4);
    lemma_payload_number(e, 4, errno as nat, 4);
    lemma_payload_number(e, 8, code as nat, 4);
    lemma_payload_number(e, 12, info.len(), 4);
    assert(b.subrange(32, 160) =~= info);
    assert(b.subrange(32, 36) =~= info.subrange(0, 4));
    assert(b.subrange(36, 40) =~= info.subrange(4, 8));
    assert(b.subrange(40, 44) =~= info.subrange(8, 12));
}

/// The body of a record decodes to the event it was made of.
pub proof fn law_event_reads_back(version: u32, e: Event)
    requires
        encodable(version, e),
    ensures
        crate::parser::event_of(version, e.id(), crate::wire::body(e)) == Ok::<Event, Seq<char>>(e),
{
    match e {
        Event::SyscallEnter { .. } => lemma_enter_reads(version, e),
        Event::SyscallExit { .. } => lemma_exit_reads(version, e),
        Event::KernelMemoryWrite { .. } => lemma_data_reads(version, e),
        Event::MemoryMapSnapshot { .. } => lemma_snapshot_reads(version, e),
        Event::MemoryMapAdd { .. } => lemma_delta_reads(version, e),
        Event::MemoryMapRemove { .. } => lemma_delta_reads(version, e),
        Event::SignalDelivery { .. } => lemma_signal_reads(version, e),
    }
}

/// The first sixteen bytes of what decodes to an event are the event's header.
proof fn lemma_header_canonical(version: u32, id: u64, b: Seq<u8>)
    requires
        crate::parser::event_of(version, id, b) is Ok,
    ensures
        ({
            let e = crate::parser::event_of(version, id, b)->Ok_0;
            &&& b.len() >= 16
            &&& e.id() == id
            &&& e.thread() == crate::parser::u32_at(b, 12)
            &&& e.thread() != 0
            &&& crate::wire::kind(e) == b[0]
            &&& crate::wire::event_header(e) == b.subrange(0, 16)
        }),
{
    let e = crate::parser::event_of(version, id, b)->Ok_0;
    crate::bytes::lemma_bounds();
    crate::bytes::lemma_write_back(b, 4, 8);
    crate::bytes::lemma_write_back(b, 12, 4);
    assert(crate::wire::kind(e) == b[0]);
    assert(crate::wire::event_header(e) =~= b.subrange(0, 16));
}

proof fn lemma_enter_canonical(id: u64, tid: u32, b: Seq<u8>)
    requires
        crate::parser::enter_of(id, tid, b) is Ok,
    ensures
        crate::wire::payload(crate::parser::enter_of(id, tid, b)->Ok_0) == b.subrange(
            16,
            b.len() as int,
        ),
{
    crate::bytes::lemma_bounds();
    crate::bytes::lemma_write_back(b, 16, 8);
    crate::bytes::lemma_write_back(b, 24, 8);
    crate::bytes::lemma_write_back(b, 32, 8);
    crate::bytes::lemma_write_back(b, 40, 8);
    crate::bytes::lemma_write_back(b, 48, 8);
    crate::bytes::lemma_write_back(b, 56, 8);
    crate::bytes::lemma_write_back(b, 64, 8);
    assert(crate::wire::payload(crate::parser::enter_of(id, tid, b)->Ok_0) =~= b.subrange(
        16,
        b.len() as int,
    ));
}

proof fn lemma_exit_canonical(id: u64, tid: u32, b: Seq<u8>)
    requires
        crate::parser::exit_of(id, tid, b) is Ok,
    ensures
        crate::wire::payload(crate::parser::exit_of(id, tid, b)->Ok_0) == b.subrange(
            16,
            b.len() as int,
        ),
{
    crate::bytes::lemma_bounds();
    crate::bytes::lemma_write_back(b, 16, 8);
    crate::bytes::lemma_write_back(b, 24, 8);
    assert(crate::wire::payload(crate::parser::exit_of(id, tid, b)->Ok_0) =~= b.subrange(
        16,
        b.len() as int,
    ));
}

proof fn lemma_data_canonical(version: u32, id: u64, tid: u32, b: Seq<u8>)
    requires
        crate::parser::data_of(version, id, tid, b) is Ok,
    ensures
        crate::wire::payload(crate::parser::data_of(version, id, tid, b)->Ok_0) == b.subrange(
            16,
            b.len() as int,
        ),
{
    crate::bytes::lemma_bounds();
    crate::bytes::lemma_write_back(b, 16, 8);
    crate::bytes::lemma_write_back(b, 24, 8);
    crate::bytes::lemma_write_back(b, 32, 4);
    crate::bytes::lemma_write_back(b, 36, 4);
    assert(crate::wire::payload(crate::parser::data_of(version, id, tid, b)->Ok_0) =~= b.subrange(
        16,
        b.len() as int,
    ));
}

proof fn lemma_snapshot_canonical(version: u32, id: u64, tid: u32, b: Seq<u8>)
    requires
        crate::parser::snapshot_of(version, id, tid, b) is Ok,
    ensures
        ({
            let e = crate::parser::snapshot_of(version, id, tid, b)->Ok_0;
            &&& crate::wire::payload(e) == b.subrange(16, b.len() as int)
            &&& e->MemoryMapSnapshot_regions.len() <= u32::MAX
            &&& crate::maps::canonical(e->MemoryMapSnapshot_regions)
        }),
{
    let e = crate::parser::snapshot_of(version, id, tid, b)->Ok_0;
    let regions = e->MemoryMapSnapshot_regions;
    let count = crate::parser::u32_at(b, 16) as nat;
    crate::bytes::lemma_bounds();
    crate::bytes::lemma_write_back(b, 16, 4);
    crate::bytes::lemma_write_back(b, 20, 4);
    lemma_decoded_regions(b, 24, count, Seq::empty());
    assert(regions.skip(0) =~= regions);
    crate::maps::lemma_order_complaint(regions);
    assert(crate::wire::payload(e) =~= b.subrange(16, b.len() as int));
}

proof fn lemma_delta_canonical(version: u32, id: u64, kind: int, name: Seq<char>, b: Seq<u8>)
    requires
        crate::parser::delta_of(version, id, kind, name, b) is Ok,
    ensures
        ({
            let region = crate::parser::delta_of(version, id, kind, name, b)->Ok_0;
            &&& region.valid()
            &&& crate::bytes::le_bytes(crate::parser::u64_at(b, 16) as nat, 8)
                + crate::descriptor::descriptor(region) == b.subrange(16, b.len() as int)
        }),
{
    let region = crate::parser::delta_of(version, id, kind, name, b)->Ok_0;
    crate::bytes::lemma_bounds();
    crate::bytes::lemma_write_back(b, 16, 8);
    crate::descriptor::law_decoded_is_descriptor(b, 24);
    assert(crate::bytes::le_bytes(crate::parser::u64_at(b, 16) as nat, 8)
        + crate::descriptor::descriptor(region) =~= b.subrange(16, b.len() as int));
}

proof fn lemma_signal_canonical(version: u32, id: u64, tid: u32, b: Seq<u8>)
    requires
        crate::parser::signal_of(version, id, tid, b) is Ok,
    ensures
        ({
            let e = crate::parser::signal_of(version, id, tid, b)->Ok_0;
            let info = e->SignalDelivery_siginfo_bytes;
            &&& crate::wire::payload(e) == b.subrange(16, b.len() as int)
            &&& crate::parser::i32_at(info, 0) == e->SignalDelivery_signal_number
            &&& crate::parser::i32_at(info, 4) == e->SignalDelivery_si_errno
            &&& crate::parser::i32_at(info, 8) == e->SignalDelivery_si_code
        }),
{
    let e = crate::parser::signal_of(version, id, tid, b)->Ok_0;
    let info = e->SignalDelivery_siginfo_bytes;
    crate::bytes::lemma_bounds();
    crate::bytes::lemma_write_back(b, 16, 4);
    crate::bytes::lemma_write_back(b, 20, 4);
    crate::bytes::lemma_write_back(b, 24, 4);
    crate::bytes::lemma_write_back(b, 28, 4);
    assert(info.subrange(0, 4) =~= b.subrange(32, 36));
    assert(info.subrange(4, 8) =~= b.subrange(36, 40));
    assert(info.subrange(8, 12) =~= b.subrange(40, 44));
    assert(crate::wire::payload(e) =~= b.subrange(16, b.len() as int));
}

/// What decodes to an event is the body of that event's record.
#[verifier::rlimit(50)]
pub proof fn law_event_bytes_are_canonical(version: u32, id: u64, b: Seq<u8>)
    requires
        b.len() <= u32::MAX,
        crate::parser::event_of(version, id, b) is Ok,
    ensures
        ({
            let e = crate::parser::event_of(version, id, b)->Ok_0;
            &&& e.id() == id
            &&& encodable(version, e)
            &&& crate::wire::body(e) == b
        }),
{
    let e = crate::parser::event_of(version, id, b)->Ok_0;
    let tid = crate::parser::u32_at(b, 12);
    lemma_header_canonical(version, id, b);
    match e {
        Event::SyscallEnter { .. } => lemma_enter_canonical(id, tid, b),
        Event::SyscallExit { .. } => lemma_exit_canonical(id, tid, b),
        Event::KernelMemoryWrite { .. } => lemma_data_canonical(version, id, tid, b),
        Event::MemoryMapSnapshot { .. } => lemma_snapshot_canonical(version, id, tid, b),
        Event::MemoryMapAdd { .. } => lemma_delta_canonical(version, id, 5, "MemoryMapAdd"@, b),
        Event::MemoryMapRemove { .. } => lemma_delta_canonical(
            version,
            id,
            6,
            "MemoryMapRemove"@,
            b,
        ),
        Event::SignalDelivery { .. } => lemma_signal_canonical(version, id, tid, b),
    }
    assert(crate::wire::payload(e) == b.subrange(16, b.len() as int));
    assert(crate::wire::body(e) =~= b);
}

pub proof fn lemma_records_split(s: Seq<Event>, t: Seq<Event>)
    ensures
        crate::wire::records(s + t) == crate::wire::records(s) + crate::wire::records(t),
    decreases t.len(),
{
    if t.len() == 0 {
        assert(s + t =~= s);
        assert(crate::wire::records(s) + Seq::<u8>::empty() =~= crate::wire::records(s));
    } else {
        lemma_records_split(s, t.drop_last());
        assert((s + t).drop_last() =~= s + t.drop_last());
        assert((s + t).last() == t.last());
        assert(crate::wire::records(s) + crate::wire::records(t.drop_last()) + crate::wire::record(
            t.last(),
        ) =~= crate::wire::records(s) + (crate::wire::records(t.drop_last()) + crate::wire::record(
            t.last(),
        )));
    }
}

/// A record at `at` decodes to its event, and decoding goes on behind it.
proof fn lemma_record_decodes(
    version: u32,
    b: Seq<u8>,
    at: int,
    end: int,
    got: Seq<Event>,
    e: Event,
)
    requires
        0 <= at,
        at + crate::wire::record(e).len() <= end <= b.len(),
        b.subrange(at, at + crate::wire::record(e).len()) == crate::wire::record(e),
        encodable(version, e),
        got.len() + 1 == e.id(),
    ensures
        crate::parser::events_of(version, b, at, end, got) == crate::parser::events_of(
            version,
            b,
            at + crate::wire::record(e).len(),
            end,
            got.push(e),
        ),
{
    let r = crate::wire::record(e);
    let body = crate::wire::body(e);
    let m = body.len() as int;
    crate::bytes::lemma_le_bytes_len(body.len(), 4);
    crate::bytes::lemma_bounds();
    assert(r.subrange(0, 4) =~= crate::bytes::le_bytes(body.len(), 4));
    assert(r.subrange(4, 4 + m) =~= body);
    crate::bytes::lemma_read_within(b, at, r, 0, body.len(), 4);
    assert(b.subrange(at + 4, at + 4 + m) =~= b.subrange(at, at + 4 + m).subrange(4, 4 + m));
    law_event_reads_back(version, e);
}

/// Records in a row decode to their events.
#[verifier::rlimit(50)]
proof fn lemma_records_decode(version: u32, b: Seq<u8>, es: Seq<Event>, end: int, k: int)
    requires
        0 <= k <= es.len() <= u64::MAX,
        end == 16 + crate::wire::records(es).len() <= b.len(),
        b.subrange(16, end) == crate::wire::records(es),
        forall|i: int| 0 <= i < es.len() ==> (#[trigger] es[i]).id() == i + 1,
        forall|i: int| 0 <= i < es.len() ==> encodable(version, #[trigger] es[i]),
    ensures
        16 + crate::wire::records(es.take(k)).len() <= end,
        crate::parser::events_of(
            version,
            b,
            16 + crate::wire::records(es.take(k)).len() as int,
            end,
            es.take(k),
        ) == Ok::<Seq<Event>, Seq<char>>(es),
    decreases es.len() - k,
{
    if k == es.len() {
        assert(es.take(k) =~= es);
    } else {
        let e = es[k];
        let before = es.take(k);
        let next = es.take(k + 1);
        let all = crate::wire::records(es);
        let done = crate::wire::records(before);
        let n = done.len() as int;
        let r = crate::wire::record(e);
        lemma_records_decode(version, b, es, end, k + 1);
        assert(next.drop_last() =~= before);
        assert(next.last() == e);
        assert(crate::wire::records(next) == done + r);
        assert(es =~= next + es.skip(k + 1));
        lemma_records_split(next, es.skip(k + 1));
        assert(all.subrange(n, n + r.len()) =~= r);
        assert(b.subrange(16 + n, 16 + n + r.len()) =~= b.subrange(16, end).subrange(
            n,
            n + r.len(),
        ));
        assert(before.push(e) =~= next);
        lemma_record_decodes(version, b, 16 + n, end, before, e);
    }
}

/// The records of events begin with the record of the first.
proof fn lemma_records_first(es: Seq<Event>)
    requires
        es.len() > 0,
    ensures
        crate::wire::records(es) == crate::wire::record(es[0]) + crate::wire::records(
            es.drop_first(),
        ),
{
    let one = seq![es[0]];
    assert(es =~= one + es.drop_first());
    lemma_records_split(one, es.drop_first());
    assert(one.drop_last() =~= Seq::<Event>::empty());
    assert(crate::wire::records(one.drop_last()) =~= Seq::<u8>::empty());
    assert(crate::wire::records(one) =~= crate::wire::record(es[0]));
}

/// A body behind its length is a record.
proof fn lemma_framed(b: Seq<u8>, at: int, next: int, e: Event)
    requires
        0 <= at,
        next == at + 4 + crate::parser::u32_at(b, at),
        next <= b.len(),
        crate::wire::body(e) == b.subrange(at + 4, next),
    ensures
        b.subrange(at, next) == crate::wire::record(e),
{
    crate::bytes::lemma_bounds();
    crate::bytes::lemma_write_back(b, at, 4);
    assert(b.subrange(at, next) =~= b.subrange(at, at + 4) + b.subrange(at + 4, next));
}

/// A record that decodes to an event is the record of that event.
#[verifier::rlimit(100)]
proof fn lemma_decoded_record(version: u32, b: Seq<u8>, at: int, id: u64)
    requires
        0 <= at,
        at + 4 + crate::parser::u32_at(b, at) <= b.len(),
        crate::parser::event_of(
            version,
            id,
            b.subrange(at + 4, at + 4 + crate::parser::u32_at(b, at)),
        ) is Ok,
    ensures
        ({
            let next = at + 4 + crate::parser::u32_at(b, at);
            let e = crate::parser::event_of(version, id, b.subrange(at + 4, next))->Ok_0;
            &&& e.id() == id
            &&& encodable(version, e)
            &&& b.subrange(at, next) == crate::wire::record(e)
        }),
{
    let next = at + 4 + crate::parser::u32_at(b, at);
    let body = b.subrange(at + 4, next);
    law_event_bytes_are_canonical(version, id, body);
    lemma_framed(b, at, next, crate::parser::event_of(version, id, body)->Ok_0);
}

/// What decodes to events is their records in a row.
#[verifier::rlimit(50)]
proof fn lemma_decoded_records(version: u32, b: Seq<u8>, at: int, end: int, got: Seq<Event>)
    requires
        0 <= at <= end <= b.len(),
        crate::parser::events_of(version, b, at, end, got) is Ok,
        got.len() + (end - at) <= u64::MAX,
    ensures
        ({
            let es = crate::parser::events_of(version, b, at, end, got)->Ok_0;
            &&& got.len() <= es.len() <= got.len() + (end - at)
            &&& got == es.take(got.len() as int)
            &&& b.subrange(at, end) == crate::wire::records(es.skip(got.len() as int))
            &&& forall|i: int|
                got.len() <= i < es.len() ==> (#[trigger] es[i]).id() == i + 1 && encodable(
                    version,
                    es[i],
                )
        }),
    decreases end - at,
{
    let es = crate::parser::events_of(version, b, at, end, got)->Ok_0;
    let n = got.len() as int;
    if at >= end {
        assert(es.take(n) =~= got);
        assert(es.skip(n) =~= Seq::<Event>::empty());
        assert(b.subrange(at, end) =~= Seq::<u8>::empty());
    } else {
        let next = at + 4 + crate::parser::u32_at(b, at);
        let id = (n + 1) as u64;
        let e = crate::parser::event_of(version, id, b.subrange(at + 4, next))->Ok_0;
        lemma_decoded_record(version, b, at, id);
        lemma_decoded_records(version, b, next, end, got.push(e));
        assert(es[n] == e) by {
            assert(es.take(n + 1)[n] == e);
        }
        assert(got =~= es.take(n)) by {
            assert(es.take(n) =~= es.take(n + 1).take(n));
            assert(got.push(e).take(n) =~= got);
        }
        let tail = es.skip(n);
        lemma_records_first(tail);
        assert(tail.drop_first() =~= es.skip(n + 1));
        assert(b.subrange(at, end) =~= b.subrange(at, next) + b.subrange(next, end));
    }
}

/// Reading a written trace gives back its format and events. The traces meant are those of a
/// known format with events numbered from 1, each of which a record can hold (a writer refuses
/// an event of more than `u32::MAX` bytes), whose structure is sound.
#[verifier::rlimit(50)]
pub proof fn law_written_trace_reads_back(t: Trace)
    requires
        well_formed(t),
    ensures
        crate::parser::parsed(crate::wire::trace_bytes(t.version, t.events)) == Ok::<
            Trace,
            Seq<char>,
        >(t),
{
    let b = crate::wire::trace_bytes(t.version, t.events);
    let h = crate::wire::header(t.version);
    let rs = crate::wire::records(t.events);
    let f = crate::wire::footer(t.events.len());
    let end = 16 + rs.len() as int;
    crate::wire::lemma_header_len(t.version);
    crate::wire::lemma_footer_len(t.events.len());
    crate::bytes::lemma_bounds();
    crate::bytes::lemma_le_bytes_len(t.version as nat, 4);
    crate::bytes::lemma_le_bytes_len(1, 2);
    crate::bytes::lemma_le_bytes_len(t.events.len(), 8);
    assert(b.len() == end + 16);
    assert(b.subrange(0, 8) =~= crate::trace::TRACE_HEADER_MAGIC@);
    assert(b.subrange(8, 12) =~= crate::bytes::le_bytes(t.version as nat, 4));
    assert(b.subrange(12, 14) =~= crate::bytes::le_bytes(1, 2));
    assert(b[14] == h[14] && b[15] == h[15]);
    crate::bytes::lemma_read_back(b, 8, t.version as nat, 4);
    assert(crate::bytes::le_bound(2) == 0x10000) by {
        reveal_with_fuel(crate::bytes::le_bound, 3);
    }
    crate::bytes::lemma_read_back(b, 12, 1, 2);
    assert(b.subrange(end, end + 8) =~= crate::bytes::le_bytes(t.events.len(), 8));
    crate::bytes::lemma_read_back(b, end, t.events.len(), 8);
    assert(b.subrange(b.len() - 8, b.len() as int) =~= crate::trace::TRACE_FOOTER_MAGIC@);
    assert(b.subrange(16, end) =~= rs);
    lemma_records_decode(t.version, b, t.events, end, 0);
    assert(t.events.take(0) =~= Seq::<Event>::empty());
}

/// Writing a trace that was read gives back its bytes, and every trace that is read is well
/// formed: no two byte sequences hold the same trace. A byte sequence in memory is shorter
/// than `u64::MAX`.
#[verifier::rlimit(50)]
pub proof fn law_read_trace_writes_back(b: Seq<u8>)
    requires
        b.len() <= u64::MAX,
        crate::parser::parsed(b) is Ok,
    ensures
        ({
            let t = crate::parser::parsed(b)->Ok_0;
            &&& well_formed(t)
            &&& crate::wire::trace_bytes(t.version, t.events) == b
        }),
{
    let t = crate::parser::parsed(b)->Ok_0;
    let end = b.len() - 16;
    crate::bytes::lemma_bounds();
    crate::bytes::lemma_write_back(b, 8, 4);
    crate::bytes::lemma_write_back(b, 12, 2);
    crate::bytes::lemma_write_back(b, end, 8);
    lemma_decoded_records(t.version, b, 16, end, Seq::empty());
    assert(t.events.skip(0) =~= t.events);
    assert(crate::wire::header(t.version) =~= b.subrange(0, 16));
    assert(crate::wire::footer(t.events.len()) =~= b.subrange(end, b.len() as int));
    assert(crate::wire::trace_bytes(t.version, t.events) =~= b);
}

/// Decoding the records of `b` goes on behind them where more bytes follow.
proof fn lemma_decoding_goes_on(
    version: u32,
    b: Seq<u8>,
    longer: Seq<u8>,
    at: int,
    end: int,
    limit: int,
    got: Seq<Event>,
)
    requires
        0 <= at <= end <= b.len(),
        end <= limit,
        b.is_prefix_of(longer),
        crate::parser::events_of(version, b, at, end, got) is Ok,
    ensures
        crate::parser::events_of(version, longer, at, limit, got) == crate::parser::events_of(
            version,
            longer,
            end,
            limit,
            crate::parser::events_of(version, b, at, end, got)->Ok_0,
        ),
    decreases end - at,
{
    if at < end {
        let next = at + 4 + crate::parser::u32_at(b, at);
        assert(longer.subrange(at, at + 4) =~= b.subrange(at, at + 4));
        assert(longer.subrange(at + 4, next) =~= b.subrange(at + 4, next));
        let e = crate::parser::event_of(
            version,
            (got.len() + 1) as u64,
            b.subrange(at + 4, next),
        )->Ok_0;
        lemma_decoding_goes_on(version, b, longer, next, end, limit, got.push(e));
    }
}

/// A footer cannot be taken for the beginning of the record that would come next: as a record
/// it would have to hold a number of the event that is far greater than the number of events.
proof fn lemma_footer_is_no_record(version: u32, b: Seq<u8>, at: int, end: int, got: Seq<Event>)
    requires
        0 <= at < end <= b.len(),
        at + 16 <= b.len(),
        crate::parser::u64_at(b, at) == got.len(),
        b.subrange(at + 8, at + 16) == crate::trace::TRACE_FOOTER_MAGIC@,
    ensures
        crate::parser::events_of(version, b, at, end, got) is Err,
{
    if crate::parser::events_of(version, b, at, end, got) is Ok {
        let next = at + 4 + crate::parser::u32_at(b, at);
        let body = b.subrange(at + 4, next);
        let magic = crate::trace::TRACE_FOOTER_MAGIC@;
        assert(crate::parser::event_of(version, (got.len() + 1) as u64, body) is Ok);
        assert(body.subrange(4, 12) =~= b.subrange(at + 8, at + 16));
        assert(body[0] == b[at + 4] && body[1] == b[at + 5] && body[2] == b[at + 6] && body[3]
            == b[at + 7]);
        lemma_count_is_small(b.subrange(at, at + 8));
        lemma_magic_is_large();
    }
}

/// A number whose fifth byte is at most 7 and whose last three are 0.
proof fn lemma_count_is_small(s: Seq<u8>)
    requires
        s.len() == 8,
        s[4] <= 7,
        s[5] == 0,
        s[6] == 0,
        s[7] == 0,
    ensures
        crate::bytes::le_value(s) < 0x8_0000_0000,
{
    reveal_with_fuel(crate::bytes::le_value, 9);
}

/// The closing mark read as a number.
proof fn lemma_magic_is_large()
    ensures
        0x44_0000_0000_0000 <= crate::bytes::le_value(crate::trace::TRACE_FOOTER_MAGIC@)
            < 0x45_0000_0000_0000,
{
    reveal_with_fuel(crate::bytes::le_value, 9);
}

/// No trace begins another: bytes behind the footer make a trace unreadable.
pub proof fn law_nothing_follows_the_footer(b: Seq<u8>, more: Seq<u8>)
    requires
        crate::parser::parsed(b) is Ok,
        more.len() > 0,
    ensures
        crate::parser::parsed(b + more) is Err,
{
    let longer = b + more;
    let t = crate::parser::parsed(b)->Ok_0;
    let end = b.len() - 16;
    if crate::parser::parsed(longer) is Ok {
        assert(longer.subrange(8, 12) =~= b.subrange(8, 12));
        assert(longer.subrange(0, b.len() as int) =~= b);
        lemma_decoding_goes_on(t.version, b, longer, 16, end, longer.len() - 16, Seq::empty());
        assert(longer.subrange(end, end + 8) =~= b.subrange(end, end + 8));
        assert(longer.subrange(end + 8, end + 16) =~= b.subrange(end + 8, end + 16));
        lemma_footer_is_no_record(t.version, longer, end, longer.len() - 16, t.events);
    }
}

/// A trace that was cut short, wherever it was cut, cannot be read.
#[verifier::rlimit(50)]
pub proof fn law_cut_trace_is_refused(b: Seq<u8>, n: int)
    requires
        crate::parser::parsed(b) is Ok,
        0 <= n < b.len(),
    ensures
        crate::parser::parsed(b.take(n)) is Err,
{
    if crate::parser::parsed(b.take(n)) is Ok {
        law_nothing_follows_the_footer(b.take(n), b.skip(n));
        assert(b.take(n) + b.skip(n) =~= b);
    }
}

/// Decoding finds no end before the last record is cut off by the place of the footer.
#[verifier::rlimit(50)]
proof fn lemma_no_place_for_a_footer(
    version: u32,
    b: Seq<u8>,
    es: Seq<Event>,
    k: int,
    got: Seq<Event>,
)
    requires
        0 <= k < es.len(),
        b.len() == 16 + crate::wire::records(es).len(),
        b.subrange(16, b.len() as int) == crate::wire::records(es),
        forall|i: int|
            0 <= i < es.len() ==> crate::wire::body(#[trigger] es[i]).len() <= u32::MAX,
    ensures
        crate::parser::events_of(
            version,
            b,
            16 + crate::wire::records(es.take(k)).len() as int,
            b.len() - 16,
            got,
        ) is Err,
    decreases es.len() - k,
{
    let e = es[k];
    let next = es.take(k + 1);
    let done = crate::wire::records(es.take(k));
    let all = crate::wire::records(es);
    let n = done.len() as int;
    let r = crate::wire::record(e);
    let m = crate::wire::body(e).len();
    crate::wire::lemma_event_header_len(e);
    crate::bytes::lemma_le_bytes_len(m, 4);
    crate::bytes::lemma_bounds();
    assert(next.drop_last() =~= es.take(k));
    assert(next.last() == e);
    assert(crate::wire::records(next) == done + r);
    assert(es =~= next + es.skip(k + 1));
    lemma_records_split(next, es.skip(k + 1));
    assert(all.subrange(n, n + r.len()) =~= r);
    assert(b.subrange(16 + n, 16 + n + r.len()) =~= b.subrange(16, b.len() as int).subrange(
        n,
        n + r.len(),
    ));
    assert(r.subrange(0, 4) =~= crate::bytes::le_bytes(m, 4));
    crate::bytes::lemma_read_within(b, 16 + n, r, 0, m, 4);
    if k + 1 < es.len() {
        let body = b.subrange(16 + n + 4, 16 + n + 4 + m);
        let read = crate::parser::event_of(version, (got.len() + 1) as u64, body);
        if read is Ok {
            lemma_no_place_for_a_footer(version, b, es, k + 1, got.push(read->Ok_0));
        }
    } else {
        assert(next =~= es);
    }
}

/// What a writer has put out is no readable trace as long as the footer is missing.
pub proof fn law_trace_without_footer_is_refused(version: u32, es: Seq<Event>)
    requires
        forall|i: int|
            0 <= i < es.len() ==> crate::wire::body(#[trigger] es[i]).len() <= u32::MAX,
    ensures
        crate::parser::parsed(crate::wire::header(version) + crate::wire::records(es)) is Err,
{
    let b = crate::wire::header(version) + crate::wire::records(es);
    crate::wire::lemma_header_len(version);
    if es.len() > 0 {
        assert(b.subrange(16, b.len() as int) =~= crate::wire::records(es));
        assert(es.take(0) =~= Seq::<Event>::empty());
        assert(crate::wire::records(es.take(0)).len() == 0);
        lemma_no_place_for_a_footer(crate::parser::u32_at(b, 8), b, es, 0, Seq::empty());
    } else {
        assert(crate::wire::records(es).len() == 0);
    }
}

/// Whatever a writer accepts fits the length field of its record: no length wraps.
pub proof fn law_accepted_event_fits_its_record(p: Progress, e: Event)
    requires
        crate::writer::refusal(p, e) is None,
    ensures
        crate::wire::body(e).len() <= u32::MAX,
{
    crate::wire::lemma_body_len(e);
    match e {
        Event::MemoryMapAdd { region, .. } => crate::descriptor::lemma_descriptor_len(region),
        Event::MemoryMapRemove { region, .. } => crate::descriptor::lemma_descriptor_len(region),
        _ => {},
    }
}

} // verus!
