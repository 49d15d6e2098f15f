//! The byte format of a trace: a header, framed event records, and a footer.
use vstd::prelude::*;
use crate::maps::Region;
use crate::trace::Event;

verus! {

/// Magic, version, architecture, byte order and pointer width.
pub open spec fn header(version: u32) -> Seq<u8> {
    crate::trace::TRACE_HEADER_MAGIC@ + crate::bytes::le_bytes(version as nat, 4)
        + crate::bytes::le_bytes(crate::trace::ARCH_X86_64 as nat, 2)
        + seq![crate::trace::BYTE_ORDER_LITTLE_ENDIAN, crate::trace::POINTER_WIDTH_64]
}

/// Number of events and magic.
pub open spec fn footer(count: nat) -> Seq<u8> {
    crate::bytes::le_bytes(count, 8) + crate::trace::TRACE_FOOTER_MAGIC@
}

pub open spec fn descriptors(rs: Seq<Region>) -> Seq<u8>
    decreases rs.len(),
{
    if rs.len() == 0 {
        Seq::empty()
    } else {
        descriptors(rs.drop_last()) + crate::descriptor::descriptor(rs.last())
    }
}

pub open spec fn kind(e: Event) -> u8 {
    match e {
        Event::SyscallEnter { .. } => crate::trace::EVENT_KIND_SYSCALL_ENTER,
        Event::SyscallExit { .. } => crate::trace::EVENT_KIND_SYSCALL_EXIT,
        Event::KernelMemoryWrite { .. } => crate::trace::EVENT_KIND_KERNEL_MEMORY_WRITE,
        Event::MemoryMapSnapshot { .. } => crate::trace::EVENT_KIND_MEMORY_MAP_SNAPSHOT,
        Event::MemoryMapAdd { .. } => crate::trace::EVENT_KIND_MEMORY_MAP_ADD,
        Event::MemoryMapRemove { .. } => crate::trace::EVENT_KIND_MEMORY_MAP_REMOVE,
        Event::SignalDelivery { .. } => crate::trace::EVENT_KIND_SIGNAL_DELIVERY,
    }
}

/// What stands behind the event header.
pub open spec fn payload(e: Event) -> Seq<u8> {
    match e {
        Event::SyscallEnter { number, args, .. } => crate::bytes::le_bytes(number as nat, 8)
            + crate::bytes::le_bytes(args[0] as nat, 8) + crate::bytes::le_bytes(args[1] as nat, 8)
            + crate::bytes::le_bytes(args[2] as nat, 8) + crate::bytes::le_bytes(args[3] as nat, 8)
            + crate::bytes::le_bytes(args[4] as nat, 8) + crate::bytes::le_bytes(args[5] as nat, 8),
        Event::SyscallExit { number, result, .. } => crate::bytes::le_bytes(number as nat, 8)
            + crate::bytes::le_bytes(crate::bytes::unsigned_of(result) as nat, 8),
        Event::KernelMemoryWrite { source_event_id, recorded_address, data, .. } =>
            crate::bytes::le_bytes(source_event_id as nat, 8) + crate::bytes::le_bytes(
            recorded_address as nat,
            8,
        ) + crate::bytes::le_bytes(data.len(), 4) + crate::bytes::le_bytes(0, 4) + data,
        Event::MemoryMapSnapshot { regions, .. } => crate::bytes::le_bytes(regions.len(), 4)
            + crate::bytes::le_bytes(0, 4) + descriptors(regions),
        Event::MemoryMapAdd { source_event_id, region, .. } => crate::bytes::le_bytes(
            source_event_id as nat,
            8,
        ) + crate::descriptor::descriptor(region),
        Event::MemoryMapRemove { source_event_id, region, .. } => crate::bytes::le_bytes(
            source_event_id as nat,
            8,
        ) + crate::descriptor::descriptor(region),
        Event::SignalDelivery { signal_number, si_errno, si_code, siginfo_bytes, .. } =>
            crate::bytes::le_bytes(crate::bytes::unsigned32_of(signal_number) as nat, 4)
            + crate::bytes::le_bytes(crate::bytes::unsigned32_of(si_errno) as nat, 4)
            + crate::bytes::le_bytes(crate::bytes::unsigned32_of(si_code) as nat, 4)
            + crate::bytes::le_bytes(siginfo_bytes.len(), 4) + siginfo_bytes,
    }
}

/// Kind, three reserved zeros, event id and thread id.
pub open spec fn event_header(e: Event) -> Seq<u8> {
    seq![kind(e), 0u8, 0u8, 0u8] + crate::bytes::le_bytes(e.id() as nat, 8)
        + crate::bytes::le_bytes(e.thread() as nat, 4)
}

pub open spec fn body(e: Event) -> Seq<u8> {
    event_header(e) + payload(e)
}

/// A record: its body behind the body's length.
pub open spec fn record(e: Event) -> Seq<u8> {
    crate::bytes::le_bytes(body(e).len(), 4) + body(e)
}

pub open spec fn records(es: Seq<Event>) -> Seq<u8>
    decreases es.len(),
{
    if es.len() == 0 {
        Seq::empty()
    } else {
        records(es.drop_last()) + record(es.last())
    }
}

/// The bytes of a whole trace.
pub open spec fn trace_bytes(version: u32, es: Seq<Event>) -> Seq<u8> {
    header(version) + records(es) + footer(es.len())
}

pub proof fn lemma_header_len(version: u32)
    ensures
        header(version).len() == 16,
{
    crate::bytes::lemma_le_bytes_len(version as nat, 4);
    crate::bytes::lemma_le_bytes_len(crate::trace::ARCH_X86_64 as nat, 2);
}

pub proof fn lemma_footer_len(count: nat)
    ensures
        footer(count).len() == 16,
{
    crate::bytes::lemma_le_bytes_len(count, 8);
}

pub proof fn lemma_event_header_len(e: Event)
    ensures
        event_header(e).len() == 16,
{
    crate::bytes::lemma_le_bytes_len(e.id() as nat, 8);
    crate::bytes::lemma_le_bytes_len(e.thread() as nat, 4);
}

/// How long a record's body is.
pub proof fn lemma_body_len(e: Event)
    ensures
        body(e).len() == match e {
            Event::SyscallEnter { .. } => 72,
            Event::SyscallExit { .. } => 32,
            Event::KernelMemoryWrite { data, .. } => 40 + data.len(),
            Event::MemoryMapSnapshot { regions, .. } => 24 + descriptors(regions).len(),
            Event::MemoryMapAdd { region, .. } => 72 + region.label.len(),
            Event::MemoryMapRemove { region, .. } => 72 + region.label.len(),
            Event::SignalDelivery { siginfo_bytes, .. } => 32 + siginfo_bytes.len(),
        },
{
    lemma_event_header_len(e);
    match e {
        Event::SyscallEnter { number, args, .. } => {
            crate::bytes::lemma_le_bytes_len(number as nat, 8);
            crate::bytes::lemma_le_bytes_len(args[0] as nat, 8);
            crate::bytes::lemma_le_bytes_len(args[1] as nat, 8);
            crate::bytes::lemma_le_bytes_len(args[2] as nat, 8);
            crate::bytes::lemma_le_bytes_len(args[3] as nat, 8);
            crate::bytes::lemma_le_bytes_len(args[4] as nat, 8);
            crate::bytes::lemma_le_bytes_len(args[5] as nat, 8);
        },
        Event::SyscallExit { number, result, .. } => {
            crate::bytes::lemma_le_bytes_len(number as nat, 8);
            crate::bytes::lemma_le_bytes_len(crate::bytes::unsigned_of(result) as nat, 8);
        },
        Event::KernelMemoryWrite { source_event_id, recorded_address, data, .. } => {
            crate::bytes::lemma_le_bytes_len(source_event_id as nat, 8);
            crate::bytes::lemma_le_bytes_len(recorded_address as nat, 8);
            crate::bytes::lemma_le_bytes_len(data.len(), 4);
            crate::bytes::lemma_le_bytes_len(0, 4);
        },
        Event::MemoryMapSnapshot { regions, .. } => {
            crate::bytes::lemma_le_bytes_len(regions.len(), 4);
            crate::bytes::lemma_le_bytes_len(0, 4);
        },
        Event::MemoryMapAdd { source_event_id, region, .. } => {
            crate::bytes::lemma_le_bytes_len(source_event_id as nat, 8);
            crate::descriptor::lemma_descriptor_len(region);
        },
        Event::MemoryMapRemove { source_event_id, region, .. } => {
            crate::bytes::lemma_le_bytes_len(source_event_id as nat, 8);
            crate::descriptor::lemma_descriptor_len(region);
        },
        Event::SignalDelivery { signal_number, si_errno, si_code, siginfo_bytes, .. } => {
            crate::bytes::lemma_le_bytes_len(
                crate::bytes::unsigned32_of(signal_number) as nat,
                4,
            );
            crate::bytes::lemma_le_bytes_len(crate::bytes::unsigned32_of(si_errno) as nat, 4);
            crate::bytes::lemma_le_bytes_len(crate::bytes::unsigned32_of(si_code) as nat, 4);
            crate::bytes::lemma_le_bytes_len(siginfo_bytes.len(), 4);
        },
    }
}

} // verus!
