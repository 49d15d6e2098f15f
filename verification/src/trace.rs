//! The events of a recorded execution.
use vstd::prelude::*;
use crate::bytes::{bytes_equal, copy_range};
use crate::maps::{MemoryRegion, Region};
use crate::model::copy_regions;
pub use crate::descriptor::{
    DESCRIPTOR_LEN_REGION_HEADER, decode_region_descriptor, encode_region_descriptor,
};
pub use crate::dump::{dump_line, dump_trace_bytes};
pub use crate::history::reconstruct_maps_at_event;
pub use crate::parser::parse_trace_bytes;
pub use crate::structure::validate_trace_structure;
pub use crate::writer::{TraceEncoder, TraceWriter};

verus! {

/// Fixed 8-byte trace header magic: "CAUSAL\0\0".
pub const TRACE_HEADER_MAGIC: &'static [u8; 8] = &[67, 65, 85, 83, 65, 76, 0, 0];

/// Fixed 8-byte trace footer magic: "CAUSEND\0".
pub const TRACE_FOOTER_MAGIC: &'static [u8; 8] = &[67, 65, 85, 83, 69, 78, 68, 0];

/// Trace format version 1.
pub const TRACE_VERSION_1: u32 = 1;

/// Trace format version 2, which adds kernel memory writes.
pub const TRACE_VERSION_2: u32 = 2;

/// Trace format version 3, which adds the virtual memory map.
pub const TRACE_VERSION_3: u32 = 3;

/// Trace format version 4, which adds signal deliveries.
pub const TRACE_VERSION_4: u32 = 4;

/// Architecture id of Linux x86-64.
pub const ARCH_X86_64: u16 = 1;

/// Byte order id of little-endian.
pub const BYTE_ORDER_LITTLE_ENDIAN: u8 = 1;

/// Pointer width in bytes.
pub const POINTER_WIDTH_64: u8 = 8;

pub const EVENT_KIND_SYSCALL_ENTER: u8 = 1;

pub const EVENT_KIND_SYSCALL_EXIT: u8 = 2;

pub const EVENT_KIND_KERNEL_MEMORY_WRITE: u8 = 3;

pub const EVENT_KIND_MEMORY_MAP_SNAPSHOT: u8 = 4;

pub const EVENT_KIND_MEMORY_MAP_ADD: u8 = 5;

pub const EVENT_KIND_MEMORY_MAP_REMOVE: u8 = 6;

pub const EVENT_KIND_SIGNAL_DELIVERY: u8 = 7;

/// Record length of a syscall entry, without the length prefix.
pub const RECORD_LEN_SYSCALL_ENTER: u32 = 72;

/// Record length of a syscall exit, without the length prefix.
pub const RECORD_LEN_SYSCALL_EXIT: u32 = 32;

/// Record length of a kernel memory write, without the length prefix and the data.
pub const RECORD_LEN_KERNEL_MEMORY_WRITE_HEADER: u32 = 40;

/// Record length of a signal delivery, without the length prefix and the siginfo bytes.
pub const RECORD_LEN_SIGNAL_DELIVERY_HEADER: u32 = 32;

/// Size of `siginfo_t` on Linux x86-64.
pub const SIGINFO_SIZE_X86_64: usize = 128;

/// Size of the trace header.
pub const HEADER_SIZE: usize = 16;

/// Size of the trace footer.
pub const FOOTER_SIZE: usize = 16;

pub const SYS_READ_X86_64: u64 = 0;

pub const SYS_MMAP_X86_64: u64 = 9;

pub const SYS_MPROTECT_X86_64: u64 = 10;

pub const SYS_MUNMAP_X86_64: u64 = 11;

pub const SYS_BRK_X86_64: u64 = 12;

pub const SYS_GETPID_X86_64: u64 = 39;

pub const SYS_EXIT_X86_64: u64 = 60;

pub const SYS_EXIT_GROUP_X86_64: u64 = 231;

/// The mathematical value of a [`TraceEvent`].
#[verifier::ext_equal]
pub enum Event {
    SyscallEnter { event_id: u64, tid: u32, number: u64, args: Seq<u64> },
    SyscallExit { event_id: u64, tid: u32, number: u64, result: i64 },
    KernelMemoryWrite {
        event_id: u64,
        tid: u32,
        source_event_id: u64,
        recorded_address: u64,
        data: Seq<u8>,
    },
    MemoryMapSnapshot { event_id: u64, tid: u32, regions: Seq<Region> },
    MemoryMapAdd { event_id: u64, tid: u32, source_event_id: u64, region: Region },
    MemoryMapRemove { event_id: u64, tid: u32, source_event_id: u64, region: Region },
    SignalDelivery {
        event_id: u64,
        tid: u32,
        signal_number: i32,
        si_errno: i32,
        si_code: i32,
        siginfo_bytes: Seq<u8>,
    },
}

impl Event {
    pub open spec fn id(self) -> u64 {
        match self {
            Event::SyscallEnter { event_id, .. } => event_id,
            Event::SyscallExit { event_id, .. } => event_id,
            Event::KernelMemoryWrite { event_id, .. } => event_id,
            Event::MemoryMapSnapshot { event_id, .. } => event_id,
            Event::MemoryMapAdd { event_id, .. } => event_id,
            Event::MemoryMapRemove { event_id, .. } => event_id,
            Event::SignalDelivery { event_id, .. } => event_id,
        }
    }

    pub open spec fn thread(self) -> u32 {
        match self {
            Event::SyscallEnter { tid, .. } => tid,
            Event::SyscallExit { tid, .. } => tid,
            Event::KernelMemoryWrite { tid, .. } => tid,
            Event::MemoryMapSnapshot { tid, .. } => tid,
            Event::MemoryMapAdd { tid, .. } => tid,
            Event::MemoryMapRemove { tid, .. } => tid,
            Event::SignalDelivery { tid, .. } => tid,
        }
    }

    pub open spec fn number(self) -> Option<u64> {
        match self {
            Event::SyscallEnter { number, .. } => Some(number),
            Event::SyscallExit { number, .. } => Some(number),
            _ => None,
        }
    }

    /// The event describes the memory map and nothing that the process did.
    pub open spec fn is_map_metadata(self) -> bool {
        self is MemoryMapSnapshot || self is MemoryMapAdd || self is MemoryMapRemove
    }
}

/// One event of a trace.
#[derive(Debug, Eq)]
pub enum TraceEvent {
    SyscallEnter { event_id: u64, tid: u32, number: u64, args: [u64; 6] },
    SyscallExit { event_id: u64, tid: u32, number: u64, result: i64 },
    KernelMemoryWrite {
        event_id: u64,
        tid: u32,
        source_event_id: u64,
        recorded_address: u64,
        data: Vec<u8>,
    },
    MemoryMapSnapshot { event_id: u64, tid: u32, regions: Vec<MemoryRegion> },
    MemoryMapAdd { event_id: u64, tid: u32, source_event_id: u64, region: MemoryRegion },
    MemoryMapRemove { event_id: u64, tid: u32, source_event_id: u64, region: MemoryRegion },
    SignalDelivery {
        event_id: u64,
        tid: u32,
        signal_number: i32,
        si_errno: i32,
        si_code: i32,
        siginfo_bytes: Vec<u8>,
    },
}

impl View for TraceEvent {
    type V = Event;

    open spec fn view(&self) -> Event {
        match *self {
            TraceEvent::SyscallEnter { event_id, tid, number, args } => Event::SyscallEnter {
                event_id,
                tid,
                number,
                args: args@,
            },
            TraceEvent::SyscallExit { event_id, tid, number, result } => Event::SyscallExit {
                event_id,
                tid,
                number,
                result,
            },
            TraceEvent::KernelMemoryWrite {
                event_id,
                tid,
                source_event_id,
                recorded_address,
                data,
            } => Event::KernelMemoryWrite {
                event_id,
                tid,
                source_event_id,
                recorded_address,
                data: data@,
            },
            TraceEvent::MemoryMapSnapshot { event_id, tid, regions } => Event::MemoryMapSnapshot {
                event_id,
                tid,
                regions: crate::maps::region_views(regions@),
            },
            TraceEvent::MemoryMapAdd { event_id, tid, source_event_id, region } =>
                Event::MemoryMapAdd { event_id, tid, source_event_id, region: region@ },
            TraceEvent::MemoryMapRemove { event_id, tid, source_event_id, region } =>
                Event::MemoryMapRemove { event_id, tid, source_event_id, region: region@ },
            TraceEvent::SignalDelivery {
                event_id,
                tid,
                signal_number,
                si_errno,
                si_code,
                siginfo_bytes,
            } => Event::SignalDelivery {
                event_id,
                tid,
                signal_number,
                si_errno,
                si_code,
                siginfo_bytes: siginfo_bytes@,
            },
        }
    }
}

pub open spec fn event_views(s: Seq<TraceEvent>) -> Seq<Event> {
    Seq::new(s.len(), |i: int| s[i]@)
}

fn regions_equal(a: &[MemoryRegion], b: &[MemoryRegion]) -> (r: bool)
    ensures
        r == (crate::maps::region_views(a@) == crate::maps::region_views(b@)),
{
    let ghost va = crate::maps::region_views(a@);
    let ghost vb = crate::maps::region_views(b@);
    if a.len() != b.len() {
        assert(va.len() != vb.len());
        return false;
    }
    let mut i: usize = 0;
    while i < a.len()
        invariant
            i <= a@.len() == b@.len(),
            va == crate::maps::region_views(a@),
            vb == crate::maps::region_views(b@),
            forall|k: int| 0 <= k < i ==> #[trigger] va[k] == vb[k],
        decreases a.len() - i,
    {
        if a[i] != b[i] {
            assert(va[i as int] != vb[i as int]);
            return false;
        }
        i += 1;
    }
    assert(va =~= vb);
    true
}

fn args_equal(a: &[u64; 6], b: &[u64; 6]) -> (r: bool)
    ensures
        r == (a@ == b@),
{
    let r = a[0] == b[0] && a[1] == b[1] && a[2] == b[2] && a[3] == b[3] && a[4] == b[4] && a[5]
        == b[5];
    assert(r ==> a@ =~= b@);
    r
}

fn copy_all(v: &Vec<u8>) -> (out: Vec<u8>)
    ensures
        out@ == v@,
{
    let out = copy_range(v.as_slice(), 0, v.len());
    assert(out@ =~= v@);
    out
}

impl Clone for TraceEvent {
    fn clone(&self) -> (r: TraceEvent)
        ensures
            r@ == self@,
    {
        match self {
            TraceEvent::SyscallEnter { event_id, tid, number, args } => TraceEvent::SyscallEnter {
                event_id: *event_id,
                tid: *tid,
                number: *number,
                args: *args,
            },
            TraceEvent::SyscallExit { event_id, tid, number, result } => TraceEvent::SyscallExit {
                event_id: *event_id,
                tid: *tid,
                number: *number,
                result: *result,
            },
            TraceEvent::KernelMemoryWrite {
                event_id,
                tid,
                source_event_id,
                recorded_address,
                data,
            } => TraceEvent::KernelMemoryWrite {
                event_id: *event_id,
                tid: *tid,
                source_event_id: *source_event_id,
                recorded_address: *recorded_address,
                data: copy_all(data),
            },
            TraceEvent::MemoryMapSnapshot { event_id, tid, regions } =>
                TraceEvent::MemoryMapSnapshot {
                event_id: *event_id,
                tid: *tid,
                regions: copy_regions(regions.as_slice()),
            },
            TraceEvent::MemoryMapAdd { event_id, tid, source_event_id, region } =>
                TraceEvent::MemoryMapAdd {
                event_id: *event_id,
                tid: *tid,
                source_event_id: *source_event_id,
                region: region.clone(),
            },
            TraceEvent::MemoryMapRemove { event_id, tid, source_event_id, region } =>
                TraceEvent::MemoryMapRemove {
                event_id: *event_id,
                tid: *tid,
                source_event_id: *source_event_id,
                region: region.clone(),
            },
            TraceEvent::SignalDelivery {
                event_id,
                tid,
                signal_number,
                si_errno,
                si_code,
                siginfo_bytes,
            } => TraceEvent::SignalDelivery {
                event_id: *event_id,
                tid: *tid,
                signal_number: *signal_number,
                si_errno: *si_errno,
                si_code: *si_code,
                siginfo_bytes: copy_all(siginfo_bytes),
            },
        }
    }
}

impl PartialEq for TraceEvent {
    fn eq(&self, other: &TraceEvent) -> (r: bool) {
        match (self, other) {
            (
                TraceEvent::SyscallEnter { event_id, tid, number, args },
                TraceEvent::SyscallEnter {
                    event_id: other_id,
                    tid: other_tid,
                    number: other_number,
                    args: other_args,
                },
            ) => *event_id == *other_id && *tid == *other_tid && *number == *other_number
                && args_equal(args, other_args),
            (
                TraceEvent::SyscallExit { event_id, tid, number, result },
                TraceEvent::SyscallExit {
                    event_id: other_id,
                    tid: other_tid,
                    number: other_number,
                    result: other_result,
                },
            ) => *event_id == *other_id && *tid == *other_tid && *number == *other_number
                && *result == *other_result,
            (
                TraceEvent::KernelMemoryWrite {
                    event_id,
                    tid,
                    source_event_id,
                    recorded_address,
                    data,
                },
                TraceEvent::KernelMemoryWrite {
                    event_id: other_id,
                    tid: other_tid,
                    source_event_id: other_source,
                    recorded_address: other_address,
                    data: other_data,
                },
            ) => *event_id == *other_id && *tid == *other_tid && *source_event_id == *other_source
                && *recorded_address == *other_address && bytes_equal(
                data.as_slice(),
                other_data.as_slice(),
            ),
            (
                TraceEvent::MemoryMapSnapshot { event_id, tid, regions },
                TraceEvent::MemoryMapSnapshot {
                    event_id: other_id,
                    tid: other_tid,
                    regions: other_regions,
                },
            ) => *event_id == *other_id && *tid == *other_tid && regions_equal(
                regions.as_slice(),
                other_regions.as_slice(),
            ),
            (
                TraceEvent::MemoryMapAdd { event_id, tid, source_event_id, region },
                TraceEvent::MemoryMapAdd {
                    event_id: other_id,
                    tid: other_tid,
                    source_event_id: other_source,
                    region: other_region,
                },
            ) => *event_id == *other_id && *tid == *other_tid && *source_event_id == *other_source
                && *region == *other_region,
            (
                TraceEvent::MemoryMapRemove { event_id, tid, source_event_id, region },
                TraceEvent::MemoryMapRemove {
                    event_id: other_id,
                    tid: other_tid,
                    source_event_id: other_source,
                    region: other_region,
                },
            ) => *event_id == *other_id && *tid == *other_tid && *source_event_id == *other_source
                && *region == *other_region,
            (
                TraceEvent::SignalDelivery {
                    event_id,
                    tid,
                    signal_number,
                    si_errno,
                    si_code,
                    siginfo_bytes,
                },
                TraceEvent::SignalDelivery {
                    event_id: other_id,
                    tid: other_tid,
                    signal_number: other_signal,
                    si_errno: other_errno,
                    si_code: other_code,
                    siginfo_bytes: other_bytes,
                },
            ) => *event_id == *other_id && *tid == *other_tid && *signal_number == *other_signal
                && *si_errno == *other_errno && *si_code == *other_code && bytes_equal(
                siginfo_bytes.as_slice(),
                other_bytes.as_slice(),
            ),
            _ => false,
        }
    }
}

impl vstd::std_specs::cmp::PartialEqSpecImpl for TraceEvent {
    open spec fn obeys_eq_spec() -> bool {
        true
    }

    open spec fn eq_spec(&self, other: &TraceEvent) -> bool {
        self@ == other@
    }
}

impl TraceEvent {
    pub fn event_id(&self) -> (id: u64)
        ensures
            id == self@.id(),
    {
        match self {
            TraceEvent::SyscallEnter { event_id, .. } => *event_id,
            TraceEvent::SyscallExit { event_id, .. } => *event_id,
            TraceEvent::KernelMemoryWrite { event_id, .. } => *event_id,
            TraceEvent::MemoryMapSnapshot { event_id, .. } => *event_id,
            TraceEvent::MemoryMapAdd { event_id, .. } => *event_id,
            TraceEvent::MemoryMapRemove { event_id, .. } => *event_id,
            TraceEvent::SignalDelivery { event_id, .. } => *event_id,
        }
    }

    pub fn tid(&self) -> (id: u32)
        ensures
            id == self@.thread(),
    {
        match self {
            TraceEvent::SyscallEnter { tid, .. } => *tid,
            TraceEvent::SyscallExit { tid, .. } => *tid,
            TraceEvent::KernelMemoryWrite { tid, .. } => *tid,
            TraceEvent::MemoryMapSnapshot { tid, .. } => *tid,
            TraceEvent::MemoryMapAdd { tid, .. } => *tid,
            TraceEvent::MemoryMapRemove { tid, .. } => *tid,
            TraceEvent::SignalDelivery { tid, .. } => *tid,
        }
    }

    pub fn syscall_number(&self) -> (n: Option<u64>)
        ensures
            n == self@.number(),
    {
        match self {
            TraceEvent::SyscallEnter { number, .. } => Some(*number),
            TraceEvent::SyscallExit { number, .. } => Some(*number),
            TraceEvent::KernelMemoryWrite { .. } => None,
            TraceEvent::MemoryMapSnapshot { .. } => None,
            TraceEvent::MemoryMapAdd { .. } => None,
            TraceEvent::MemoryMapRemove { .. } => None,
            TraceEvent::SignalDelivery { .. } => None,
        }
    }
}

/// The mathematical value of a [`ParsedTrace`].
#[verifier::ext_equal]
pub struct Trace {
    pub version: u32,
    pub events: Seq<Event>,
}

/// A trace: its format version and its events.
#[derive(Debug, Eq)]
pub struct ParsedTrace {
    pub version: u32,
    pub events: Vec<TraceEvent>,
}

impl View for ParsedTrace {
    type V = Trace;

    open spec fn view(&self) -> Trace {
        Trace { version: self.version, events: event_views(self.events@) }
    }
}

impl Clone for ParsedTrace {
    fn clone(&self) -> (r: ParsedTrace)
        ensures
            r@ == self@,
    {
        let mut events: Vec<TraceEvent> = Vec::new();
        let mut i: usize = 0;
        while i < self.events.len()
            invariant
                i <= self.events@.len(),
                events@.len() == i,
                forall|k: int| 0 <= k < i ==> (#[trigger] events@[k])@ == self.events@[k]@,
            decreases self.events.len() - i,
        {
            events.push(self.events[i].clone());
            i += 1;
        }
        assert(event_views(events@) =~= event_views(self.events@));
        ParsedTrace { version: self.version, events }
    }
}

impl PartialEq for ParsedTrace {
    fn eq(&self, other: &ParsedTrace) -> (r: bool) {
        if self.version != other.version {
            return false;
        }
        let ghost va = self@.events;
        let ghost vb = other@.events;
        if self.events.len() != other.events.len() {
            assert(va.len() != vb.len());
            return false;
        }
        let mut i: usize = 0;
        while i < self.events.len()
            invariant
                i <= self.events@.len() == other.events@.len(),
                va == event_views(self.events@),
                vb == event_views(other.events@),
                forall|k: int| 0 <= k < i ==> #[trigger] va[k] == vb[k],
            decreases self.events.len() - i,
        {
            if self.events[i] != other.events[i] {
                assert(va[i as int] != vb[i as int]);
                return false;
            }
            i += 1;
        }
        assert(va =~= vb);
        true
    }
}

impl vstd::std_specs::cmp::PartialEqSpecImpl for ParsedTrace {
    open spec fn obeys_eq_spec() -> bool {
        true
    }

    open spec fn eq_spec(&self, other: &ParsedTrace) -> bool {
        self@ == other@
    }
}

impl std::ops::Deref for ParsedTrace {
    type Target = [TraceEvent];

    fn deref(&self) -> (s: &[TraceEvent])
        ensures
            s@ == self.events@,
    {
        self.events.as_slice()
    }
}

/// The syscalls whose results come out of the trace during replay.
pub open spec fn substituted(number: u64) -> bool {
    number == SYS_GETPID_X86_64 || number == SYS_READ_X86_64
}

/// The syscalls that can change the memory map.
pub open spec fn mapping(number: u64) -> bool {
    number == SYS_MMAP_X86_64 || number == SYS_MPROTECT_X86_64 || number == SYS_MUNMAP_X86_64
        || number == SYS_BRK_X86_64
}

/// Tells whether replay takes the result of the syscall out of the trace.
pub fn is_substituted_syscall(number: u64) -> (r: bool)
    ensures
        r == substituted(number),
{
    number == SYS_GETPID_X86_64 || number == SYS_READ_X86_64
}

pub open spec fn substituted_name(number: u64) -> Seq<char> {
    if number == SYS_GETPID_X86_64 {
        "SYS_getpid"@
    } else {
        "SYS_read"@
    }
}

/// The name of a substituted syscall.
pub fn substituted_syscall_name(number: u64) -> (s: &'static str)
    requires
        substituted(number),
    ensures
        s@ == substituted_name(number),
{
    if number == SYS_GETPID_X86_64 {
        "SYS_getpid"
    } else {
        "SYS_read"
    }
}

/// Tells whether the syscall can change the memory map.
pub fn is_mapping_syscall(number: u64) -> (r: bool)
    ensures
        r == mapping(number),
{
    number == SYS_MMAP_X86_64 || number == SYS_MPROTECT_X86_64 || number == SYS_MUNMAP_X86_64
        || number == SYS_BRK_X86_64
}

} // verus!
