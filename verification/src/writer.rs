//! Encoding of events into the byte format.
use vstd::prelude::*;
use vstd::string::*;
use crate::bytes::{push_bytes, push_i32, push_i64, push_len, push_u32, push_u64};
use crate::descriptor::encode_region_descriptor;
use crate::maps::{MemoryRegion, Region};
use crate::text::Line;
use crate::trace::{
    ARCH_X86_64, BYTE_ORDER_LITTLE_ENDIAN, EVENT_KIND_KERNEL_MEMORY_WRITE,
    EVENT_KIND_MEMORY_MAP_ADD, EVENT_KIND_MEMORY_MAP_REMOVE, EVENT_KIND_MEMORY_MAP_SNAPSHOT,
    EVENT_KIND_SIGNAL_DELIVERY, EVENT_KIND_SYSCALL_ENTER, EVENT_KIND_SYSCALL_EXIT, Event,
    POINTER_WIDTH_64, RECORD_LEN_SYSCALL_ENTER, RECORD_LEN_SYSCALL_EXIT, SIGINFO_SIZE_X86_64,
    TRACE_FOOTER_MAGIC, TRACE_HEADER_MAGIC, TRACE_VERSION_1, TRACE_VERSION_2, TRACE_VERSION_3,
    TRACE_VERSION_4,
};

verus! {

/// How far the writing of a trace has come.
#[verifier::ext_equal]
pub struct Progress {
    pub version: u32,
    pub event_count: u64,
    pub finished: bool,
}

/// Why `e` cannot be written as the next event.
pub open spec fn refusal(p: Progress, e: Event) -> Option<Seq<char>> {
    if p.finished {
        Some("cannot write event to finished trace writer"@)
    } else {
        match e {
            Event::SyscallEnter { .. } => None,
            Event::SyscallExit { .. } => None,
            Event::KernelMemoryWrite { data, .. } => if p.version < TRACE_VERSION_2 {
                Some("cannot write KernelMemoryWrite in trace format V1"@)
            } else if data.len() > u32::MAX {
                Some("data length exceeds u32::MAX"@)
            } else if 40 + data.len() > u32::MAX {
                Some("record length overflow in KernelMemoryWrite"@)
            } else {
                None
            },
            Event::MemoryMapSnapshot { regions, .. } => if p.version < TRACE_VERSION_3 {
                Some("cannot write MemoryMapSnapshot in trace format V1 or V2"@)
            } else if regions.len() > u32::MAX {
                Some("region count exceeds u32::MAX"@)
            } else if 24 + crate::wire::descriptors(regions).len() > u32::MAX {
                Some("record length overflow in MemoryMapSnapshot"@)
            } else {
                None
            },
            Event::MemoryMapAdd { region, .. } => if p.version < TRACE_VERSION_3 {
                Some("cannot write MemoryMapAdd in trace format V1 or V2"@)
            } else if 24 + crate::descriptor::descriptor(region).len() > u32::MAX {
                Some("record length overflow in MemoryMapAdd"@)
            } else {
                None
            },
            Event::MemoryMapRemove { region, .. } => if p.version < TRACE_VERSION_3 {
                Some("cannot write MemoryMapRemove in trace format V1 or V2"@)
            } else if 24 + crate::descriptor::descriptor(region).len() > u32::MAX {
                Some("record length overflow in MemoryMapRemove"@)
            } else {
                None
            },
            Event::SignalDelivery { siginfo_bytes, .. } => if p.version < TRACE_VERSION_4 {
                Some("cannot write SignalDelivery in trace format V1, V2, or V3"@)
            } else if siginfo_bytes.len() != SIGINFO_SIZE_X86_64 {
                Some(
                    "invalid siginfo bytes length "@ + crate::text::dec(siginfo_bytes.len() as int)
                        + "; expected 128"@,
                )
            } else {
                None
            },
        }
    }
}

/// What a call that writes `e` does to progress and output, and what it returns.
pub open spec fn write_outcome(
    before: Progress,
    out_before: Seq<u8>,
    e: Event,
    after: Progress,
    out_after: Seq<u8>,
    r: Result<u64, String>,
) -> bool {
    match refusal(before, e) {
        Some(text) => {
            &&& r is Err
            &&& r->Err_0@ == text
            &&& after == before
            &&& out_after == out_before
        },
        None => {
            &&& r == Ok::<u64, String>(e.id())
            &&& after == (Progress { event_count: (before.event_count + 1) as u64, ..before })
            &&& out_after == out_before + crate::wire::record(e)
        },
    }
}

/// What a call that ends the trace does: the footer is appended, once.
pub open spec fn finish_outcome(
    before: Progress,
    out_before: Seq<u8>,
    after: Progress,
    out_after: Seq<u8>,
) -> bool {
    &&& after == (Progress { finished: true, ..before })
    &&& out_after == if before.finished {
        out_before
    } else {
        out_before + crate::wire::footer(before.event_count as nat)
    }
}

/// Encodes events, each behind the ones before it.
#[derive(Debug)]
pub struct TraceEncoder {
    version: u32,
    event_count: u64,
    finished: bool,
}

impl View for TraceEncoder {
    type V = Progress;

    closed spec fn view(&self) -> Progress {
        Progress {
            version: self.version,
            event_count: self.event_count,
            finished: self.finished,
        }
    }
}

fn finished_error<T>() -> (r: Result<T, String>)
    ensures
        r is Err,
        r->Err_0@ == "cannot write event to finished trace writer"@,
{
    Err(Line::new("cannot write event to finished trace writer").done())
}

/// Appends the four bytes of kind and reserved zeros, the event id and the thread id.
fn push_event_header(out: &mut Vec<u8>, kind: u8, event_id: u64, tid: u32)
    ensures
        final(out)@ == old(out)@ + (seq![kind, 0u8, 0u8, 0u8] + crate::bytes::le_bytes(
            event_id as nat,
            8,
        ) + crate::bytes::le_bytes(tid as nat, 4)),
{
    let ghost before = out@;
    out.push(kind);
    out.push(0);
    out.push(0);
    out.push(0);
    push_u64(out, event_id);
    push_u32(out, tid);
    proof {
        assert(out@ =~= before + (seq![kind, 0u8, 0u8, 0u8] + crate::bytes::le_bytes(
            event_id as nat,
            8,
        ) + crate::bytes::le_bytes(tid as nat, 4)));
    }
}

impl TraceEncoder {
    #[verifier::type_invariant]
    spec fn known_version(self) -> bool {
        1 <= self.version <= 4
    }

    /// Starts a trace: appends the header to `out`.
    pub fn start(out: &mut Vec<u8>, version: u32) -> (r: Result<TraceEncoder, String>)
        ensures
            if 1 <= version <= 4 {
                &&& r is Ok
                &&& r->Ok_0@ == (Progress { version, event_count: 0, finished: false })
                &&& final(out)@ == old(out)@ + crate::wire::header(version)
            } else {
                &&& r is Err
                &&& r->Err_0@ == "unsupported writer trace version: "@ + crate::text::dec(
                    version as int,
                )
                &&& final(out)@ == old(out)@
            },
    {
        if version != TRACE_VERSION_1 && version != TRACE_VERSION_2 && version != TRACE_VERSION_3
            && version != TRACE_VERSION_4 {
            return Err(Line::new("unsupported writer trace version: ").dec(version as u64).done());
        }
        let ghost before = out@;
        push_bytes(out, TRACE_HEADER_MAGIC.as_slice());
        push_u32(out, version);
        let ghost versioned = out@;
        out.push((ARCH_X86_64 % 256) as u8);
        out.push((ARCH_X86_64 / 256) as u8);
        out.push(BYTE_ORDER_LITTLE_ENDIAN);
        out.push(POINTER_WIDTH_64);
        proof {
            reveal_with_fuel(crate::bytes::le_bytes, 3);
            let arch = crate::bytes::le_bytes(ARCH_X86_64 as nat, 2);
            assert(arch =~= seq![1u8, 0u8]);
            assert(out@ =~= versioned + arch + seq![BYTE_ORDER_LITTLE_ENDIAN, POINTER_WIDTH_64]);
            assert(out@ =~= before + crate::wire::header(version));
        }
        Ok(TraceEncoder { version, event_count: 0, finished: false })
    }

    pub fn version(&self) -> (v: u32)
        ensures
            v == self@.version,
            1 <= v <= 4,
    {
        proof {
            use_type_invariant(self);
        }
        self.version
    }

    pub fn event_count(&self) -> (n: u64)
        ensures
            n == self@.event_count,
    {
        self.event_count
    }

    pub fn syscall_enter(
        &mut self,
        out: &mut Vec<u8>,
        tid: u32,
        number: u64,
        args: [u64; 6],
    ) -> (r: Result<u64, String>)
        requires
            old(self)@.event_count < u64::MAX - 1,
        ensures
            write_outcome(
                old(self)@,
                old(out)@,
                Event::SyscallEnter {
                    event_id: (old(self)@.event_count + 1) as u64,
                    tid,
                    number,
                    args: args@,
                },
                final(self)@,
                final(out)@,
                r,
            ),
    {
        if self.finished {
            return finished_error();
        }
        proof {
            use_type_invariant(&*self);
        }
        let event_id: u64 = self.event_count + 1;
        let ghost before = out@;
        let ghost e = Event::SyscallEnter { event_id, tid, number, args: args@ };
        push_u32(out, RECORD_LEN_SYSCALL_ENTER);
        push_event_header(out, EVENT_KIND_SYSCALL_ENTER, event_id, tid);
        push_u64(out, number);
        push_u64(out, args[0]);
        push_u64(out, args[1]);
        push_u64(out, args[2]);
        push_u64(out, args[3]);
        push_u64(out, args[4]);
        push_u64(out, args[5]);
        proof {
            crate::wire::lemma_body_len(e);
            assert(out@ =~= before + crate::wire::record(e));
        }
        self.event_count = event_id;
        Ok(event_id)
    }

    pub fn syscall_exit(&mut self, out: &mut Vec<u8>, tid: u32, number: u64, result: i64) -> (r:
        Result<u64, String>)
        requires
            old(self)@.event_count < u64::MAX - 1,
        ensures
            write_outcome(
                old(self)@,
                old(out)@,
                Event::SyscallExit {
                    event_id: (old(self)@.event_count + 1) as u64,
                    tid,
                    number,
                    result,
                },
                final(self)@,
                final(out)@,
                r,
            ),
    {
        if self.finished {
            return finished_error();
        }
        proof {
            use_type_invariant(&*self);
        }
        let event_id: u64 = self.event_count + 1;
        let ghost before = out@;
        let ghost e = Event::SyscallExit { event_id, tid, number, result };
        push_u32(out, RECORD_LEN_SYSCALL_EXIT);
        push_event_header(out, EVENT_KIND_SYSCALL_EXIT, event_id, tid);
        push_u64(out, number);
        push_i64(out, result);
        proof {
            crate::wire::lemma_body_len(e);
            assert(out@ =~= before + crate::wire::record(e));
        }
        self.event_count = event_id;
        Ok(event_id)
    }

    pub fn kernel_memory_write(
        &mut self,
        out: &mut Vec<u8>,
        tid: u32,
        source_event_id: u64,
        recorded_address: u64,
        data: &[u8],
    ) -> (r: Result<u64, String>)
        requires
            old(self)@.event_count < u64::MAX - 1,
        ensures
            write_outcome(
                old(self)@,
                old(out)@,
                Event::KernelMemoryWrite {
                    event_id: (old(self)@.event_count + 1) as u64,
                    tid,
                    source_event_id,
                    recorded_address,
                    data: data@,
                },
                final(self)@,
                final(out)@,
                r,
            ),
    {
        if self.finished {
            return finished_error();
        }
        if self.version < TRACE_VERSION_2 {
            return Err(Line::new("cannot write KernelMemoryWrite in trace format V1").done());
        }
        if data.len() as u64 > u32::MAX as u64 {
            return Err(Line::new("data length exceeds u32::MAX").done());
        }
        let data_len: u32 = data.len() as u32;
        if data_len > u32::MAX - 40 {
            return Err(Line::new("record length overflow in KernelMemoryWrite").done());
        }
        proof {
            use_type_invariant(&*self);
        }
        let event_id: u64 = self.event_count + 1;
        let ghost before = out@;
        let ghost e = Event::KernelMemoryWrite {
            event_id,
            tid,
            source_event_id,
            recorded_address,
            data: data@,
        };
        push_u32(out, 40 + data_len);
        push_event_header(out, EVENT_KIND_KERNEL_MEMORY_WRITE, event_id, tid);
        push_u64(out, source_event_id);
        push_u64(out, recorded_address);
        push_u32(out, data_len);
        push_u32(out, 0);
        push_bytes(out, data);
        proof {
            crate::wire::lemma_body_len(e);
            assert(out@ =~= before + crate::wire::record(e));
        }
        self.event_count = event_id;
        Ok(event_id)
    }

    pub fn memory_map_snapshot(&mut self, out: &mut Vec<u8>, tid: u32, regions: &[MemoryRegion]) -> (r:
        Result<u64, String>)
        requires
            old(self)@.event_count < u64::MAX - 1,
        ensures
            write_outcome(
                old(self)@,
                old(out)@,
                Event::MemoryMapSnapshot {
                    event_id: (old(self)@.event_count + 1) as u64,
                    tid,
                    regions: crate::maps::region_views(regions@),
                },
                final(self)@,
                final(out)@,
                r,
            ),
    {
        if self.finished {
            return finished_error();
        }
        if self.version < TRACE_VERSION_3 {
            return Err(
                Line::new("cannot write MemoryMapSnapshot in trace format V1 or V2").done(),
            );
        }
        let ghost views = crate::maps::region_views(regions@);
        let mut described: Vec<u8> = Vec::new();
        let mut i: usize = 0;
        proof {
            assert(views.take(0) =~= Seq::<Region>::empty());
        }
        while i < regions.len()
            invariant
                i <= regions@.len(),
                views == crate::maps::region_views(regions@),
                described@ == crate::wire::descriptors(views.take(i as int)),
            decreases regions.len() - i,
        {
            encode_region_descriptor(&regions[i], &mut described);
            proof {
                assert(views.take(i + 1).drop_last() =~= views.take(i as int));
                assert(views.take(i + 1).last() == regions@[i as int]@);
            }
            i += 1;
        }
        proof {
            assert(views.take(i as int) =~= views);
        }
        if regions.len() as u64 > u32::MAX as u64 {
            return Err(Line::new("region count exceeds u32::MAX").done());
        }
        if described.len() as u64 > (u32::MAX - 24) as u64 {
            return Err(Line::new("record length overflow in MemoryMapSnapshot").done());
        }
        let described_len: u32 = described.len() as u32;
        proof {
            use_type_invariant(&*self);
        }
        let event_id: u64 = self.event_count + 1;
        let ghost before = out@;
        let ghost e = Event::MemoryMapSnapshot { event_id, tid, regions: views };
        push_u32(out, 24 + described_len);
        push_event_header(out, EVENT_KIND_MEMORY_MAP_SNAPSHOT, event_id, tid);
        push_len(out, regions.len());
        push_u32(out, 0);
        push_bytes(out, described.as_slice());
        proof {
            crate::wire::lemma_body_len(e);
            assert(out@ =~= before + crate::wire::record(e));
        }
        self.event_count = event_id;
        Ok(event_id)
    }

    pub fn memory_map_add(
        &mut self,
        out: &mut Vec<u8>,
        tid: u32,
        source_event_id: u64,
        region: &MemoryRegion,
    ) -> (r: Result<u64, String>)
        requires
            old(self)@.event_count < u64::MAX - 1,
        ensures
            write_outcome(
                old(self)@,
                old(out)@,
                Event::MemoryMapAdd {
                    event_id: (old(self)@.event_count + 1) as u64,
                    tid,
                    source_event_id,
                    region: region@,
                },
                final(self)@,
                final(out)@,
                r,
            ),
    {
        if self.finished {
            return finished_error();
        }
        if self.version < TRACE_VERSION_3 {
            return Err(Line::new("cannot write MemoryMapAdd in trace format V1 or V2").done());
        }
        let mut described: Vec<u8> = Vec::new();
        encode_region_descriptor(region, &mut described);
        proof {
            assert(described@ =~= crate::descriptor::descriptor(region@));
        }
        if described.len() as u64 > (u32::MAX - 24) as u64 {
            return Err(Line::new("record length overflow in MemoryMapAdd").done());
        }
        let described_len: u32 = described.len() as u32;
        proof {
            use_type_invariant(&*self);
        }
        let event_id: u64 = self.event_count + 1;
        let ghost before = out@;
        let ghost e = Event::MemoryMapAdd { event_id, tid, source_event_id, region: region@ };
        push_u32(out, 24 + described_len);
        push_event_header(out, EVENT_KIND_MEMORY_MAP_ADD, event_id, tid);
        push_u64(out, source_event_id);
        push_bytes(out, described.as_slice());
        proof {
            crate::wire::lemma_body_len(e);
            crate::descriptor::lemma_descriptor_len(region@);
            assert(out@ =~= before + crate::wire::record(e));
        }
        self.event_count = event_id;
        Ok(event_id)
    }

    pub fn memory_map_remove(
        &mut self,
        out: &mut Vec<u8>,
        tid: u32,
        source_event_id: u64,
        region: &MemoryRegion,
    ) -> (r: Result<u64, String>)
        requires
            old(self)@.event_count < u64::MAX - 1,
        ensures
            write_outcome(
                old(self)@,
                old(out)@,
                Event::MemoryMapRemove {
                    event_id: (old(self)@.event_count + 1) as u64,
                    tid,
                    source_event_id,
                    region: region@,
                },
                final(self)@,
                final(out)@,
                r,
            ),
    {
        if self.finished {
            return finished_error();
        }
        if self.version < TRACE_VERSION_3 {
            return Err(Line::new("cannot write MemoryMapRemove in trace format V1 or V2").done());
        }
        let mut described: Vec<u8> = Vec::new();
        encode_region_descriptor(region, &mut described);
        proof {
            assert(described@ =~= crate::descriptor::descriptor(region@));
        }
        if described.len() as u64 > (u32::MAX - 24) as u64 {
            return Err(Line::new("record length overflow in MemoryMapRemove").done());
        }
        let described_len: u32 = described.len() as u32;
        proof {
            use_type_invariant(&*self);
        }
        let event_id: u64 = self.event_count + 1;
        let ghost before = out@;
        let ghost e = Event::MemoryMapRemove { event_id, tid, source_event_id, region: region@ };
        push_u32(out, 24 + described_len);
        push_event_header(out, EVENT_KIND_MEMORY_MAP_REMOVE, event_id, tid);
        push_u64(out, source_event_id);
        push_bytes(out, described.as_slice());
        proof {
            crate::wire::lemma_body_len(e);
            crate::descriptor::lemma_descriptor_len(region@);
            assert(out@ =~= before + crate::wire::record(e));
        }
        self.event_count = event_id;
        Ok(event_id)
    }

    pub fn signal_delivery(
        &mut self,
        out: &mut Vec<u8>,
        tid: u32,
        signal_number: i32,
        si_errno: i32,
        si_code: i32,
        siginfo_bytes: &[u8],
    ) -> (r: Result<u64, String>)
        requires
            old(self)@.event_count < u64::MAX - 1,
        ensures
            write_outcome(
                old(self)@,
                old(out)@,
                Event::SignalDelivery {
                    event_id: (old(self)@.event_count + 1) as u64,
                    tid,
                    signal_number,
                    si_errno,
                    si_code,
                    siginfo_bytes: siginfo_bytes@,
                },
                final(self)@,
                final(out)@,
                r,
            ),
    {
        if self.finished {
            return finished_error();
        }
        if self.version < TRACE_VERSION_4 {
            return Err(
                Line::new("cannot write SignalDelivery in trace format V1, V2, or V3").done(),
            );
        }
        if siginfo_bytes.len() != SIGINFO_SIZE_X86_64 {
            return Err(
                Line::new("invalid siginfo bytes length ").dec(siginfo_bytes.len() as u64).lit(
                    "; expected 128",
                ).done(),
            );
        }
        proof {
            use_type_invariant(&*self);
        }
        let event_id: u64 = self.event_count + 1;
        let ghost before = out@;
        let ghost e = Event::SignalDelivery {
            event_id,
            tid,
            signal_number,
            si_errno,
            si_code,
            siginfo_bytes: siginfo_bytes@,
        };
        push_u32(out, 32 + 128);
        push_event_header(out, EVENT_KIND_SIGNAL_DELIVERY, event_id, tid);
        push_i32(out, signal_number);
        push_i32(out, si_errno);
        push_i32(out, si_code);
        push_u32(out, 128);
        push_bytes(out, siginfo_bytes);
        proof {
            crate::wire::lemma_body_len(e);
            assert(out@ =~= before + crate::wire::record(e));
        }
        self.event_count = event_id;
        Ok(event_id)
    }

    /// Ends the trace: appends the footer, once.
    pub fn finish(&mut self, out: &mut Vec<u8>)
        ensures
            finish_outcome(old(self)@, old(out)@, final(self)@, final(out)@),
    {
        if self.finished {
            return;
        }
        proof {
            use_type_invariant(&*self);
        }
        let ghost before = out@;
        push_u64(out, self.event_count);
        push_bytes(out, TRACE_FOOTER_MAGIC.as_slice());
        proof {
            assert(out@ =~= before + crate::wire::footer(self@.event_count as nat));
        }
        self.finished = true;
    }
}

/// Writes a trace to a buffer: the header at once, then each event, then the footer.
#[derive(Debug)]
pub struct TraceWriter<'a> {
    pub writer: &'a mut Vec<u8>,
    pub encoder: TraceEncoder,
}

impl<'a> TraceWriter<'a> {
    /// Starts a trace in format 4, the format of recordings.
    pub fn new(writer: &'a mut Vec<u8>) -> (r: Result<TraceWriter<'a>, String>)
        ensures
            r is Ok,
            r->Ok_0.encoder@ == (Progress {
                version: TRACE_VERSION_4,
                event_count: 0,
                finished: false,
            }),
            r->Ok_0.writer@ == old(writer)@ + crate::wire::header(TRACE_VERSION_4),
            *final(r->Ok_0.writer) == *final(writer),
    {
        Self::new_v4(writer)
    }

    pub fn new_v1(writer: &'a mut Vec<u8>) -> (r: Result<TraceWriter<'a>, String>)
        ensures
            r is Ok,
            r->Ok_0.encoder@ == (Progress {
                version: TRACE_VERSION_1,
                event_count: 0,
                finished: false,
            }),
            r->Ok_0.writer@ == old(writer)@ + crate::wire::header(TRACE_VERSION_1),
            *final(r->Ok_0.writer) == *final(writer),
    {
        Self::new_with_version(writer, TRACE_VERSION_1)
    }

    pub fn new_v2(writer: &'a mut Vec<u8>) -> (r: Result<TraceWriter<'a>, String>)
        ensures
            r is Ok,
            r->Ok_0.encoder@ == (Progress {
                version: TRACE_VERSION_2,
                event_count: 0,
                finished: false,
            }),
            r->Ok_0.writer@ == old(writer)@ + crate::wire::header(TRACE_VERSION_2),
            *final(r->Ok_0.writer) == *final(writer),
    {
        Self::new_with_version(writer, TRACE_VERSION_2)
    }

    pub fn new_v3(writer: &'a mut Vec<u8>) -> (r: Result<TraceWriter<'a>, String>)
        ensures
            r is Ok,
            r->Ok_0.encoder@ == (Progress {
                version: TRACE_VERSION_3,
                event_count: 0,
                finished: false,
            }),
            r->Ok_0.writer@ == old(writer)@ + crate::wire::header(TRACE_VERSION_3),
            *final(r->Ok_0.writer) == *final(writer),
    {
        Self::new_with_version(writer, TRACE_VERSION_3)
    }

    pub fn new_v4(writer: &'a mut Vec<u8>) -> (r: Result<TraceWriter<'a>, String>)
        ensures
            r is Ok,
            r->Ok_0.encoder@ == (Progress {
                version: TRACE_VERSION_4,
                event_count: 0,
                finished: false,
            }),
            r->Ok_0.writer@ == old(writer)@ + crate::wire::header(TRACE_VERSION_4),
            *final(r->Ok_0.writer) == *final(writer),
    {
        Self::new_with_version(writer, TRACE_VERSION_4)
    }

    /// Starts a trace in the given format; the header is written at once.
    pub fn new_with_version(writer: &'a mut Vec<u8>, version: u32) -> (r: Result<
        TraceWriter<'a>,
        String,
    >)
        ensures
            if 1 <= version <= 4 {
                &&& r is Ok
                &&& r->Ok_0.encoder@ == (Progress { version, event_count: 0, finished: false })
                &&& r->Ok_0.writer@ == old(writer)@ + crate::wire::header(version)
                &&& *final(r->Ok_0.writer) == *final(writer)
            } else {
                &&& r is Err
                &&& r->Err_0@ == "unsupported writer trace version: "@ + crate::text::dec(
                    version as int,
                )
                &&& final(writer)@ == old(writer)@
            },
    {
        match TraceEncoder::start(writer, version) {
            Ok(encoder) => Ok(TraceWriter { writer, encoder }),
            Err(text) => Err(text),
        }
    }

    pub fn version(&self) -> (v: u32)
        ensures
            v == self.encoder@.version,
            1 <= v <= 4,
    {
        self.encoder.version()
    }

    /// Writes the entry of a syscall; the result is the event's id.
    pub fn write_syscall_enter(&mut self, tid: u32, number: u64, args: [u64; 6]) -> (r: Result<
        u64,
        String,
    >)
        requires
            old(self).encoder@.event_count < u64::MAX - 1,
        ensures
            write_outcome(
                old(self).encoder@,
                old(self).writer@,
                Event::SyscallEnter {
                    event_id: (old(self).encoder@.event_count + 1) as u64,
                    tid,
                    number,
                    args: args@,
                },
                final(self).encoder@,
                final(self).writer@,
                r,
            ),
            *final(final(self).writer) == *final(old(self).writer),
    {
        self.encoder.syscall_enter(self.writer, tid, number, args)
    }

    /// Writes the exit of a syscall; the result is the event's id.
    pub fn write_syscall_exit(&mut self, tid: u32, number: u64, result: i64) -> (r: Result<
        u64,
        String,
    >)
        requires
            old(self).encoder@.event_count < u64::MAX - 1,
        ensures
            write_outcome(
                old(self).encoder@,
                old(self).writer@,
                Event::SyscallExit {
                    event_id: (old(self).encoder@.event_count + 1) as u64,
                    tid,
                    number,
                    result,
                },
                final(self).encoder@,
                final(self).writer@,
                r,
            ),
            *final(final(self).writer) == *final(old(self).writer),
    {
        self.encoder.syscall_exit(self.writer, tid, number, result)
    }

    /// Writes what the kernel put into the process's memory; the result is the event's id.
    pub fn write_kernel_memory_write(
        &mut self,
        tid: u32,
        source_event_id: u64,
        recorded_address: u64,
        data: &[u8],
    ) -> (r: Result<u64, String>)
        requires
            old(self).encoder@.event_count < u64::MAX - 1,
        ensures
            write_outcome(
                old(self).encoder@,
                old(self).writer@,
                Event::KernelMemoryWrite {
                    event_id: (old(self).encoder@.event_count + 1) as u64,
                    tid,
                    source_event_id,
                    recorded_address,
                    data: data@,
                },
                final(self).encoder@,
                final(self).writer@,
                r,
            ),
            *final(final(self).writer) == *final(old(self).writer),
    {
        self.encoder.kernel_memory_write(self.writer, tid, source_event_id, recorded_address, data)
    }

    /// Writes the whole memory map; the result is the event's id.
    pub fn write_memory_map_snapshot(&mut self, tid: u32, regions: &[MemoryRegion]) -> (r: Result<
        u64,
        String,
    >)
        requires
            old(self).encoder@.event_count < u64::MAX - 1,
        ensures
            write_outcome(
                old(self).encoder@,
                old(self).writer@,
                Event::MemoryMapSnapshot {
                    event_id: (old(self).encoder@.event_count + 1) as u64,
                    tid,
                    regions: crate::maps::region_views(regions@),
                },
                final(self).encoder@,
                final(self).writer@,
                r,
            ),
            *final(final(self).writer) == *final(old(self).writer),
    {
        self.encoder.memory_map_snapshot(self.writer, tid, regions)
    }

    /// Writes a region that appeared; the result is the event's id.
    pub fn write_memory_map_add(&mut self, tid: u32, source_event_id: u64, region: &MemoryRegion) -> (r:
        Result<u64, String>)
        requires
            old(self).encoder@.event_count < u64::MAX - 1,
        ensures
            write_outcome(
                old(self).encoder@,
                old(self).writer@,
                Event::MemoryMapAdd {
                    event_id: (old(self).encoder@.event_count + 1) as u64,
                    tid,
                    source_event_id,
                    region: region@,
                },
                final(self).encoder@,
                final(self).writer@,
                r,
            ),
            *final(final(self).writer) == *final(old(self).writer),
    {
        self.encoder.memory_map_add(self.writer, tid, source_event_id, region)
    }

    /// Writes a region that went away; the result is the event's id.
    pub fn write_memory_map_remove(
        &mut self,
        tid: u32,
        source_event_id: u64,
        region: &MemoryRegion,
    ) -> (r: Result<u64, String>)
        requires
            old(self).encoder@.event_count < u64::MAX - 1,
        ensures
            write_outcome(
                old(self).encoder@,
                old(self).writer@,
                Event::MemoryMapRemove {
                    event_id: (old(self).encoder@.event_count + 1) as u64,
                    tid,
                    source_event_id,
                    region: region@,
                },
                final(self).encoder@,
                final(self).writer@,
                r,
            ),
            *final(final(self).writer) == *final(old(self).writer),
    {
        self.encoder.memory_map_remove(self.writer, tid, source_event_id, region)
    }

    /// Writes the delivery of a signal; the result is the event's id.
    pub fn write_signal_delivery(
        &mut self,
        tid: u32,
        signal_number: i32,
        si_errno: i32,
        si_code: i32,
        siginfo_bytes: &[u8],
    ) -> (r: Result<u64, String>)
        requires
            old(self).encoder@.event_count < u64::MAX - 1,
        ensures
            write_outcome(
                old(self).encoder@,
                old(self).writer@,
                Event::SignalDelivery {
                    event_id: (old(self).encoder@.event_count + 1) as u64,
                    tid,
                    signal_number,
                    si_errno,
                    si_code,
                    siginfo_bytes: siginfo_bytes@,
                },
                final(self).encoder@,
                final(self).writer@,
                r,
            ),
            *final(final(self).writer) == *final(old(self).writer),
    {
        self.encoder.signal_delivery(
            self.writer,
            tid,
            signal_number,
            si_errno,
            si_code,
            siginfo_bytes,
        )
    }

    /// Writes the footer; a second call changes nothing.
    pub fn finish(&mut self) -> (r: Result<(), String>)
        ensures
            r is Ok,
            finish_outcome(
                old(self).encoder@,
                old(self).writer@,
                final(self).encoder@,
                final(self).writer@,
            ),
            *final(final(self).writer) == *final(old(self).writer),
    {
        self.encoder.finish(self.writer);
        Ok(())
    }
}

} // verus!
