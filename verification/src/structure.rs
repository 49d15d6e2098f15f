//! Which sequences of events make a trace: syscalls come in pairs, data follows the read that
//! produced it, and map deltas follow the mapping syscall that caused them and fit the map.
use vstd::prelude::*;
use vstd::string::*;
use std::collections::HashMap;
use crate::maps::{MemoryRegion, Region};
use crate::model::{MemoryMapModel, copy_regions};
use crate::text::Line;
use crate::trace::{
    Event, SYS_READ_X86_64, TRACE_VERSION_2, TRACE_VERSION_3, TraceEvent, is_mapping_syscall,
};

verus! {

/// A syscall that a thread entered and has not left: its number, second and third argument.
#[derive(Clone, Copy)]
pub struct OpenCall {
    pub number: u64,
    pub address: u64,
    pub count: u64,
}

/// The exit of a read that returned data which the trace has still to hold.
#[derive(Clone, Copy)]
pub struct ReadExit {
    pub tid: u32,
    pub result: i64,
    pub event_id: u64,
    pub address: u64,
}

/// The exit of a syscall.
#[derive(Clone, Copy)]
pub struct CallExit {
    pub event_id: u64,
    pub number: u64,
}

/// What the events so far leave open.
#[verifier::ext_equal]
pub struct Scan {
    /// The syscalls that are entered and not left, by thread.
    pub open: Map<u32, OpenCall>,
    pub read: Option<ReadExit>,
    /// The memory map, once a snapshot was seen.
    pub model: Option<Seq<Region>>,
    /// The exit that the last delta belongs to, and whether a region was added for it.
    pub group: Option<(u64, bool)>,
    /// The exit that deltas may follow.
    pub last_exit: Option<CallExit>,
}

pub open spec fn scan_start() -> Scan {
    Scan { open: Map::empty(), read: None, model: None, group: None, last_exit: None }
}

pub open spec fn missing_data(exit_id: u64) -> Seq<char> {
    "positive SYS_read at exit event "@ + crate::text::dec(exit_id as int)
        + " missing required KernelMemoryWrite event"@
}

pub open spec fn missing_snapshot(version: u32) -> Seq<char> {
    "V"@ + crate::text::dec(version as int)
        + " trace is missing required initial MemoryMapSnapshot event"@
}

pub open spec fn scan_snapshot(
    version: u32,
    index: int,
    s: Scan,
    event_id: u64,
    regions: Seq<Region>,
) -> Result<Scan, Seq<char>> {
    if version < TRACE_VERSION_3 {
        Err("MemoryMapSnapshot event in trace format V"@ + crate::text::dec(version as int))
    } else if s.model is Some {
        Err(
            "duplicate MemoryMapSnapshot event "@ + crate::text::dec(event_id as int)
                + " in V3 trace"@,
        )
    } else if index != 0 {
        Err(
            "MemoryMapSnapshot event "@ + crate::text::dec(event_id as int)
                + " must be the first event in a V3 trace"@,
        )
    } else {
        match crate::maps::order_complaint(regions) {
            Some(text) => Err(text),
            None => Ok(Scan { model: Some(regions), last_exit: None, ..s }),
        }
    }
}

/// A format-3 trace begins with a snapshot. A later trace may go without one as long as
/// nothing in it refers to the memory map.
pub open spec fn scan_enter(
    version: u32,
    s: Scan,
    event_id: u64,
    tid: u32,
    number: u64,
    args: Seq<u64>,
) -> Result<Scan, Seq<char>> {
    if version == TRACE_VERSION_3 && s.model is None {
        Err(
            "V3 trace missing initial MemoryMapSnapshot before SyscallEnter event "@
                + crate::text::dec(event_id as int),
        )
    } else if s.read is Some && version >= TRACE_VERSION_2 {
        Err(missing_data(s.read->0.event_id))
    } else if s.open.contains_key(tid) {
        Err(
            "structural pairing error at event "@ + crate::text::dec(event_id as int)
                + ": SyscallEnter nr="@ + crate::text::dec(number as int) + " on tid "@
                + crate::text::dec(tid as int) + " while previous nr="@ + crate::text::dec(
                s.open[tid].number as int,
            ) + " is pending"@,
        )
    } else {
        Ok(
            Scan {
                open: s.open.insert(tid, OpenCall { number, address: args[1], count: args[2] }),
                read: None,
                group: None,
                last_exit: None,
                ..s
            },
        )
    }
}

pub open spec fn scan_exit(
    version: u32,
    s: Scan,
    event_id: u64,
    tid: u32,
    number: u64,
    result: i64,
) -> Result<Scan, Seq<char>> {
    if s.read is Some && version >= TRACE_VERSION_2 {
        Err(missing_data(s.read->0.event_id))
    } else if !s.open.contains_key(tid) {
        Err(
            "structural pairing error at event "@ + crate::text::dec(event_id as int)
                + ": SyscallExit nr="@ + crate::text::dec(number as int) + " on tid "@
                + crate::text::dec(tid as int) + " with no pending SyscallEnter"@,
        )
    } else if s.open[tid].number != number {
        Err(
            "structural pairing error at event "@ + crate::text::dec(event_id as int)
                + ": SyscallExit nr="@ + crate::text::dec(number as int) + " on tid "@
                + crate::text::dec(tid as int) + " does not match pending nr="@ + crate::text::dec(
                s.open[tid].number as int,
            ),
        )
    } else if number == SYS_READ_X86_64 && result > 0 && result > s.open[tid].count {
        Err(
            "trace event "@ + crate::text::dec(event_id as int) + ": SYS_read result "@
                + crate::text::dec(result as int) + " exceeds requested count "@ + crate::text::dec(
                s.open[tid].count as int,
            ),
        )
    } else {
        Ok(
            Scan {
                open: s.open.remove(tid),
                read: if number == SYS_READ_X86_64 && result > 0 {
                    Some(ReadExit { tid, result, event_id, address: s.open[tid].address })
                } else {
                    None
                },
                group: None,
                last_exit: Some(CallExit { event_id, number }),
                ..s
            },
        )
    }
}

/// Why data that no read awaits is out of place, by the event before it.
pub open spec fn stray_data(es: Seq<Event>, event_id: u64, source_event_id: u64) -> Seq<char> {
    let head = "trace event "@ + crate::text::dec(event_id as int);
    let plain = head
        + ": KernelMemoryWrite does not immediately follow a positive SYS_read exit"@;
    if event_id <= 1 || event_id - 2 >= es.len() {
        plain
    } else {
        match es[event_id - 2] {
            Event::SyscallEnter { .. } => head + ": KernelMemoryWrite source_event_id "@
                + crate::text::dec(source_event_id as int)
                + " points to a SyscallEnter, expected SyscallExit"@,
            Event::SyscallExit { event_id: prev_id, number, result, .. } => if number
                != SYS_READ_X86_64 {
                head + ": KernelMemoryWrite attached to SyscallExit nr="@ + crate::text::dec(
                    number as int,
                ) + ", expected SYS_read (0)"@
            } else if result == 0 {
                head + ": KernelMemoryWrite attached to zero-result read exit event "@
                    + crate::text::dec(prev_id as int)
            } else if result < 0 {
                head + ": KernelMemoryWrite attached to failed read exit event "@
                    + crate::text::dec(prev_id as int) + " (result="@ + crate::text::dec(
                    result as int,
                ) + ")"@
            } else {
                plain
            },
            _ => plain,
        }
    }
}

pub open spec fn scan_data(
    es: Seq<Event>,
    s: Scan,
    event_id: u64,
    tid: u32,
    source_event_id: u64,
    recorded_address: u64,
    data: Seq<u8>,
) -> Result<Scan, Seq<char>> {
    let head = "trace event "@ + crate::text::dec(event_id as int);
    match s.read {
        None => Err(stray_data(es, event_id, source_event_id)),
        Some(read) => if read.tid != tid {
            Err(
                head + ": KernelMemoryWrite tid "@ + crate::text::dec(tid as int)
                    + " does not match source exit tid "@ + crate::text::dec(read.tid as int),
            )
        } else if source_event_id != read.event_id {
            Err(
                head + ": KernelMemoryWrite source_event_id "@ + crate::text::dec(
                    source_event_id as int,
                ) + " does not match immediately preceding exit event "@ + crate::text::dec(
                    read.event_id as int,
                ),
            )
        } else if data.len() != read.result {
            Err(
                head + ": KernelMemoryWrite data length "@ + crate::text::dec(data.len() as int)
                    + " does not match read result "@ + crate::text::dec(read.result as int),
            )
        } else if recorded_address != read.address {
            Err(
                head + ": KernelMemoryWrite recorded_address 0x"@ + crate::text::hex(
                    recorded_address as int,
                ) + " does not match read entry buffer address 0x"@ + crate::text::hex(
                    read.address as int,
                ),
            )
        } else {
            Ok(Scan { read: None, ..s })
        },
    }
}

/// What is wrong with where a map delta stands.
pub open spec fn misplaced_delta(
    s: Scan,
    event_id: u64,
    source_event_id: u64,
    name: Seq<char>,
) -> Option<Seq<char>> {
    let head = "trace event "@ + crate::text::dec(event_id as int) + ": "@ + name;
    if s.last_exit is None || s.last_exit->0.event_id != source_event_id {
        Some(
            head + " source_event_id "@ + crate::text::dec(source_event_id as int)
                + " is not contiguous with triggering SyscallExit"@,
        )
    } else if !crate::trace::mapping(s.last_exit->0.number) {
        Some(
            head + " sourced by non-mapping syscall nr="@ + crate::text::dec(
                s.last_exit->0.number as int,
            ),
        )
    } else {
        None
    }
}

pub open spec fn scan_remove(
    version: u32,
    s: Scan,
    event_id: u64,
    source_event_id: u64,
    region: Region,
) -> Result<Scan, Seq<char>> {
    match misplaced_delta(s, event_id, source_event_id, "MemoryMapRemove"@) {
        Some(text) => Err(text),
        None => if s.group == Some((source_event_id, true)) {
            Err(
                "trace event "@ + crate::text::dec(event_id as int)
                    + ": MemoryMapRemove emitted after MemoryMapAdd for source event "@
                    + crate::text::dec(source_event_id as int),
            )
        } else {
            match s.model {
                None => if version >= TRACE_VERSION_3 {
                    Err(missing_snapshot(version))
                } else {
                    Ok(Scan { group: Some((source_event_id, false)), ..s })
                },
                Some(model) => match crate::model::removed(model, region) {
                    Err(text) => Err(text),
                    Ok(next) => Ok(
                        Scan { group: Some((source_event_id, false)), model: Some(next), ..s },
                    ),
                },
            }
        },
    }
}

pub open spec fn scan_add(
    version: u32,
    s: Scan,
    event_id: u64,
    source_event_id: u64,
    region: Region,
) -> Result<Scan, Seq<char>> {
    match misplaced_delta(s, event_id, source_event_id, "MemoryMapAdd"@) {
        Some(text) => Err(text),
        None => match s.model {
            None => if version >= TRACE_VERSION_3 {
                Err(missing_snapshot(version))
            } else {
                Ok(Scan { group: Some((source_event_id, true)), ..s })
            },
            Some(model) => match crate::model::added(model, region) {
                Err(text) => Err(text),
                Ok(next) => Ok(
                    Scan { group: Some((source_event_id, true)), model: Some(next), ..s },
                ),
            },
        },
    }
}

/// A signal breaks the adjacency of a read and its data, and of a syscall and its deltas.
pub open spec fn scan_signal(version: u32, s: Scan, event_id: u64, signal_number: i32) -> Result<
    Scan,
    Seq<char>,
> {
    if version >= TRACE_VERSION_3 && s.model is None {
        Err(
            "V"@ + crate::text::dec(version as int)
                + " trace missing initial MemoryMapSnapshot before SignalDelivery event "@
                + crate::text::dec(event_id as int),
        )
    } else if signal_number <= 0 || signal_number > 64 {
        Err(
            "trace event "@ + crate::text::dec(event_id as int) + ": invalid signal number "@
                + crate::text::dec(signal_number as int),
        )
    } else if s.read is Some && version >= TRACE_VERSION_2 {
        Err(
            "SignalDelivery event "@ + crate::text::dec(event_id as int)
                + " interposes before required KernelMemoryWrite for positive SYS_read exit "@
                + crate::text::dec(s.read->0.event_id as int),
        )
    } else {
        Ok(Scan { read: None, group: None, last_exit: None, ..s })
    }
}

/// Takes the event at `index` into account.
pub open spec fn scan_step(version: u32, es: Seq<Event>, index: int, s: Scan) -> Result<
    Scan,
    Seq<char>,
> {
    match es[index] {
        Event::MemoryMapSnapshot { event_id, regions, .. } => scan_snapshot(
            version,
            index,
            s,
            event_id,
            regions,
        ),
        Event::SyscallEnter { event_id, tid, number, args } => scan_enter(
            version,
            s,
            event_id,
            tid,
            number,
            args,
        ),
        Event::SyscallExit { event_id, tid, number, result } => scan_exit(
            version,
            s,
            event_id,
            tid,
            number,
            result,
        ),
        Event::KernelMemoryWrite { event_id, tid, source_event_id, recorded_address, data } =>
            scan_data(es, s, event_id, tid, source_event_id, recorded_address, data),
        Event::MemoryMapRemove { event_id, source_event_id, region, .. } => scan_remove(
            version,
            s,
            event_id,
            source_event_id,
            region,
        ),
        Event::MemoryMapAdd { event_id, source_event_id, region, .. } => scan_add(
            version,
            s,
            event_id,
            source_event_id,
            region,
        ),
        Event::SignalDelivery { event_id, signal_number, .. } => scan_signal(
            version,
            s,
            event_id,
            signal_number,
        ),
    }
}

/// What the events from `index` on lead to.
pub open spec fn scan_from(version: u32, es: Seq<Event>, index: int, s: Scan) -> Result<
    Scan,
    Seq<char>,
>
    decreases es.len() - index,
{
    if index < 0 || index >= es.len() {
        Ok(s)
    } else {
        match scan_step(version, es, index, s) {
            Err(text) => Err(text),
            Ok(next) => scan_from(version, es, index + 1, next),
        }
    }
}

/// What is missing where the events end.
pub open spec fn end_complaint(version: u32, s: Scan) -> Option<Seq<char>> {
    if version == TRACE_VERSION_3 && s.model is None {
        Some(missing_snapshot(version))
    } else if s.read is Some && version >= TRACE_VERSION_2 {
        Some(
            "positive SYS_read at exit event "@ + crate::text::dec(s.read->0.event_id as int)
                + " at end of trace missing required KernelMemoryWrite event"@,
        )
    } else {
        None
    }
}

/// What is wrong with a sequence of events that is not a trace.
pub open spec fn structure_complaint(version: u32, es: Seq<Event>) -> Option<Seq<char>> {
    match scan_from(version, es, 0, scan_start()) {
        Err(text) => Some(text),
        Ok(s) => end_complaint(version, s),
    }
}

/// Scanning more events goes on where scanning the first ones stopped.
pub proof fn lemma_scan_extend(version: u32, es: Seq<Event>, more: Seq<Event>, i: int, s: Scan)
    requires
        0 <= i <= es.len(),
        scan_from(version, es, i, s) is Ok,
    ensures
        scan_from(version, es + more, i, s) == scan_from(
            version,
            es + more,
            es.len() as int,
            scan_from(version, es, i, s)->Ok_0,
        ),
    decreases es.len() - i,
{
    if i < es.len() {
        assert((es + more)[i] == es[i]);
        let next = scan_step(version, es, i, s);
        assert(next is Ok);
        assert(scan_step(version, es + more, i, s) == next);
        lemma_scan_extend(version, es, more, i + 1, next->Ok_0);
    }
}

/// Where a whole sequence of events scans, its beginning does.
pub proof fn lemma_scan_prefix(version: u32, es: Seq<Event>, more: Seq<Event>, i: int, s: Scan)
    requires
        0 <= i <= es.len(),
        scan_from(version, es + more, i, s) is Ok,
    ensures
        scan_from(version, es, i, s) is Ok,
    decreases es.len() - i,
{
    if i < es.len() {
        assert((es + more)[i] == es[i]);
        let next = scan_step(version, es + more, i, s);
        assert(next is Ok);
        assert(scan_step(version, es, i, s) == next);
        lemma_scan_prefix(version, es, more, i + 1, next->Ok_0);
    }
}

/// The state of a scan.
struct Scanner {
    open: HashMap<u32, OpenCall>,
    read: Option<ReadExit>,
    model: Option<MemoryMapModel>,
    group: Option<(u64, bool)>,
    last_exit: Option<CallExit>,
}

impl View for Scanner {
    type V = Scan;

    closed spec fn view(&self) -> Scan {
        Scan {
            open: self.open@,
            read: self.read,
            model: match self.model {
                None => None,
                Some(m) => Some(m@),
            },
            group: self.group,
            last_exit: self.last_exit,
        }
    }
}

/// The outcome of a scan step.
spec fn step_outcome(expected: Result<Scan, Seq<char>>, after: Scan, r: Result<(), String>) -> bool {
    match expected {
        Ok(s) => r is Ok && after == s,
        Err(text) => r is Err && r->Err_0@ == text,
    }
}

fn missing_data_error(exit_id: u64) -> (r: Result<(), String>)
    ensures
        r is Err,
        r->Err_0@ == missing_data(exit_id),
{
    Err(
        Line::new("positive SYS_read at exit event ").dec(exit_id).lit(
            " missing required KernelMemoryWrite event",
        ).done(),
    )
}

fn missing_snapshot_error(version: u32) -> (r: Result<(), String>)
    ensures
        r is Err,
        r->Err_0@ == missing_snapshot(version),
{
    Err(
        Line::new("V").dec(version as u64).lit(
            " trace is missing required initial MemoryMapSnapshot event",
        ).done(),
    )
}

fn stray_data_error(events: &[TraceEvent], event_id: u64, source_event_id: u64) -> (r: Result<
    (),
    String,
>)
    ensures
        r is Err,
        r->Err_0@ == stray_data(crate::trace::event_views(events@), event_id, source_event_id),
{
    let head = Line::new("trace event ").dec(event_id);
    if event_id > 1 && event_id - 2 < events.len() as u64 {
        let previous = &events[(event_id - 2) as usize];
        assert(crate::trace::event_views(events@)[event_id - 2] == previous@);
        match previous {
            TraceEvent::SyscallEnter { .. } => {
                return Err(
                    head.lit(": KernelMemoryWrite source_event_id ").dec(source_event_id).lit(
                        " points to a SyscallEnter, expected SyscallExit",
                    ).done(),
                );
            },
            TraceEvent::SyscallExit { event_id: prev_id, number, result, .. } => {
                if *number != SYS_READ_X86_64 {
                    return Err(
                        head.lit(": KernelMemoryWrite attached to SyscallExit nr=").dec(
                            *number,
                        ).lit(", expected SYS_read (0)").done(),
                    );
                }
                if *result == 0 {
                    return Err(
                        head.lit(
                            ": KernelMemoryWrite attached to zero-result read exit event ",
                        ).dec(*prev_id).done(),
                    );
                }
                if *result < 0 {
                    return Err(
                        head.lit(": KernelMemoryWrite attached to failed read exit event ").dec(
                            *prev_id,
                        ).lit(" (result=").signed(*result).lit(")").done(),
                    );
                }
            },
            _ => {},
        }
    }
    Err(
        head.lit(
            ": KernelMemoryWrite does not immediately follow a positive SYS_read exit",
        ).done(),
    )
}

impl Scanner {
    fn new() -> (s: Scanner)
        ensures
            s@ == scan_start(),
    {
        Scanner {
            open: HashMap::new(),
            read: None,
            model: None,
            group: None,
            last_exit: None,
        }
    }

    fn snapshot(&mut self, version: u32, index: usize, event_id: u64, regions: &Vec<MemoryRegion>) -> (r:
        Result<(), String>)
        ensures
            step_outcome(
                scan_snapshot(
                    version,
                    index as int,
                    old(self)@,
                    event_id,
                    crate::maps::region_views(regions@),
                ),
                final(self)@,
                r,
            ),
    {
        if version < TRACE_VERSION_3 {
            return Err(
                Line::new("MemoryMapSnapshot event in trace format V").dec(version as u64).done(),
            );
        }
        if self.model.is_some() {
            return Err(
                Line::new("duplicate MemoryMapSnapshot event ").dec(event_id).lit(
                    " in V3 trace",
                ).done(),
            );
        }
        if index != 0 {
            return Err(
                Line::new("MemoryMapSnapshot event ").dec(event_id).lit(
                    " must be the first event in a V3 trace",
                ).done(),
            );
        }
        match MemoryMapModel::from_canonical_regions(copy_regions(regions.as_slice())) {
            Err(text) => Err(text),
            Ok(model) => {
                self.model = Some(model);
                self.last_exit = None;
                Ok(())
            },
        }
    }

    fn enter(&mut self, version: u32, event_id: u64, tid: u32, number: u64, args: &[u64; 6]) -> (r:
        Result<(), String>)
        ensures
            step_outcome(
                scan_enter(version, old(self)@, event_id, tid, number, args@),
                final(self)@,
                r,
            ),
    {
        if version == TRACE_VERSION_3 && self.model.is_none() {
            return Err(
                Line::new(
                    "V3 trace missing initial MemoryMapSnapshot before SyscallEnter event ",
                ).dec(event_id).done(),
            );
        }
        if let Some(read) = self.read {
            if version >= TRACE_VERSION_2 {
                return missing_data_error(read.event_id);
            }
        }
        let call = OpenCall { number, address: args[1], count: args[2] };
        if let Some(previous) = self.open.insert(tid, call) {
            return Err(
                Line::new("structural pairing error at event ").dec(event_id).lit(
                    ": SyscallEnter nr=",
                ).dec(number).lit(" on tid ").dec(tid as u64).lit(" while previous nr=").dec(
                    previous.number,
                ).lit(" is pending").done(),
            );
        }
        self.read = None;
        self.group = None;
        self.last_exit = None;
        Ok(())
    }

    fn exit(&mut self, version: u32, event_id: u64, tid: u32, number: u64, result: i64) -> (r:
        Result<(), String>)
        ensures
            step_outcome(
                scan_exit(version, old(self)@, event_id, tid, number, result),
                final(self)@,
                r,
            ),
    {
        if let Some(read) = self.read {
            if version >= TRACE_VERSION_2 {
                return missing_data_error(read.event_id);
            }
        }
        let call = match self.open.remove(&tid) {
            Some(call) => call,
            None => {
                return Err(
                    Line::new("structural pairing error at event ").dec(event_id).lit(
                        ": SyscallExit nr=",
                    ).dec(number).lit(" on tid ").dec(tid as u64).lit(
                        " with no pending SyscallEnter",
                    ).done(),
                );
            },
        };
        if call.number != number {
            return Err(
                Line::new("structural pairing error at event ").dec(event_id).lit(
                    ": SyscallExit nr=",
                ).dec(number).lit(" on tid ").dec(tid as u64).lit(
                    " does not match pending nr=",
                ).dec(call.number).done(),
            );
        }
        self.read = None;
        if number == SYS_READ_X86_64 && result > 0 {
            if result as u64 > call.count {
                return Err(
                    Line::new("trace event ").dec(event_id).lit(": SYS_read result ").signed(
                        result,
                    ).lit(" exceeds requested count ").dec(call.count).done(),
                );
            }
            self.read = Some(ReadExit { tid, result, event_id, address: call.address });
        }
        self.group = None;
        self.last_exit = Some(CallExit { event_id, number });
        Ok(())
    }

    fn data(
        &mut self,
        events: &[TraceEvent],
        event_id: u64,
        tid: u32,
        source_event_id: u64,
        recorded_address: u64,
        data: &Vec<u8>,
    ) -> (r: Result<(), String>)
        ensures
            step_outcome(
                scan_data(
                    crate::trace::event_views(events@),
                    old(self)@,
                    event_id,
                    tid,
                    source_event_id,
                    recorded_address,
                    data@,
                ),
                final(self)@,
                r,
            ),
    {
        let read = match self.read {
            None => {
                return stray_data_error(events, event_id, source_event_id);
            },
            Some(read) => read,
        };
        let head = Line::new("trace event ").dec(event_id);
        if read.tid != tid {
            return Err(
                head.lit(": KernelMemoryWrite tid ").dec(tid as u64).lit(
                    " does not match source exit tid ",
                ).dec(read.tid as u64).done(),
            );
        }
        if source_event_id != read.event_id {
            return Err(
                head.lit(": KernelMemoryWrite source_event_id ").dec(source_event_id).lit(
                    " does not match immediately preceding exit event ",
                ).dec(read.event_id).done(),
            );
        }
        if read.result < 0 || data.len() as u64 != read.result as u64 {
            return Err(
                head.lit(": KernelMemoryWrite data length ").dec(data.len() as u64).lit(
                    " does not match read result ",
                ).signed(read.result).done(),
            );
        }
        if recorded_address != read.address {
            return Err(
                head.lit(": KernelMemoryWrite recorded_address 0x").hex(recorded_address).lit(
                    " does not match read entry buffer address 0x",
                ).hex(read.address).done(),
            );
        }
        self.read = None;
        Ok(())
    }

    /// Checks where a map delta called `name` stands.
    fn delta_place(&self, event_id: u64, source_event_id: u64, name: &str) -> (r: Result<
        (),
        String,
    >)
        ensures
            match misplaced_delta(self@, event_id, source_event_id, name@) {
                None => r is Ok,
                Some(text) => r is Err && r->Err_0@ == text,
            },
    {
        let head = Line::new("trace event ").dec(event_id).lit(": ").lit(name);
        let number: u64 = match self.last_exit {
            Some(exit) if exit.event_id == source_event_id => exit.number,
            _ => {
                return Err(
                    head.lit(" source_event_id ").dec(source_event_id).lit(
                        " is not contiguous with triggering SyscallExit",
                    ).done(),
                );
            },
        };
        if !is_mapping_syscall(number) {
            return Err(head.lit(" sourced by non-mapping syscall nr=").dec(number).done());
        }
        Ok(())
    }

    fn remove(&mut self, version: u32, event_id: u64, source_event_id: u64, region: &MemoryRegion) -> (r:
        Result<(), String>)
        ensures
            step_outcome(
                scan_remove(version, old(self)@, event_id, source_event_id, region@),
                final(self)@,
                r,
            ),
    {
        match self.delta_place(event_id, source_event_id, "MemoryMapRemove") {
            Err(text) => {
                return Err(text);
            },
            Ok(_) => {},
        }
        if let Some((group_source, seen_add)) = self.group {
            if group_source == source_event_id && seen_add {
                return Err(
                    Line::new("trace event ").dec(event_id).lit(
                        ": MemoryMapRemove emitted after MemoryMapAdd for source event ",
                    ).dec(source_event_id).done(),
                );
            }
        }
        match self.model.take() {
            None => {
                if version >= TRACE_VERSION_3 {
                    return missing_snapshot_error(version);
                }
            },
            Some(m) => {
                let mut model = m;
                match model.apply_remove(region) {
                    Err(text) => {
                        return Err(text);
                    },
                    Ok(_) => {},
                }
                self.model = Some(model);
            },
        }
        self.group = Some((source_event_id, false));
        Ok(())
    }

    fn insert(&mut self, version: u32, event_id: u64, source_event_id: u64, region: &MemoryRegion) -> (r:
        Result<(), String>)
        ensures
            step_outcome(
                scan_add(version, old(self)@, event_id, source_event_id, region@),
                final(self)@,
                r,
            ),
    {
        match self.delta_place(event_id, source_event_id, "MemoryMapAdd") {
            Err(text) => {
                return Err(text);
            },
            Ok(_) => {},
        }
        match self.model.take() {
            None => {
                if version >= TRACE_VERSION_3 {
                    return missing_snapshot_error(version);
                }
            },
            Some(m) => {
                let mut model = m;
                match model.apply_add(region.clone()) {
                    Err(text) => {
                        return Err(text);
                    },
                    Ok(_) => {},
                }
                self.model = Some(model);
            },
        }
        self.group = Some((source_event_id, true));
        Ok(())
    }

    fn signal(&mut self, version: u32, event_id: u64, signal_number: i32) -> (r: Result<
        (),
        String,
    >)
        ensures
            step_outcome(
                scan_signal(version, old(self)@, event_id, signal_number),
                final(self)@,
                r,
            ),
    {
        if version >= TRACE_VERSION_3 && self.model.is_none() {
            return Err(
                Line::new("V").dec(version as u64).lit(
                    " trace missing initial MemoryMapSnapshot before SignalDelivery event ",
                ).dec(event_id).done(),
            );
        }
        if signal_number <= 0 || signal_number > 64 {
            return Err(
                Line::new("trace event ").dec(event_id).lit(": invalid signal number ").signed(
                    signal_number as i64,
                ).done(),
            );
        }
        if let Some(read) = self.read {
            if version >= TRACE_VERSION_2 {
                return Err(
                    Line::new("SignalDelivery event ").dec(event_id).lit(
                        " interposes before required KernelMemoryWrite for positive SYS_read exit ",
                    ).dec(read.event_id).done(),
                );
            }
        }
        self.read = None;
        self.group = None;
        self.last_exit = None;
        Ok(())
    }

    fn step(&mut self, version: u32, events: &[TraceEvent], index: usize) -> (r: Result<
        (),
        String,
    >)
        requires
            index < events@.len(),
        ensures
            step_outcome(
                scan_step(
                    version,
                    crate::trace::event_views(events@),
                    index as int,
                    old(self)@,
                ),
                final(self)@,
                r,
            ),
    {
        let event = &events[index];
        assert(crate::trace::event_views(events@)[index as int] == event@);
        match event {
            TraceEvent::MemoryMapSnapshot { event_id, regions, .. } => self.snapshot(
                version,
                index,
                *event_id,
                regions,
            ),
            TraceEvent::SyscallEnter { event_id, tid, number, args } => self.enter(
                version,
                *event_id,
                *tid,
                *number,
                args,
            ),
            TraceEvent::SyscallExit { event_id, tid, number, result } => self.exit(
                version,
                *event_id,
                *tid,
                *number,
                *result,
            ),
            TraceEvent::KernelMemoryWrite {
                event_id,
                tid,
                source_event_id,
                recorded_address,
                data,
            } => self.data(events, *event_id, *tid, *source_event_id, *recorded_address, data),
            TraceEvent::MemoryMapRemove { event_id, source_event_id, region, .. } => self.remove(
                version,
                *event_id,
                *source_event_id,
                region,
            ),
            TraceEvent::MemoryMapAdd { event_id, source_event_id, region, .. } => self.insert(
                version,
                *event_id,
                *source_event_id,
                region,
            ),
            TraceEvent::SignalDelivery { event_id, signal_number, .. } => self.signal(
                version,
                *event_id,
                *signal_number,
            ),
        }
    }
}

/// Checks that the events make a trace in the given format.
pub fn validate_trace_structure(version: u32, events: &[TraceEvent]) -> (r: Result<(), String>)
    ensures
        match structure_complaint(version, crate::trace::event_views(events@)) {
            None => r is Ok,
            Some(text) => r is Err && r->Err_0@ == text,
        },
{
    let ghost es = crate::trace::event_views(events@);
    let mut scanner = Scanner::new();
    let mut i: usize = 0;
    while i < events.len()
        invariant
            i <= events@.len(),
            es == crate::trace::event_views(events@),
            scan_from(version, es, 0, scan_start()) == scan_from(version, es, i as int, scanner@),
        decreases events.len() - i,
    {
        match scanner.step(version, events, i) {
            Err(text) => {
                return Err(text);
            },
            Ok(_) => {},
        }
        i += 1;
    }
    if version == TRACE_VERSION_3 && scanner.model.is_none() {
        return missing_snapshot_error(version);
    }
    if let Some(read) = scanner.read {
        if version >= TRACE_VERSION_2 {
            return Err(
                Line::new("positive SYS_read at exit event ").dec(read.event_id).lit(
                    " at end of trace missing required KernelMemoryWrite event",
                ).done(),
            );
        }
    }
    Ok(())
}

} // verus!
