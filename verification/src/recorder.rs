//! The decisions of a recording: what to do at each stop of the traced process, and which
//! events to write.
use vstd::prelude::*;
use vstd::string::*;
use crate::bytes::to_unsigned32;
use crate::maps::{MemoryRegion, Region};
use crate::model::MemoryMapModel;
use crate::proc_maps::parse_proc_maps_bytes;
use crate::signals::{
    SYSCALL_STOP, append_unsupported_code, is_process_signal, is_stopping_signal,
    read_signal_fields,
};
use crate::status::{WaitStatus, decode_status};
use crate::text::Line;
use crate::trace::{
    Event, SIGINFO_SIZE_X86_64, SYS_BRK_X86_64, SYS_READ_X86_64, TRACE_VERSION_3,
    is_mapping_syscall, is_substituted_syscall, substituted_syscall_name,
};
use crate::writer::{Progress, TraceEncoder};

verus! {

/// How a traced process ended.
#[derive(Debug, Clone, Copy, PartialEq, Eq, Structural)]
pub enum TraceeTermination {
    Exited(i32),
    Signaled(i32),
}

/// A syscall that the traced process entered and has not left.
#[derive(Debug, Clone, Copy, PartialEq, Eq)]
pub struct PendingSyscall {
    pub tid: i32,
    pub number: u64,
    pub args: [u64; 6],
}

/// What the kernel tells about a syscall stop.
#[derive(Debug, Clone, Copy)]
pub enum SyscallInfo {
    Entry { number: u64, args: [u64; 6] },
    Exit { result: i64, is_error: u8 },
    Seccomp { number: u64 },
    Nothing,
    Unknown { op: u8 },
}

/// What happened, or the answer to the last question.
#[derive(Debug)]
pub enum RecordInput {
    /// A wait returned this status.
    Status(i32),
    Syscall(SyscallInfo),
    /// The raw `siginfo_t` of a signal stop.
    Signal(Vec<u8>),
    /// The map listing of the process.
    Maps(Vec<u8>),
    /// The bytes read from the process.
    Memory(Vec<u8>),
}

/// What to do next.
#[derive(Debug, PartialEq, Eq)]
pub enum RecordCommand {
    Print(String),
    QuerySyscall,
    QuerySignal,
    ReadMaps,
    ReadMemory { address: u64, len: u64 },
    /// Let the process run to its next stop, delivering this signal if it is not zero.
    Resume(i32),
    Done(TraceeTermination),
}

/// The mathematical value of a [`RecordInput`].
pub enum Report {
    Status(i32),
    Syscall(SyscallInfo),
    Signal(Seq<u8>),
    Maps(Seq<u8>),
    Memory(Seq<u8>),
}

/// The mathematical value of a [`RecordCommand`].
#[verifier::ext_equal]
pub enum Order {
    Print(Seq<char>),
    QuerySyscall,
    QuerySignal,
    ReadMaps,
    ReadMemory { address: u64, len: u64 },
    Resume(i32),
    Done(TraceeTermination),
}

impl View for RecordInput {
    type V = Report;

    open spec fn view(&self) -> Report {
        match *self {
            RecordInput::Status(status) => Report::Status(status),
            RecordInput::Syscall(info) => Report::Syscall(info),
            RecordInput::Signal(bytes) => Report::Signal(bytes@),
            RecordInput::Maps(bytes) => Report::Maps(bytes@),
            RecordInput::Memory(bytes) => Report::Memory(bytes@),
        }
    }
}

impl View for RecordCommand {
    type V = Order;

    open spec fn view(&self) -> Order {
        match *self {
            RecordCommand::Print(s) => Order::Print(s@),
            RecordCommand::QuerySyscall => Order::QuerySyscall,
            RecordCommand::QuerySignal => Order::QuerySignal,
            RecordCommand::ReadMaps => Order::ReadMaps,
            RecordCommand::ReadMemory { address, len } => Order::ReadMemory { address, len },
            RecordCommand::Resume(signal) => Order::Resume(signal),
            RecordCommand::Done(end) => Order::Done(end),
        }
    }
}

pub open spec fn orders(s: Seq<RecordCommand>) -> Seq<Order> {
    Seq::new(s.len(), |i: int| s[i]@)
}

/// What the recorder waits for.
#[derive(Debug, Clone, Copy, PartialEq, Eq, Structural)]
pub enum Phase {
    /// The next stop of the process.
    Running,
    /// What the syscall stop with this wait status is about.
    SyscallStop { status: i32 },
    /// The siginfo of a stop with this signal.
    SignalStop { signal: i32 },
    /// The first map listing.
    FirstMaps,
    /// The data that a read put into memory.
    ReadData { exit_id: u64, address: u64, len: u64 },
    /// The map listing after a mapping syscall.
    FreshMaps { exit_id: u64, number: u64, result: i64 },
    /// Nothing; the process is gone.
    Ended,
}

/// The state of a recording.
#[verifier::ext_equal]
pub struct Recording {
    pub pid: i32,
    /// How far the trace is written, if one is.
    pub progress: Option<Progress>,
    /// The exit from the initial `execve` was seen.
    pub started: bool,
    pub pending: Option<PendingSyscall>,
    /// The substituted syscall that just failed, which a signal may have interrupted.
    pub interrupted: Option<u64>,
    pub model: Option<Seq<Region>>,
    /// The signal delivered at the last stop.
    pub injected: Option<i32>,
    pub phase: Phase,
}

impl Recording {
    pub open spec fn tid(self) -> u32 {
        crate::bytes::unsigned32_of(self.pid)
    }
}

/// The effect of one step: the next state, the events to write, and the commands. The trace
/// ends where the next state is the end.
#[verifier::ext_equal]
pub struct RecordStep {
    pub next: Recording,
    pub events: Seq<Event>,
    pub orders: Seq<Order>,
}

impl RecordStep {
    /// The bytes that the step adds to the trace.
    pub open spec fn output(self) -> Seq<u8> {
        crate::wire::records(self.events) + if self.next.phase == Phase::Ended {
            match self.next.progress {
                Some(p) => crate::wire::footer(p.event_count as nat),
                None => Seq::empty(),
            }
        } else {
            Seq::empty()
        }
    }
}

/// Whether the report is one that the phase waits for.
pub open spec fn expected(phase: Phase, report: Report) -> bool {
    match phase {
        Phase::Running => report is Status,
        Phase::SyscallStop { .. } => report is Syscall,
        Phase::SignalStop { .. } => report is Signal && report->Signal_0.len()
            == SIGINFO_SIZE_X86_64,
        Phase::FirstMaps => report is Maps,
        Phase::ReadData { .. } => report is Memory,
        Phase::FreshMaps { .. } => report is Maps,
        Phase::Ended => false,
    }
}

/// How far the trace is once `e` is written, or why it is not.
pub open spec fn written(p: Progress, e: Event, name: Seq<char>) -> Result<Progress, Seq<char>> {
    if p.event_count >= u64::MAX - 1 {
        Err("trace event ids are exhausted"@)
    } else {
        match crate::writer::refusal(p, e) {
            Some(text) => Err("failed to write "@ + name + " trace event: "@ + text),
            None => Ok(Progress { event_count: (p.event_count + 1) as u64, ..p }),
        }
    }
}

pub open spec fn next_id(p: Progress) -> u64 {
    (p.event_count + 1) as u64
}

pub open spec fn status_step(s: Recording, status: i32) -> Result<RecordStep, Seq<char>> {
    match crate::status::wait_status(status) {
        WaitStatus::Exited(code) => Ok(
            RecordStep {
                next: Recording {
                    progress: ended(s.progress),
                    phase: Phase::Ended,
                    ..s
                },
                events: Seq::empty(),
                orders: seq![
                    Order::Print("child exited with status "@ + crate::text::dec(code as int)),
                    Order::Done(TraceeTermination::Exited(code)),
                ],
            },
        ),
        WaitStatus::Signaled(signal) => if s.progress is Some && s.injected != Some(signal) {
            Err(
                "pid "@ + crate::text::dec(s.pid as int) + " terminated by signal "@
                    + crate::text::dec(signal as int)
                    + " with no preceding recorded/injected signal delivery stop"@,
            )
        } else {
            Ok(
                RecordStep {
                    next: Recording {
                        progress: ended(s.progress),
                        phase: Phase::Ended,
                        ..s
                    },
                    events: Seq::empty(),
                    orders: seq![
                        Order::Print(
                            "child terminated by signal "@ + crate::text::dec(signal as int),
                        ),
                        Order::Done(TraceeTermination::Signaled(signal)),
                    ],
                },
            )
        },
        WaitStatus::Stopped { signal, event } => if event != 0 {
            Err(
                "unexpected ptrace event "@ + crate::text::dec(event as int) + " for pid "@
                    + crate::text::dec(s.pid as int) + ": raw status=0x"@ + crate::text::hex(
                    crate::bytes::unsigned32_of(status) as int,
                ) + ", stop_sig="@ + crate::text::dec(signal as int),
            )
        } else if signal == SYSCALL_STOP {
            Ok(
                RecordStep {
                    next: Recording { injected: None, phase: Phase::SyscallStop { status }, ..s },
                    events: Seq::empty(),
                    orders: seq![Order::QuerySyscall],
                },
            )
        } else {
            Ok(
                RecordStep {
                    next: Recording { phase: Phase::SignalStop { signal }, ..s },
                    events: Seq::empty(),
                    orders: seq![Order::QuerySignal],
                },
            )
        },
        WaitStatus::Other => Err(
            "unexpected wait status 0x"@ + crate::text::hex(
                crate::bytes::unsigned32_of(status) as int,
            ) + " for pid "@ + crate::text::dec(s.pid as int) + ": WIFCONTINUED="@
                + crate::text::truth(status == 0xffff),
        ),
    }
}

pub open spec fn ended(progress: Option<Progress>) -> Option<Progress> {
    match progress {
        None => None,
        Some(p) => Some(Progress { finished: true, ..p }),
    }
}

pub open spec fn entry_step(s: Recording, number: u64, args: Seq<u64>, call: PendingSyscall) -> Result<
    RecordStep,
    Seq<char>,
> {
    if s.pending is Some {
        Err(
            "syscall pairing invariant violation for pid "@ + crate::text::dec(s.pid as int)
                + ": received ENTRY nr="@ + crate::text::dec(number as int)
                + " while previous syscall ENTRY nr="@ + crate::text::dec(
                s.pending->0.number as int,
            ) + " is still pending"@,
        )
    } else {
        let line = "syscall-enter tid="@ + crate::text::dec(s.pid as int) + " nr="@
            + crate::text::dec(number as int) + " args=["@ + crate::text::dec(args[0] as int)
            + ", "@ + crate::text::dec(args[1] as int) + ", "@ + crate::text::dec(args[2] as int)
            + ", "@ + crate::text::dec(args[3] as int) + ", "@ + crate::text::dec(args[4] as int)
            + ", "@ + crate::text::dec(args[5] as int) + "]"@;
        let after = Recording {
            pending: Some(call),
            interrupted: None,
            phase: Phase::Running,
            ..s
        };
        let orders = seq![Order::Print(line), Order::Resume(0)];
        match s.progress {
            None => Ok(RecordStep { next: after, events: Seq::empty(), orders }),
            Some(p) => {
                let e = Event::SyscallEnter { event_id: next_id(p), tid: s.tid(), number, args };
                match written(p, e, "SyscallEnter"@) {
                    Err(text) => Err(text),
                    Ok(q) => Ok(
                        RecordStep {
                            next: Recording { progress: Some(q), ..after },
                            events: seq![e],
                            orders,
                        },
                    ),
                }
            },
        }
    }
}

pub open spec fn exit_step(s: Recording, result: i64, is_error: u8) -> Result<
    RecordStep,
    Seq<char>,
> {
    if !s.started {
        let after = Recording { started: true, ..s };
        match s.progress {
            Some(p) if p.version >= TRACE_VERSION_3 => Ok(
                RecordStep {
                    next: Recording { phase: Phase::FirstMaps, ..after },
                    events: Seq::empty(),
                    orders: seq![Order::ReadMaps],
                },
            ),
            _ => Ok(
                RecordStep {
                    next: Recording { phase: Phase::Running, ..after },
                    events: Seq::empty(),
                    orders: seq![Order::Resume(0)],
                },
            ),
        }
    } else {
        match s.pending {
            None => Err(
                "syscall pairing invariant violation for pid "@ + crate::text::dec(s.pid as int)
                    + ": received unexpected EXIT (rval="@ + crate::text::dec(result as int)
                    + ", is_error="@ + crate::text::dec(is_error as int)
                    + ") with no pending syscall ENTRY"@,
            ),
            Some(call) => {
                let line = Order::Print(
                    "syscall-exit  tid="@ + crate::text::dec(s.pid as int) + " nr="@
                        + crate::text::dec(call.number as int) + " result="@ + crate::text::dec(
                        result as int,
                    ),
                );
                let after = Recording {
                    pending: None,
                    interrupted: if crate::trace::substituted(call.number) && result < 0 {
                        Some(call.number)
                    } else {
                        None
                    },
                    phase: Phase::Running,
                    ..s
                };
                match s.progress {
                    None => Ok(
                        RecordStep {
                            next: after,
                            events: Seq::empty(),
                            orders: seq![line, Order::Resume(0)],
                        },
                    ),
                    Some(p) => {
                        let e = Event::SyscallExit {
                            event_id: next_id(p),
                            tid: s.tid(),
                            number: call.number,
                            result,
                        };
                        match written(p, e, "SyscallExit"@) {
                            Err(text) => Err(text),
                            Ok(q) => exit_request(
                                Recording { progress: Some(q), ..after },
                                e,
                                call,
                                result,
                                line,
                            ),
                        }
                    },
                }
            },
        }
    }
}

/// What the exit of `call`, which event `e` records, asks for.
pub open spec fn exit_request(
    after: Recording,
    e: Event,
    call: PendingSyscall,
    result: i64,
    line: Order,
) -> Result<RecordStep, Seq<char>> {
    if call.number == SYS_READ_X86_64 && result > 0 {
        Ok(
            RecordStep {
                next: Recording {
                    phase: Phase::ReadData {
                        exit_id: e.id(),
                        address: call.args@[1],
                        len: result as u64,
                    },
                    ..after
                },
                events: seq![e],
                orders: seq![
                    line,
                    Order::ReadMemory { address: call.args@[1], len: result as u64 },
                ],
            },
        )
    } else if crate::trace::mapping(call.number) && after.progress->0.version >= TRACE_VERSION_3 {
        Ok(
            RecordStep {
                next: Recording {
                    phase: Phase::FreshMaps { exit_id: e.id(), number: call.number, result },
                    ..after
                },
                events: seq![e],
                orders: seq![line, Order::ReadMaps],
            },
        )
    } else {
        Ok(RecordStep { next: after, events: seq![e], orders: seq![line, Order::Resume(0)] })
    }
}

pub open spec fn syscall_step(s: Recording, status: i32, info: SyscallInfo) -> Result<
    RecordStep,
    Seq<char>,
> {
    match info {
        SyscallInfo::Entry { number, args } => entry_step(
            s,
            number,
            args@,
            PendingSyscall { tid: s.pid, number, args },
        ),
        SyscallInfo::Exit { result, is_error } => exit_step(s, result, is_error),
        SyscallInfo::Seccomp { number } => Err(
            "unsupported seccomp stop for pid "@ + crate::text::dec(s.pid as int) + ": nr="@
                + crate::text::dec(number as int),
        ),
        SyscallInfo::Nothing => Err(
            "tracing invariant violation for pid "@ + crate::text::dec(s.pid as int)
                + ": PTRACE_GET_SYSCALL_INFO returned NONE at syscall stop (status=0x"@
                + crate::text::hex(crate::bytes::unsigned32_of(status) as int) + ")"@,
        ),
        SyscallInfo::Unknown { op } => Err(
            "unexpected ptrace_syscall_info op "@ + crate::text::dec(op as int) + " for pid "@
                + crate::text::dec(s.pid as int),
        ),
    }
}

/// The substituted syscall that a signal now would fall into.
pub open spec fn interposed(s: Recording) -> Option<u64> {
    let number = match s.pending {
        Some(call) => Some(call.number),
        None => s.interrupted,
    };
    match number {
        Some(n) if crate::trace::substituted(n) => Some(n),
        _ => None,
    }
}

pub open spec fn signal_step(s: Recording, signal: i32, info: Seq<u8>) -> Result<
    RecordStep,
    Seq<char>,
> {
    let fields = crate::signals::signal_fields(info);
    let head = "pid "@ + crate::text::dec(s.pid as int) + ": "@;
    if fields.signo != signal {
        Err(
            head + "siginfo si_signo "@ + crate::text::dec(fields.signo as int)
                + " does not match stop signal "@ + crate::text::dec(signal as int),
        )
    } else {
        match s.progress {
            None => Ok(
                RecordStep {
                    next: Recording { phase: Phase::Running, ..s },
                    events: Seq::empty(),
                    orders: seq![Order::Resume(signal)],
                },
            ),
            Some(p) => if crate::signals::stopping(signal) {
                Err(
                    head + "signal "@ + crate::text::dec(signal as int)
                        + " is unsupported in M6 deterministic recording"@,
                )
            } else if !crate::signals::sent_by_process(fields.code) {
                Err(head + crate::signals::unsupported_code_text(signal, fields.code))
            } else if !s.started {
                Err(
                    head + "signal "@ + crate::text::dec(signal as int)
                        + " delivered before initial bootstrap MemoryMapSnapshot"@,
                )
            } else if interposed(s) is Some {
                Err(
                    head + "signal "@ + crate::text::dec(signal as int)
                        + " interposed inside pending "@ + crate::trace::substituted_name(
                        interposed(s)->0,
                    )
                        + "; signal interposition inside substituted SYS_read/SYS_getpid pairs is outside M6 deterministic replay scope"@,
                )
            } else {
                let e = Event::SignalDelivery {
                    event_id: next_id(p),
                    tid: s.tid(),
                    signal_number: signal,
                    si_errno: fields.errno,
                    si_code: fields.code,
                    siginfo_bytes: info,
                };
                match written(p, e, "SignalDelivery"@) {
                    Err(text) => Err(text),
                    Ok(q) => Ok(
                        RecordStep {
                            next: Recording {
                                progress: Some(q),
                                injected: Some(signal),
                                phase: Phase::Running,
                                ..s
                            },
                            events: seq![e],
                            orders: seq![
                                Order::Print(
                                    "signal-delivery tid="@ + crate::text::dec(s.pid as int)
                                        + " sig="@ + crate::text::dec(signal as int) + " code="@
                                        + crate::text::dec(fields.code as int) + " errno="@
                                        + crate::text::dec(fields.errno as int),
                                ),
                                Order::Resume(signal),
                            ],
                        },
                    ),
                }
            },
        }
    }
}

pub open spec fn first_maps_step(s: Recording, listing: Seq<u8>) -> Result<
    RecordStep,
    Seq<char>,
> {
    match crate::proc_maps::listed_map(listing) {
        Err(text) => Err(
            "failed to capture initial process maps for pid "@ + crate::text::dec(s.pid as int)
                + ": "@ + text,
        ),
        Ok(map) => match s.progress {
            None => Ok(
                RecordStep {
                    next: Recording { phase: Phase::Running, ..s },
                    events: Seq::empty(),
                    orders: seq![Order::Resume(0)],
                },
            ),
            Some(p) => {
                let e = Event::MemoryMapSnapshot {
                    event_id: next_id(p),
                    tid: s.tid(),
                    regions: map,
                };
                match written(p, e, "MemoryMapSnapshot"@) {
                    Err(text) => Err(text),
                    Ok(q) => Ok(
                        RecordStep {
                            next: Recording {
                                progress: Some(q),
                                model: Some(map),
                                phase: Phase::Running,
                                ..s
                            },
                            events: seq![e],
                            orders: seq![Order::Resume(0)],
                        },
                    ),
                }
            },
        },
    }
}

pub open spec fn data_step(s: Recording, exit_id: u64, address: u64, len: u64, data: Seq<u8>) -> Result<
    RecordStep,
    Seq<char>,
> {
    if data.len() != len {
        Err(
            "failed to capture read memory output for pid "@ + crate::text::dec(s.pid as int)
                + ": process_vm_readv short transfer for pid "@ + crate::text::dec(s.pid as int)
                + ": requested "@ + crate::text::dec(len as int) + " bytes, read "@
                + crate::text::dec(data.len() as int),
        )
    } else {
        match s.progress {
            None => Ok(
                RecordStep {
                    next: Recording { phase: Phase::Running, ..s },
                    events: Seq::empty(),
                    orders: seq![Order::Resume(0)],
                },
            ),
            Some(p) => {
                let e = Event::KernelMemoryWrite {
                    event_id: next_id(p),
                    tid: s.tid(),
                    source_event_id: exit_id,
                    recorded_address: address,
                    data,
                };
                match written(p, e, "KernelMemoryWrite"@) {
                    Err(text) => Err(text),
                    Ok(q) => Ok(
                        RecordStep {
                            next: Recording { progress: Some(q), phase: Phase::Running, ..s },
                            events: seq![e],
                            orders: seq![Order::Resume(0)],
                        },
                    ),
                }
            },
        }
    }
}

/// The delta events of a syscall: what went away, then what appeared.
pub open spec fn delta_events(
    count: u64,
    tid: u32,
    exit_id: u64,
    removes: Seq<Region>,
    adds: Seq<Region>,
) -> Seq<Event> {
    Seq::new(
        removes.len() + adds.len(),
        |i: int|
            delta_event(
                (count + 1 + i) as u64,
                tid,
                exit_id,
                if i < removes.len() {
                    removes[i]
                } else {
                    adds[i - removes.len()]
                },
                i < removes.len(),
            ),
    )
}

/// The event that says that `region` went away or appeared.
pub open spec fn delta_event(id: u64, tid: u32, source: u64, region: Region, gone: bool) -> Event {
    if gone {
        Event::MemoryMapRemove { event_id: id, tid, source_event_id: source, region }
    } else {
        Event::MemoryMapAdd { event_id: id, tid, source_event_id: source, region }
    }
}

pub open spec fn delta_name(e: Event) -> Seq<char> {
    if e is MemoryMapRemove {
        "MemoryMapRemove"@
    } else {
        "MemoryMapAdd"@
    }
}

/// How far the trace is once the deltas from `i` on are written.
pub open spec fn deltas_written(p: Progress, es: Seq<Event>, i: int) -> Result<Progress, Seq<char>>
    decreases es.len() - i,
{
    if i < 0 || i >= es.len() {
        Ok(p)
    } else {
        match written(p, es[i], delta_name(es[i])) {
            Err(text) => Err(text),
            Ok(q) => deltas_written(q, es, i + 1),
        }
    }
}

/// What is wrong with deltas that do not lead from `model` to `fresh`.
pub open spec fn diff_complaint(
    model: Seq<Region>,
    removes: Seq<Region>,
    adds: Seq<Region>,
    fresh: Seq<Region>,
) -> Option<Seq<char>> {
    match crate::model_laws::removed_all(model, removes) {
        Err(text) => Some("model diff consistency check failed (remove): "@ + text),
        Ok(kept) => match crate::model_laws::added_all(kept, adds) {
            Err(text) => Some("model diff consistency check failed (add): "@ + text),
            Ok(result) => if result != fresh {
                Some(
                    "model diff consistency check failed: reconstructed model does not match fresh observed map"@,
                )
            } else {
                None
            },
        },
    }
}

/// A mapping syscall that failed; `brk` reports failure by its result's value instead.
pub open spec fn failed_mapping(number: u64, result: i64) -> bool {
    number != SYS_BRK_X86_64 && result < 0
}

pub open spec fn fresh_maps_step(
    s: Recording,
    exit_id: u64,
    number: u64,
    result: i64,
    listing: Seq<u8>,
) -> Result<RecordStep, Seq<char>> {
    let resumed = RecordStep {
        next: Recording { phase: Phase::Running, ..s },
        events: Seq::empty(),
        orders: seq![Order::Resume(0)],
    };
    match crate::proc_maps::listed_map(listing) {
        Err(text) => Err(
            "failed to read process maps after syscall nr="@ + crate::text::dec(number as int)
                + " for pid "@ + crate::text::dec(s.pid as int) + ": "@ + text,
        ),
        Ok(fresh) => match (s.model, s.progress) {
            (Some(model), Some(p)) => {
                let removes = crate::model::not_in(model, fresh);
                let adds = crate::model::not_in(fresh, model);
                if failed_mapping(number, result) {
                    if removes.len() > 0 || adds.len() > 0 {
                        Err(
                            "failed mapping syscall nr="@ + crate::text::dec(number as int)
                                + " (rval="@ + crate::text::dec(result as int)
                                + ") produced unexpected map changes"@,
                        )
                    } else {
                        Ok(resumed)
                    }
                } else {
                    let es = delta_events(p.event_count, s.tid(), exit_id, removes, adds);
                    match deltas_written(p, es, 0) {
                        Err(text) => Err(text),
                        Ok(q) => match diff_complaint(model, removes, adds, fresh) {
                            Some(text) => Err(text),
                            None => Ok(
                                RecordStep {
                                    next: Recording {
                                        progress: Some(q),
                                        model: Some(fresh),
                                        ..resumed.next
                                    },
                                    events: es,
                                    ..resumed
                                },
                            ),
                        },
                    }
                }
            },
            _ => Ok(resumed),
        },
    }
}

/// The effect of a report, or what ends the recording.
pub open spec fn record_step(s: Recording, report: Report) -> Result<RecordStep, Seq<char>> {
    if expected(s.phase, report) {
        expected_step(s, report)
    } else {
        Err("report does not fit the state of the recording"@)
    }
}

/// The effect of a report that the phase waits for.
pub open spec fn expected_step(s: Recording, report: Report) -> Result<RecordStep, Seq<char>> {
    match (s.phase, report) {
        (Phase::Running, Report::Status(status)) => status_step(s, status),
        (Phase::SyscallStop { status }, Report::Syscall(info)) => syscall_step(s, status, info),
        (Phase::SignalStop { signal }, Report::Signal(info)) => signal_step(s, signal, info),
        (Phase::FirstMaps, Report::Maps(listing)) => first_maps_step(s, listing),
        (Phase::ReadData { exit_id, address, len }, Report::Memory(data)) => data_step(
            s,
            exit_id,
            address,
            len,
            data,
        ),
        (Phase::FreshMaps { exit_id, number, result }, Report::Maps(listing)) => fresh_maps_step(
            s,
            exit_id,
            number,
            result,
            listing,
        ),
        _ => arbitrary(),
    }
}

/// The outcome of a step. A recording that failed is at its end, and has written nothing in
/// the step that failed.
pub open spec fn record_outcome(
    expected: Result<RecordStep, Seq<char>>,
    after: Recording,
    out_before: Seq<u8>,
    out_after: Seq<u8>,
    r: Result<Vec<RecordCommand>, String>,
) -> bool {
    match expected {
        Err(text) => {
            &&& r is Err
            &&& r->Err_0@ == text
            &&& after.phase == Phase::Ended
            &&& out_after == out_before
        },
        Ok(step) => {
            &&& r is Ok
            &&& orders(r->Ok_0@) == step.orders
            &&& after == step.next
            &&& out_after == out_before + step.output()
        },
    }
}

/// The outcome of a step before a failure has been dealt with: some events of the step may
/// have been written.
spec fn step_outcome(
    expected: Result<RecordStep, Seq<char>>,
    after: Recording,
    out_before: Seq<u8>,
    out_after: Seq<u8>,
    r: Result<Vec<RecordCommand>, String>,
) -> bool {
    match expected {
        Err(text) => r is Err && r->Err_0@ == text && out_before.is_prefix_of(out_after),
        Ok(_) => record_outcome(expected, after, out_before, out_after, r),
    }
}

/// Writing deltas numbers them on and changes nothing else; each fits its record.
pub proof fn lemma_deltas_written(p: Progress, es: Seq<Event>, i: int)
    requires
        0 <= i <= es.len(),
        deltas_written(p, es, i) is Ok,
    ensures
        deltas_written(p, es, i)->Ok_0 == (Progress {
            event_count: (p.event_count + (es.len() - i)) as u64,
            ..p
        }),
        i < es.len() ==> p.event_count + (es.len() - i) <= u64::MAX - 1,
        forall|k: int|
            i <= k < es.len() ==> crate::wire::body(#[trigger] es[k]).len() <= u32::MAX,
    decreases es.len() - i,
{
    if i < es.len() {
        let q = written(p, es[i], delta_name(es[i]))->Ok_0;
        crate::trace_laws::law_accepted_event_fits_its_record(p, es[i]);
        lemma_deltas_written(q, es, i + 1);
    }
}

/// Decides what happens at each stop of a process that is recorded.
pub struct Recorder {
    pid: i32,
    encoder: Option<TraceEncoder>,
    started: bool,
    pending: Option<PendingSyscall>,
    interrupted: Option<u64>,
    model: Option<MemoryMapModel>,
    injected: Option<i32>,
    phase: Phase,
}

impl View for Recorder {
    type V = Recording;

    closed spec fn view(&self) -> Recording {
        Recording {
            pid: self.pid,
            progress: match self.encoder {
                None => None,
                Some(e) => Some(e@),
            },
            started: self.started,
            pending: self.pending,
            interrupted: self.interrupted,
            model: match self.model {
                None => None,
                Some(m) => Some(m@),
            },
            injected: self.injected,
            phase: self.phase,
        }
    }
}

fn one(command: RecordCommand) -> (v: Vec<RecordCommand>)
    ensures
        orders(v@) == seq![command@],
{
    let v = vec![command];
    assert(orders(v@) =~= seq![command@]);
    v
}

fn two(first: RecordCommand, second: RecordCommand) -> (v: Vec<RecordCommand>)
    ensures
        orders(v@) == seq![first@, second@],
{
    let v = vec![first, second];
    assert(orders(v@) =~= seq![first@, second@]);
    v
}

fn write_error(name: &str, text: String) -> (s: String)
    ensures
        s@ == "failed to write "@ + name@ + " trace event: "@ + text@,
{
    Line::new("failed to write ").lit(name).lit(" trace event: ").lit(text.as_str()).done()
}

fn exhausted() -> (s: String)
    ensures
        s@ == "trace event ids are exhausted"@,
{
    Line::new("trace event ids are exhausted").done()
}

proof fn lemma_one_record(e: Event)
    ensures
        crate::wire::records(seq![e]) == crate::wire::record(e),
{
    let s = seq![e];
    assert(s.drop_last() =~= Seq::<Event>::empty());
    assert(crate::wire::records(s.drop_last()) =~= Seq::<u8>::empty());
    assert(crate::wire::records(s) =~= crate::wire::record(e));
}

proof fn lemma_no_output(step: RecordStep)
    requires
        step.events.len() == 0,
        step.next.phase != Phase::Ended || step.next.progress is None,
    ensures
        step.output() == Seq::<u8>::empty(),
{
    assert(crate::wire::records(step.events) =~= Seq::<u8>::empty());
    assert(step.output() =~= Seq::<u8>::empty());
}

proof fn lemma_one_output(step: RecordStep, e: Event)
    requires
        step.events == seq![e],
        step.next.phase != Phase::Ended,
    ensures
        step.output() == crate::wire::record(e),
{
    lemma_one_record(e);
    assert(step.output() =~= crate::wire::record(e));
}

fn unfit() -> (r: Result<Vec<RecordCommand>, String>)
    ensures
        r is Err,
        r->Err_0@ == "report does not fit the state of the recording"@,
{
    Err(Line::new("report does not fit the state of the recording").done())
}

impl Recorder {
    /// A trace is ended only when the process is gone.
    #[verifier::type_invariant]
    spec fn open_until_ended(self) -> bool {
        self.encoder is Some && self.encoder->0@.finished ==> self.phase == Phase::Ended
    }

    fn take_encoder(&mut self) -> (e: Option<TraceEncoder>)
        ensures
            final(self)@ == (Recording { progress: None, ..old(self)@ }),
            old(self)@.progress == (match e {
                None => None,
                Some(encoder) => Some(encoder@),
            }),
            e is Some && e->0@.finished ==> old(self)@.phase == Phase::Ended,
    {
        proof {
            use_type_invariant(&*self);
        }
        let mut encoder: Option<TraceEncoder> = None;
        std::mem::swap(&mut encoder, &mut self.encoder);
        encoder
    }

    fn take_model(&mut self) -> (m: Option<MemoryMapModel>)
        ensures
            final(self)@ == (Recording { model: None, ..old(self)@ }),
            old(self)@.model == (match m {
                None => None,
                Some(model) => Some(model@),
            }),
    {
        proof {
            use_type_invariant(&*self);
        }
        let mut model: Option<MemoryMapModel> = None;
        std::mem::swap(&mut model, &mut self.model);
        model
    }

    /// A recorder of the process `pid`, with the encoder of its trace if one is written.
    pub fn new(pid: i32, encoder: Option<TraceEncoder>) -> (r: Recorder)
        requires
            encoder is Some ==> !encoder->0@.finished,
        ensures
            r@ == (Recording {
                pid,
                progress: match encoder {
                    None => None,
                    Some(e) => Some(e@),
                },
                started: false,
                pending: None,
                interrupted: None,
                model: None,
                injected: None,
                phase: Phase::Running,
            }),
    {
        Recorder {
            pid,
            encoder,
            started: false,
            pending: None,
            interrupted: None,
            model: None,
            injected: None,
            phase: Phase::Running,
        }
    }

    pub fn phase(&self) -> (p: Phase)
        ensures
            p == self@.phase,
    {
        self.phase
    }

    fn end(&mut self, out: &mut Vec<u8>)
        requires
            old(self)@.phase == Phase::Running,
        ensures
            final(self)@ == (Recording {
                progress: ended(old(self)@.progress),
                phase: Phase::Ended,
                ..old(self)@
            }),
            final(out)@ == old(out)@ + match old(self)@.progress {
                None => Seq::empty(),
                Some(p) => crate::wire::footer(p.event_count as nat),
            },
    {
        let ghost before = out@;
        let encoder = self.take_encoder();
        self.phase = Phase::Ended;
        match encoder {
            None => {
                assert(out@ =~= before + Seq::<u8>::empty());
            },
            Some(e) => {
                let mut encoder = e;
                encoder.finish(out);
                self.encoder = Some(encoder);
            },
        }
    }

    fn on_status(&mut self, status: i32, out: &mut Vec<u8>) -> (r: Result<
        Vec<RecordCommand>,
        String,
    >)
        requires
            old(self)@.phase == Phase::Running,
        ensures
            step_outcome(
                status_step(old(self)@, status),
                final(self)@,
                old(out)@,
                final(out)@,
                r,
            ),
    {
        proof {
            use_type_invariant(&*self);
        }
        let ghost s = self@;
        let ghost before = out@;
        let ghost step = status_step(s, status)->Ok_0;
        match decode_status(status) {
            WaitStatus::Exited(code) => {
                self.end(out);
                proof {
                    assert(crate::wire::records(step.events) =~= Seq::<u8>::empty());
                    assert(out@ =~= before + step.output());
                }
                let line = Line::new("child exited with status ").signed(code as i64).done();
                Ok(
                    two(
                        RecordCommand::Print(line),
                        RecordCommand::Done(TraceeTermination::Exited(code)),
                    ),
                )
            },
            WaitStatus::Signaled(signal) => {
                let delivered: bool = match self.injected {
                    Some(last) => last == signal,
                    None => false,
                };
                if self.encoder.is_some() && !delivered {
                    return Err(
                        Line::new("pid ").signed(self.pid as i64).lit(
                            " terminated by signal ",
                        ).signed(signal as i64).lit(
                            " with no preceding recorded/injected signal delivery stop",
                        ).done(),
                    );
                }
                self.end(out);
                proof {
                    assert(crate::wire::records(step.events) =~= Seq::<u8>::empty());
                    assert(out@ =~= before + step.output());
                }
                let line = Line::new("child terminated by signal ").signed(signal as i64).done();
                Ok(
                    two(
                        RecordCommand::Print(line),
                        RecordCommand::Done(TraceeTermination::Signaled(signal)),
                    ),
                )
            },
            WaitStatus::Stopped { signal, event } => {
                if event != 0 {
                    return Err(
                        Line::new("unexpected ptrace event ").dec(event as u64).lit(
                            " for pid ",
                        ).signed(self.pid as i64).lit(": raw status=0x").hex(
                            to_unsigned32(status) as u64,
                        ).lit(", stop_sig=").signed(signal as i64).done(),
                    );
                }
                proof {
                    lemma_no_output(step);
                    assert(before =~= before + step.output());
                }
                if signal == SYSCALL_STOP {
                    self.injected = None;
                    self.phase = Phase::SyscallStop { status };
                    Ok(one(RecordCommand::QuerySyscall))
                } else {
                    self.phase = Phase::SignalStop { signal };
                    Ok(one(RecordCommand::QuerySignal))
                }
            },
            WaitStatus::Other => Err(
                Line::new("unexpected wait status 0x").hex(to_unsigned32(status) as u64).lit(
                    " for pid ",
                ).signed(self.pid as i64).lit(": WIFCONTINUED=").truth(
                    libc::WIFCONTINUED(status),
                ).done(),
            ),
        }
    }

    fn on_entry(&mut self, number: u64, args: [u64; 6], out: &mut Vec<u8>) -> (r: Result<
        Vec<RecordCommand>,
        String,
    >)
        requires
            old(self)@.phase != Phase::Ended,
        ensures
            step_outcome(
                entry_step(
                    old(self)@,
                    number,
                    args@,
                    PendingSyscall { tid: old(self)@.pid, number, args },
                ),
                final(self)@,
                old(out)@,
                final(out)@,
                r,
            ),
    {
        proof {
            use_type_invariant(&*self);
        }
        let ghost s = self@;
        let ghost before = out@;
        if let Some(previous) = self.pending {
            return Err(
                Line::new("syscall pairing invariant violation for pid ").signed(
                    self.pid as i64,
                ).lit(": received ENTRY nr=").dec(number).lit(
                    " while previous syscall ENTRY nr=",
                ).dec(previous.number).lit(" is still pending").done(),
            );
        }
        let call = PendingSyscall { tid: self.pid, number, args };
        let ghost step = entry_step(s, number, args@, call)->Ok_0;
        let line = Line::new("syscall-enter tid=").signed(self.pid as i64).lit(" nr=").dec(
            number,
        ).lit(" args=[").dec(args[0]).lit(", ").dec(args[1]).lit(", ").dec(args[2]).lit(", ").dec(
            args[3],
        ).lit(", ").dec(args[4]).lit(", ").dec(args[5]).lit("]").done();
        match self.take_encoder() {
            None => {
                proof {
                    lemma_no_output(step);
                    assert(before =~= before + step.output());
                }
            },
            Some(e) => {
                let mut encoder = e;
                if encoder.event_count() >= u64::MAX - 1 {
                    return Err(exhausted());
                }
                match encoder.syscall_enter(out, to_unsigned32(self.pid), number, args) {
                    Err(text) => {
                        return Err(write_error("SyscallEnter", text));
                    },
                    Ok(_) => {},
                }
                self.encoder = Some(encoder);
                proof {
                    lemma_one_output(step, step.events[0]);
                }
            },
        }
        self.pending = Some(call);
        self.interrupted = None;
        self.phase = Phase::Running;
        Ok(two(RecordCommand::Print(line), RecordCommand::Resume(0)))
    }

    fn on_exit(&mut self, result: i64, is_error: u8, out: &mut Vec<u8>) -> (r: Result<
        Vec<RecordCommand>,
        String,
    >)
        requires
            old(self)@.phase != Phase::Ended,
        ensures
            step_outcome(
                exit_step(old(self)@, result, is_error),
                final(self)@,
                old(out)@,
                final(out)@,
                r,
            ),
    {
        proof {
            use_type_invariant(&*self);
        }
        let ghost s = self@;
        let ghost before = out@;
        let ghost step = exit_step(s, result, is_error)->Ok_0;
        if !self.started {
            self.started = true;
            let with_maps: bool = match &self.encoder {
                None => false,
                Some(encoder) => encoder.version() >= TRACE_VERSION_3,
            };
            proof {
                lemma_no_output(step);
                assert(before =~= before + step.output());
            }
            if with_maps {
                self.phase = Phase::FirstMaps;
                return Ok(one(RecordCommand::ReadMaps));
            }
            self.phase = Phase::Running;
            return Ok(one(RecordCommand::Resume(0)));
        }
        let call = match self.pending {
            None => {
                return Err(
                    Line::new("syscall pairing invariant violation for pid ").signed(
                        self.pid as i64,
                    ).lit(": received unexpected EXIT (rval=").signed(result).lit(
                        ", is_error=",
                    ).dec(is_error as u64).lit(") with no pending syscall ENTRY").done(),
                );
            },
            Some(call) => call,
        };
        let line = Line::new("syscall-exit  tid=").signed(self.pid as i64).lit(" nr=").dec(
            call.number,
        ).lit(" result=").signed(result).done();
        self.pending = None;
        self.interrupted = if is_substituted_syscall(call.number) && result < 0 {
            Some(call.number)
        } else {
            None
        };
        self.phase = Phase::Running;
        match self.take_encoder() {
            None => {
                proof {
                    lemma_no_output(step);
                    assert(before =~= before + step.output());
                }
                Ok(two(RecordCommand::Print(line), RecordCommand::Resume(0)))
            },
            Some(e) => {
                let mut encoder = e;
                if encoder.event_count() >= u64::MAX - 1 {
                    return Err(exhausted());
                }
                let version: u32 = encoder.version();
                let exit_id: u64 = match encoder.syscall_exit(
                    out,
                    to_unsigned32(self.pid),
                    call.number,
                    result,
                ) {
                    Err(text) => {
                        return Err(write_error("SyscallExit", text));
                    },
                    Ok(id) => id,
                };
                self.encoder = Some(encoder);
                proof {
                    lemma_one_output(step, step.events[0]);
                }
                if call.number == SYS_READ_X86_64 && result > 0 {
                    let address: u64 = call.args[1];
                    let len: u64 = result as u64;
                    self.phase = Phase::ReadData { exit_id, address, len };
                    return Ok(
                        two(RecordCommand::Print(line), RecordCommand::ReadMemory { address, len }),
                    );
                }
                if is_mapping_syscall(call.number) && version >= TRACE_VERSION_3 {
                    self.phase = Phase::FreshMaps { exit_id, number: call.number, result };
                    return Ok(two(RecordCommand::Print(line), RecordCommand::ReadMaps));
                }
                Ok(two(RecordCommand::Print(line), RecordCommand::Resume(0)))
            },
        }
    }

    fn on_syscall(&mut self, status: i32, info: SyscallInfo, out: &mut Vec<u8>) -> (r: Result<
        Vec<RecordCommand>,
        String,
    >)
        requires
            old(self)@.phase != Phase::Ended,
        ensures
            step_outcome(
                syscall_step(old(self)@, status, info),
                final(self)@,
                old(out)@,
                final(out)@,
                r,
            ),
    {
        match info {
            SyscallInfo::Entry { number, args } => self.on_entry(number, args, out),
            SyscallInfo::Exit { result, is_error } => self.on_exit(result, is_error, out),
            SyscallInfo::Seccomp { number } => Err(
                Line::new("unsupported seccomp stop for pid ").signed(self.pid as i64).lit(
                    ": nr=",
                ).dec(number).done(),
            ),
            SyscallInfo::Nothing => Err(
                Line::new("tracing invariant violation for pid ").signed(self.pid as i64).lit(
                    ": PTRACE_GET_SYSCALL_INFO returned NONE at syscall stop (status=0x",
                ).hex(to_unsigned32(status) as u64).lit(")").done(),
            ),
            SyscallInfo::Unknown { op } => Err(
                Line::new("unexpected ptrace_syscall_info op ").dec(op as u64).lit(
                    " for pid ",
                ).signed(self.pid as i64).done(),
            ),
        }
    }

    fn interposed_call(&self) -> (r: Option<u64>)
        ensures
            r == interposed(self@),
    {
        let number: Option<u64> = match self.pending {
            Some(call) => Some(call.number),
            None => self.interrupted,
        };
        match number {
            Some(n) => if is_substituted_syscall(n) {
                Some(n)
            } else {
                None
            },
            None => None,
        }
    }

    fn on_signal(&mut self, signal: i32, info: &Vec<u8>, out: &mut Vec<u8>) -> (r: Result<
        Vec<RecordCommand>,
        String,
    >)
        requires
            old(self)@.phase != Phase::Ended,
            info@.len() == SIGINFO_SIZE_X86_64,
        ensures
            step_outcome(
                signal_step(old(self)@, signal, info@),
                final(self)@,
                old(out)@,
                final(out)@,
                r,
            ),
    {
        proof {
            use_type_invariant(&*self);
        }
        let ghost s = self@;
        let ghost before = out@;
        let ghost step = signal_step(s, signal, info@)->Ok_0;
        let fields = read_signal_fields(info.as_slice());
        let head = Line::new("pid ").signed(self.pid as i64).lit(": ");
        if fields.signo != signal {
            return Err(
                head.lit("siginfo si_signo ").signed(fields.signo as i64).lit(
                    " does not match stop signal ",
                ).signed(signal as i64).done(),
            );
        }
        if self.encoder.is_none() {
            proof {
                lemma_no_output(step);
                assert(before =~= before + step.output());
            }
            self.phase = Phase::Running;
            return Ok(one(RecordCommand::Resume(signal)));
        }
        if is_stopping_signal(signal) {
            return Err(
                head.lit("signal ").signed(signal as i64).lit(
                    " is unsupported in M6 deterministic recording",
                ).done(),
            );
        }
        if !is_process_signal(fields.code) {
            return Err(append_unsupported_code(head, signal, fields.code).done());
        }
        if !self.started {
            return Err(
                head.lit("signal ").signed(signal as i64).lit(
                    " delivered before initial bootstrap MemoryMapSnapshot",
                ).done(),
            );
        }
        if let Some(number) = self.interposed_call() {
            return Err(
                head.lit("signal ").signed(signal as i64).lit(" interposed inside pending ").lit(
                    substituted_syscall_name(number),
                ).lit(
                    "; signal interposition inside substituted SYS_read/SYS_getpid pairs is outside M6 deterministic replay scope",
                ).done(),
            );
        }
        match self.take_encoder() {
            None => {},
            Some(e) => {
                let mut encoder = e;
                if encoder.event_count() >= u64::MAX - 1 {
                    return Err(exhausted());
                }
                match encoder.signal_delivery(
                    out,
                    to_unsigned32(self.pid),
                    signal,
                    fields.errno,
                    fields.code,
                    info.as_slice(),
                ) {
                    Err(text) => {
                        return Err(write_error("SignalDelivery", text));
                    },
                    Ok(_) => {},
                }
                self.encoder = Some(encoder);
            },
        }
        proof {
            lemma_one_output(step, step.events[0]);
        }
        self.injected = Some(signal);
        self.phase = Phase::Running;
        let line = Line::new("signal-delivery tid=").signed(self.pid as i64).lit(" sig=").signed(
            signal as i64,
        ).lit(" code=").signed(fields.code as i64).lit(" errno=").signed(
            fields.errno as i64,
        ).done();
        Ok(two(RecordCommand::Print(line), RecordCommand::Resume(signal)))
    }

    fn on_first_maps(&mut self, listing: &Vec<u8>, out: &mut Vec<u8>) -> (r: Result<
        Vec<RecordCommand>,
        String,
    >)
        requires
            old(self)@.phase != Phase::Ended,
        ensures
            step_outcome(
                first_maps_step(old(self)@, listing@),
                final(self)@,
                old(out)@,
                final(out)@,
                r,
            ),
    {
        proof {
            use_type_invariant(&*self);
        }
        let ghost s = self@;
        let ghost before = out@;
        let ghost step = first_maps_step(s, listing@)->Ok_0;
        let map = match parse_proc_maps_bytes(listing.as_slice()) {
            Err(text) => {
                return Err(
                    Line::new("failed to capture initial process maps for pid ").signed(
                        self.pid as i64,
                    ).lit(": ").lit(text.as_str()).done(),
                );
            },
            Ok(map) => map,
        };
        match self.take_encoder() {
            None => {
                proof {
                    lemma_no_output(step);
                    assert(before =~= before + step.output());
                }
            },
            Some(e) => {
                let mut encoder = e;
                if encoder.event_count() >= u64::MAX - 1 {
                    return Err(exhausted());
                }
                match encoder.memory_map_snapshot(out, to_unsigned32(self.pid), map.regions()) {
                    Err(text) => {
                        return Err(write_error("MemoryMapSnapshot", text));
                    },
                    Ok(_) => {},
                }
                self.encoder = Some(encoder);
                self.model = Some(map);
                proof {
                    lemma_one_output(step, step.events[0]);
                }
            },
        }
        self.phase = Phase::Running;
        Ok(one(RecordCommand::Resume(0)))
    }

    fn on_data(&mut self, exit_id: u64, address: u64, len: u64, data: &Vec<u8>, out: &mut Vec<u8>) -> (r:
        Result<Vec<RecordCommand>, String>)
        requires
            old(self)@.phase != Phase::Ended,
        ensures
            step_outcome(
                data_step(old(self)@, exit_id, address, len, data@),
                final(self)@,
                old(out)@,
                final(out)@,
                r,
            ),
    {
        proof {
            use_type_invariant(&*self);
        }
        let ghost s = self@;
        let ghost before = out@;
        let ghost step = data_step(s, exit_id, address, len, data@)->Ok_0;
        if data.len() as u64 != len {
            return Err(
                Line::new("failed to capture read memory output for pid ").signed(
                    self.pid as i64,
                ).lit(": process_vm_readv short transfer for pid ").signed(self.pid as i64).lit(
                    ": requested ",
                ).dec(len).lit(" bytes, read ").dec(data.len() as u64).done(),
            );
        }
        match self.take_encoder() {
            None => {
                proof {
                    lemma_no_output(step);
                    assert(before =~= before + step.output());
                }
            },
            Some(e) => {
                let mut encoder = e;
                if encoder.event_count() >= u64::MAX - 1 {
                    return Err(exhausted());
                }
                match encoder.kernel_memory_write(
                    out,
                    to_unsigned32(self.pid),
                    exit_id,
                    address,
                    data.as_slice(),
                ) {
                    Err(text) => {
                        return Err(write_error("KernelMemoryWrite", text));
                    },
                    Ok(_) => {},
                }
                self.encoder = Some(encoder);
                proof {
                    lemma_one_output(step, step.events[0]);
                }
            },
        }
        self.phase = Phase::Running;
        Ok(one(RecordCommand::Resume(0)))
    }

    fn on_fresh_maps(
        &mut self,
        exit_id: u64,
        number: u64,
        result: i64,
        listing: &Vec<u8>,
        out: &mut Vec<u8>,
    ) -> (r: Result<Vec<RecordCommand>, String>)
        requires
            old(self)@.phase != Phase::Ended,
        ensures
            step_outcome(
                fresh_maps_step(old(self)@, exit_id, number, result, listing@),
                final(self)@,
                old(out)@,
                final(out)@,
                r,
            ),
    {
        proof {
            use_type_invariant(&*self);
        }
        let ghost s = self@;
        let ghost before = out@;
        let ghost step = fresh_maps_step(s, exit_id, number, result, listing@)->Ok_0;
        let fresh = match parse_proc_maps_bytes(listing.as_slice()) {
            Err(text) => {
                return Err(
                    Line::new("failed to read process maps after syscall nr=").dec(number).lit(
                        " for pid ",
                    ).signed(self.pid as i64).lit(": ").lit(text.as_str()).done(),
                );
            },
            Ok(map) => map,
        };
        self.phase = Phase::Running;
        let current = self.take_model();
        match (current, self.take_encoder()) {
            (Some(model), Some(e)) => {
                let mut encoder = e;
                let (removes, adds) = model.diff(&fresh);
                if number != SYS_BRK_X86_64 && result < 0 {
                    proof {
                        assert(removes@.len() == crate::model::not_in(model@, fresh@).len());
                        assert(adds@.len() == crate::model::not_in(fresh@, model@).len());
                    }
                    if removes.len() > 0 || adds.len() > 0 {
                        return Err(
                            Line::new("failed mapping syscall nr=").dec(number).lit(
                                " (rval=",
                            ).signed(result).lit(") produced unexpected map changes").done(),
                        );
                    }
                    self.model = Some(model);
                    self.encoder = Some(encoder);
                    proof {
                        lemma_no_output(step);
                        assert(before =~= before + step.output());
                    }
                    return Ok(one(RecordCommand::Resume(0)));
                }
                match write_deltas(
                    &mut encoder,
                    out,
                    to_unsigned32(self.pid),
                    exit_id,
                    &removes,
                    &adds,
                ) {
                    Err(text) => {
                        return Err(text);
                    },
                    Ok(_) => {},
                }
                proof {
                    lemma_deltas_written(
                        s.progress->0,
                        delta_events(
                            s.progress->0.event_count,
                            s.tid(),
                            exit_id,
                            crate::maps::region_views(removes@),
                            crate::maps::region_views(adds@),
                        ),
                        0,
                    );
                }
                match check_diff(&model, &removes, &adds, &fresh) {
                    Err(text) => {
                        return Err(text);
                    },
                    Ok(_) => {},
                }
                self.encoder = Some(encoder);
                self.model = Some(fresh);
                proof {
                    assert(step.output() =~= crate::wire::records(step.events));
                }
                Ok(one(RecordCommand::Resume(0)))
            },
            (model, encoder) => {
                self.model = model;
                self.encoder = encoder;
                proof {
                    lemma_no_output(step);
                    assert(before =~= before + step.output());
                }
                Ok(one(RecordCommand::Resume(0)))
            },
        }
    }

    /// Takes a report into account: what to do next, with the bytes of the trace appended to
    /// `out`, or what ends the recording.
    pub fn step(&mut self, input: RecordInput, out: &mut Vec<u8>) -> (r: Result<
        Vec<RecordCommand>,
        String,
    >)
        ensures
            record_outcome(
                record_step(old(self)@, input@),
                final(self)@,
                old(out)@,
                final(out)@,
                r,
            ),
    {
        let ghost before = out@;
        let len: usize = out.len();
        match self.take_report(input, out) {
            Ok(commands) => Ok(commands),
            Err(text) => {
                proof {
                    use_type_invariant(&*self);
                    assert(out@.take(len as int) =~= before);
                }
                out.truncate(len);
                self.phase = Phase::Ended;
                Err(text)
            },
        }
    }

    fn take_report(&mut self, input: RecordInput, out: &mut Vec<u8>) -> (r: Result<
        Vec<RecordCommand>,
        String,
    >)
        ensures
            step_outcome(
                record_step(old(self)@, input@),
                final(self)@,
                old(out)@,
                final(out)@,
                r,
            ),
    {
        match (self.phase, input) {
            (Phase::Running, RecordInput::Status(status)) => self.on_status(status, out),
            (Phase::SyscallStop { status }, RecordInput::Syscall(info)) => self.on_syscall(
                status,
                info,
                out,
            ),
            (Phase::SignalStop { signal }, RecordInput::Signal(info)) => {
                if info.len() != SIGINFO_SIZE_X86_64 {
                    return unfit();
                }
                self.on_signal(signal, &info, out)
            },
            (Phase::FirstMaps, RecordInput::Maps(listing)) => self.on_first_maps(&listing, out),
            (Phase::ReadData { exit_id, address, len }, RecordInput::Memory(data)) => self.on_data(
                exit_id,
                address,
                len,
                &data,
                out,
            ),
            (Phase::FreshMaps { exit_id, number, result }, RecordInput::Maps(listing)) =>
                self.on_fresh_maps(exit_id, number, result, &listing, out),
            _ => unfit(),
        }
    }
}

/// Writes that `region` went away or appeared.
fn write_delta(
    encoder: &mut TraceEncoder,
    out: &mut Vec<u8>,
    tid: u32,
    exit_id: u64,
    region: &MemoryRegion,
    gone: bool,
) -> (r: Result<(), String>)
    ensures
        ({
            let e = delta_event(next_id(old(encoder)@), tid, exit_id, region@, gone);
            match written(old(encoder)@, e, delta_name(e)) {
                Err(text) => r is Err && r->Err_0@ == text && final(out)@ == old(out)@,
                Ok(q) => {
                    &&& r is Ok
                    &&& final(encoder)@ == q
                    &&& final(out)@ == old(out)@ + crate::wire::record(e)
                },
            }
        }),
{
    if encoder.event_count() >= u64::MAX - 1 {
        return Err(exhausted());
    }
    if gone {
        match encoder.memory_map_remove(out, tid, exit_id, region) {
            Err(text) => Err(write_error("MemoryMapRemove", text)),
            Ok(_) => Ok(()),
        }
    } else {
        match encoder.memory_map_add(out, tid, exit_id, region) {
            Err(text) => Err(write_error("MemoryMapAdd", text)),
            Ok(_) => Ok(()),
        }
    }
}

/// The records of one event more.
proof fn lemma_next_record(es: Seq<Event>, from: int, to: int)
    requires
        0 <= from <= to < es.len(),
    ensures
        crate::wire::records(es.subrange(from, to + 1)) == crate::wire::records(
            es.subrange(from, to),
        ) + crate::wire::record(es[to]),
{
    let more = es.subrange(from, to + 1);
    assert(more.drop_last() =~= es.subrange(from, to));
    assert(more.last() == es[to]);
}

/// Writes the deltas of `regions`, which stand in `es` from position `from` on.
fn write_all_deltas(
    encoder: &mut TraceEncoder,
    out: &mut Vec<u8>,
    tid: u32,
    exit_id: u64,
    regions: &Vec<MemoryRegion>,
    gone: bool,
    Ghost(es): Ghost<Seq<Event>>,
    Ghost(from): Ghost<int>,
) -> (r: Result<(), String>)
    requires
        0 <= from,
        from + regions@.len() <= es.len(),
        forall|k: int|
            0 <= k < regions@.len() ==> #[trigger] es[from + k] == delta_event(
                (old(encoder)@.event_count + 1 + k) as u64,
                tid,
                exit_id,
                regions@[k]@,
                gone,
            ),
    ensures
        match r {
            Err(text) => {
                &&& deltas_written(old(encoder)@, es, from) == Err::<Progress, Seq<char>>(text@)
                &&& old(out)@.is_prefix_of(final(out)@)
            },
            Ok(_) => {
                &&& deltas_written(old(encoder)@, es, from) == deltas_written(
                    final(encoder)@,
                    es,
                    from + regions@.len(),
                )
                &&& final(encoder)@.event_count == old(encoder)@.event_count + regions@.len()
                &&& final(out)@ == old(out)@ + crate::wire::records(
                    es.subrange(from, from + regions@.len()),
                )
            },
        },
{
    let ghost p = encoder@;
    let ghost before = out@;
    let mut k: usize = 0;
    proof {
        assert(es.subrange(from, from) =~= Seq::<Event>::empty());
        assert(before + crate::wire::records(es.subrange(from, from)) =~= before);
    }
    while k < regions.len()
        invariant
            k <= regions@.len(),
            0 <= from,
            from + regions@.len() <= es.len(),
            p == old(encoder)@,
            before == old(out)@,
            forall|k: int|
                0 <= k < regions@.len() ==> #[trigger] es[from + k] == delta_event(
                    (p.event_count + 1 + k) as u64,
                    tid,
                    exit_id,
                    regions@[k]@,
                    gone,
                ),
            encoder@.event_count == p.event_count + k,
            deltas_written(p, es, from) == deltas_written(encoder@, es, from + k),
            out@ == before + crate::wire::records(es.subrange(from, from + k)),
        decreases regions.len() - k,
    {
        let ghost e = es[from + k];
        let ghost at = encoder@;
        assert(e == delta_event(next_id(at), tid, exit_id, regions@[k as int]@, gone));
        assert(deltas_written(at, es, from + k) == match written(at, e, delta_name(e)) {
            Err(text) => Err::<Progress, Seq<char>>(text),
            Ok(q) => deltas_written(q, es, from + k + 1),
        });
        match write_delta(encoder, out, tid, exit_id, &regions[k], gone) {
            Err(text) => {
                return Err(text);
            },
            Ok(_) => {},
        }
        proof {
            lemma_next_record(es, from, from + k);
            assert(out@ =~= before + crate::wire::records(es.subrange(from, from + k + 1)));
        }
        k += 1;
    }
    Ok(())
}

/// Writes the deltas of a syscall.
fn write_deltas(
    encoder: &mut TraceEncoder,
    out: &mut Vec<u8>,
    tid: u32,
    exit_id: u64,
    removes: &Vec<MemoryRegion>,
    adds: &Vec<MemoryRegion>,
) -> (r: Result<(), String>)
    ensures
        ({
            let es = delta_events(
                old(encoder)@.event_count,
                tid,
                exit_id,
                crate::maps::region_views(removes@),
                crate::maps::region_views(adds@),
            );
            match deltas_written(old(encoder)@, es, 0) {
                Err(text) => r is Err && r->Err_0@ == text && old(out)@.is_prefix_of(final(out)@),
                Ok(q) => {
                    &&& r is Ok
                    &&& final(encoder)@ == q
                    &&& final(out)@ == old(out)@ + crate::wire::records(es)
                },
            }
        }),
{
    let ghost before = out@;
    let ghost es = delta_events(
        encoder@.event_count,
        tid,
        exit_id,
        crate::maps::region_views(removes@),
        crate::maps::region_views(adds@),
    );
    let ghost n = removes@.len() as int;
    match write_all_deltas(encoder, out, tid, exit_id, removes, true, Ghost(es), Ghost(0)) {
        Err(text) => {
            return Err(text);
        },
        Ok(_) => {},
    }
    let ghost middle = out@;
    match write_all_deltas(encoder, out, tid, exit_id, adds, false, Ghost(es), Ghost(n)) {
        Err(text) => {
            assert(before.is_prefix_of(middle));
            return Err(text);
        },
        Ok(_) => {},
    }
    proof {
        let end = es.len() as int;
        crate::trace_laws::lemma_records_split(es.subrange(0, n), es.subrange(n, end));
        assert(es.subrange(0, n) + es.subrange(n, end) =~= es);
        assert(out@ =~= before + crate::wire::records(es));
    }
    Ok(())
}

/// Checks that the deltas lead from `model` to `fresh`.
fn check_diff(
    model: &MemoryMapModel,
    removes: &Vec<MemoryRegion>,
    adds: &Vec<MemoryRegion>,
    fresh: &MemoryMapModel,
) -> (r: Result<(), String>)
    ensures
        match diff_complaint(
            model@,
            crate::maps::region_views(removes@),
            crate::maps::region_views(adds@),
            fresh@,
        ) {
            None => r is Ok,
            Some(text) => r is Err && r->Err_0@ == text,
        },
{
    let ghost gone = crate::maps::region_views(removes@);
    let ghost new = crate::maps::region_views(adds@);
    let mut check = model.clone();
    let mut i: usize = 0;
    proof {
        assert(gone.skip(0) =~= gone);
    }
    while i < removes.len()
        invariant
            i <= removes@.len(),
            gone == crate::maps::region_views(removes@),
            crate::model_laws::removed_all(model@, gone) == crate::model_laws::removed_all(
                check@,
                gone.skip(i as int),
            ),
            new == crate::maps::region_views(adds@),
        decreases removes.len() - i,
    {
        proof {
            assert(gone.skip(i as int)[0] == removes@[i as int]@);
            assert(gone.skip(i as int).drop_first() =~= gone.skip(i + 1));
        }
        match check.apply_remove(&removes[i]) {
            Err(text) => {
                return Err(
                    Line::new("model diff consistency check failed (remove): ").lit(
                        text.as_str(),
                    ).done(),
                );
            },
            Ok(_) => {},
        }
        i += 1;
    }
    let ghost kept = check@;
    let mut k: usize = 0;
    proof {
        assert(new.skip(0) =~= new);
    }
    while k < adds.len()
        invariant
            k <= adds@.len(),
            new == crate::maps::region_views(adds@),
            crate::model_laws::removed_all(model@, gone) == Ok::<Seq<Region>, Seq<char>>(kept),
            crate::model_laws::added_all(kept, new) == crate::model_laws::added_all(
                check@,
                new.skip(k as int),
            ),
            gone == crate::maps::region_views(removes@),
        decreases adds.len() - k,
    {
        proof {
            assert(new.skip(k as int)[0] == adds@[k as int]@);
            assert(new.skip(k as int).drop_first() =~= new.skip(k + 1));
        }
        match check.apply_add(adds[k].clone()) {
            Err(text) => {
                return Err(
                    Line::new("model diff consistency check failed (add): ").lit(
                        text.as_str(),
                    ).done(),
                );
            },
            Ok(_) => {},
        }
        k += 1;
    }
    if check != *fresh {
        return Err(
            Line::new(
                "model diff consistency check failed: reconstructed model does not match fresh observed map",
            ).done(),
        );
    }
    Ok(())
}

} // verus!
