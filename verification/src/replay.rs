//! The decisions of a replay: what to do at each stop of the traced process so that it sees
//! what the trace holds.
use vstd::prelude::*;
use vstd::string::*;
use crate::bytes::{copy_range, to_unsigned, to_unsigned32};
use crate::recorder::{SyscallInfo, TraceeTermination};
use crate::signals::{
    SYSCALL_STOP, append_unsupported_code, is_process_signal, is_stopping_signal,
    read_signal_fields,
};
use crate::status::{WaitStatus, decode_status};
use crate::text::Line;
use crate::trace::{
    Event, ParsedTrace, SIGINFO_SIZE_X86_64, SYS_EXIT_GROUP_X86_64, SYS_EXIT_X86_64,
    TRACE_VERSION_2, Trace, TraceEvent, is_substituted_syscall, substituted_syscall_name,
};
pub use crate::trace::{SYS_GETPID_X86_64, SYS_READ_X86_64};

verus! {

/// What a suppressed syscall returns: the negated error for an unknown syscall.
pub const SUPPRESSED_RESULT: i64 = -38;

/// The number of no syscall; the kernel skips a syscall whose number is set to it.
pub const NO_SYSCALL: u64 = 0xffff_ffff_ffff_ffff;

/// What is wrong with the first signal from `i` on that cannot be replayed, when `open` is the
/// syscall entered and not left.
pub open spec fn signal_complaint(es: Seq<Event>, i: int, open: Option<u64>) -> Option<Seq<char>>
    decreases es.len() - i,
{
    if i < 0 || i >= es.len() {
        None
    } else {
        match es[i] {
            Event::SyscallEnter { number, .. } => signal_complaint(es, i + 1, Some(number)),
            Event::SyscallExit { .. } => signal_complaint(es, i + 1, None),
            Event::SignalDelivery { event_id, signal_number, si_code, .. } => {
                let head = "trace event "@ + crate::text::dec(event_id as int) + ": "@;
                if crate::signals::stopping(signal_number) {
                    Some(
                        head + "signal "@ + crate::text::dec(signal_number as int)
                            + " is unsupported in M6 deterministic replay"@,
                    )
                } else if !crate::signals::sent_by_process(si_code) {
                    Some(head + crate::signals::unsupported_code_text(signal_number, si_code))
                } else if open is Some && crate::trace::substituted(open->0) {
                    Some(
                        head + "SignalDelivery interposed inside substituted "@
                            + crate::trace::substituted_name(open->0) + " pair"@,
                    )
                } else {
                    signal_complaint(es, i + 1, open)
                }
            },
            _ => signal_complaint(es, i + 1, open),
        }
    }
}

/// What is wrong with the first result from `i` on that cannot be replayed.
pub open spec fn result_complaint(version: u32, es: Seq<Event>, i: int) -> Option<Seq<char>>
    decreases es.len() - i,
{
    if i < 0 || i >= es.len() {
        None
    } else {
        match es[i] {
            Event::SyscallExit { number, result, .. } => if number == SYS_GETPID_X86_64 && (result
                <= 0 || result > i32::MAX) {
                Some(
                    "M4 replay trace contains invalid recorded getpid result "@ + crate::text::dec(
                        result as int,
                    ),
                )
            } else if number == SYS_READ_X86_64 && version < TRACE_VERSION_2 && result > 0 {
                Some(needs_format_two())
            } else {
                result_complaint(version, es, i + 1)
            },
            _ => result_complaint(version, es, i + 1),
        }
    }
}

pub open spec fn needs_format_two() -> Seq<char> {
    "V1 trace cannot replay SYS_read memory output; record again with Trace Format V2"@
}

/// An event that replay has something to do for.
pub open spec fn replayable(e: Event) -> bool {
    match e {
        Event::SyscallExit { number, .. } => crate::trace::substituted(number),
        Event::SignalDelivery { .. } => true,
        _ => false,
    }
}

/// What keeps a trace from being replayed.
pub open spec fn preflight_complaint(t: Trace) -> Option<Seq<char>> {
    if t.events.len() == 0 {
        Some("M4 replay trace contains no events"@)
    } else if exists|i: int|
        0 <= i < t.events.len() && (#[trigger] t.events[i]).thread() != t.events[0].thread() {
        Some("M4 replay does not support multi-threaded trace with multiple TIDs"@)
    } else if signal_complaint(t.events, 0, None) is Some {
        signal_complaint(t.events, 0, None)
    } else if result_complaint(t.version, t.events, 0) is Some {
        result_complaint(t.version, t.events, 0)
    } else if !exists|i: int| 0 <= i < t.events.len() && replayable(#[trigger] t.events[i]) {
        Some(
            "M4 replay trace contains no supported SYS_getpid substitution, SYS_read substitution or signal delivery"@,
        )
    } else {
        None
    }
}

fn check_signals(trace: &ParsedTrace) -> (r: Result<(), String>)
    ensures
        match signal_complaint(trace@.events, 0, None) {
            None => r is Ok,
            Some(text) => r is Err && r->Err_0@ == text,
        },
{
    let ghost es = trace@.events;
    let mut open: Option<u64> = None;
    let mut i: usize = 0;
    while i < trace.events.len()
        invariant
            i <= trace.events@.len(),
            es == trace@.events,
            signal_complaint(es, 0, None) == signal_complaint(es, i as int, open),
        decreases trace.events.len() - i,
    {
        let event = &trace.events[i];
        assert(es[i as int] == event@);
        match event {
            TraceEvent::SyscallEnter { number, .. } => {
                open = Some(*number);
            },
            TraceEvent::SyscallExit { .. } => {
                open = None;
            },
            TraceEvent::SignalDelivery { event_id, signal_number, si_code, .. } => {
                let head = Line::new("trace event ").dec(*event_id).lit(": ");
                if is_stopping_signal(*signal_number) {
                    return Err(
                        head.lit("signal ").signed(*signal_number as i64).lit(
                            " is unsupported in M6 deterministic replay",
                        ).done(),
                    );
                }
                if !is_process_signal(*si_code) {
                    return Err(append_unsupported_code(head, *signal_number, *si_code).done());
                }
                if let Some(number) = open {
                    if is_substituted_syscall(number) {
                        return Err(
                            head.lit("SignalDelivery interposed inside substituted ").lit(
                                substituted_syscall_name(number),
                            ).lit(" pair").done(),
                        );
                    }
                }
            },
            _ => {},
        }
        i += 1;
    }
    Ok(())
}

fn check_results(trace: &ParsedTrace) -> (r: Result<(), String>)
    ensures
        match result_complaint(trace@.version, trace@.events, 0) {
            None => r is Ok,
            Some(text) => r is Err && r->Err_0@ == text,
        },
{
    let ghost es = trace@.events;
    let mut i: usize = 0;
    while i < trace.events.len()
        invariant
            i <= trace.events@.len(),
            es == trace@.events,
            result_complaint(trace@.version, es, 0) == result_complaint(
                trace@.version,
                es,
                i as int,
            ),
        decreases trace.events.len() - i,
    {
        let event = &trace.events[i];
        assert(es[i as int] == event@);
        if let TraceEvent::SyscallExit { number, result, .. } = event {
            if *number == SYS_GETPID_X86_64 && (*result <= 0 || *result > i32::MAX as i64) {
                return Err(
                    Line::new("M4 replay trace contains invalid recorded getpid result ").signed(
                        *result,
                    ).done(),
                );
            }
            if *number == SYS_READ_X86_64 && trace.version < TRACE_VERSION_2 && *result > 0 {
                return Err(
                    Line::new(
                        "V1 trace cannot replay SYS_read memory output; record again with Trace Format V2",
                    ).done(),
                );
            }
        }
        i += 1;
    }
    Ok(())
}

/// Checks, before anything is launched, that the trace can be replayed.
pub fn replay_preflight(trace: &ParsedTrace) -> (r: Result<(), String>)
    ensures
        match preflight_complaint(trace@) {
            None => r is Ok,
            Some(text) => r is Err && r->Err_0@ == text,
        },
{
    let ghost es = trace@.events;
    if trace.events.len() == 0 {
        return Err(Line::new("M4 replay trace contains no events").done());
    }
    let tid: u32 = trace.events[0].tid();
    let mut found: bool = false;
    let mut i: usize = 0;
    while i < trace.events.len()
        invariant
            i <= trace.events@.len(),
            es == trace@.events,
            es.len() > 0,
            tid == es[0].thread(),
            forall|k: int| 0 <= k < i ==> (#[trigger] es[k]).thread() == tid,
            found == exists|k: int| 0 <= k < i && replayable(#[trigger] es[k]),
        decreases trace.events.len() - i,
    {
        let event = &trace.events[i];
        assert(es[i as int] == event@);
        if event.tid() != tid {
            return Err(
                Line::new(
                    "M4 replay does not support multi-threaded trace with multiple TIDs",
                ).done(),
            );
        }
        let works: bool = match event {
            TraceEvent::SyscallExit { number, .. } => is_substituted_syscall(*number),
            TraceEvent::SignalDelivery { .. } => true,
            _ => false,
        };
        found = found || works;
        i += 1;
    }
    match check_signals(trace) {
        Err(text) => {
            return Err(text);
        },
        Ok(_) => {},
    }
    match check_results(trace) {
        Err(text) => {
            return Err(text);
        },
        Ok(_) => {},
    }
    if !found {
        return Err(
            Line::new(
                "M4 replay trace contains no supported SYS_getpid substitution, SYS_read substitution or signal delivery",
            ).done(),
        );
    }
    Ok(())
}

/// A live syscall that was entered and not left.
#[derive(Debug, Clone, Copy, PartialEq, Eq, Structural)]
pub enum PendingReplaySyscall {
    /// The kernel carries it out.
    Passthrough { number: u64, recorded_enter_event_id: u64 },
    /// It is suppressed; its result comes out of the trace.
    SubstitutedGetpid {
        recorded_enter_event_id: u64,
        recorded_exit_event_id: u64,
        recorded_result: i64,
    },
    /// It is suppressed; its result and its data come out of the trace.
    SubstitutedRead {
        recorded_enter_event_id: u64,
        recorded_exit_event_id: u64,
        recorded_result: i64,
        live_buffer_address: u64,
        live_count: u64,
    },
}

/// What happened, or the answer to the last question.
#[derive(Debug)]
pub enum ReplayInput {
    /// A wait returned this status.
    Status(i32),
    Syscall(SyscallInfo),
    /// The raw `siginfo_t` that the process has after it was restored.
    Signal(Vec<u8>),
}

/// What to do next.
#[derive(Debug, PartialEq, Eq)]
pub enum ReplayCommand {
    QuerySyscall,
    /// Keep the kernel from carrying out the syscall.
    Suppress { number: u64 },
    WriteMemory { event_id: u64, address: u64, data: Vec<u8> },
    /// Make this the result of the syscall.
    SetResult(u64),
    /// A line for the diagnostic output.
    Note(String),
    /// Give the process this `siginfo_t`, and report what it has then.
    RestoreSignal(Vec<u8>),
    /// Send the signal to the process, which is stopped.
    Arm(i32),
    /// Let the process run to its next stop, delivering this signal if it is not zero.
    Resume(i32),
    Done(TraceeTermination),
}

/// The mathematical value of a [`ReplayInput`].
pub enum Report {
    Status(i32),
    Syscall(SyscallInfo),
    Signal(Seq<u8>),
}

/// The mathematical value of a [`ReplayCommand`].
#[verifier::ext_equal]
pub enum Order {
    QuerySyscall,
    Suppress { number: u64 },
    WriteMemory { event_id: u64, address: u64, data: Seq<u8> },
    SetResult(u64),
    Note(Seq<char>),
    RestoreSignal(Seq<u8>),
    Arm(i32),
    Resume(i32),
    Done(TraceeTermination),
}

impl View for ReplayInput {
    type V = Report;

    open spec fn view(&self) -> Report {
        match *self {
            ReplayInput::Status(status) => Report::Status(status),
            ReplayInput::Syscall(info) => Report::Syscall(info),
            ReplayInput::Signal(bytes) => Report::Signal(bytes@),
        }
    }
}

impl View for ReplayCommand {
    type V = Order;

    open spec fn view(&self) -> Order {
        match *self {
            ReplayCommand::QuerySyscall => Order::QuerySyscall,
            ReplayCommand::Suppress { number } => Order::Suppress { number },
            ReplayCommand::WriteMemory { event_id, address, data } => Order::WriteMemory {
                event_id,
                address,
                data: data@,
            },
            ReplayCommand::SetResult(result) => Order::SetResult(result),
            ReplayCommand::Note(s) => Order::Note(s@),
            ReplayCommand::RestoreSignal(bytes) => Order::RestoreSignal(bytes@),
            ReplayCommand::Arm(signal) => Order::Arm(signal),
            ReplayCommand::Resume(signal) => Order::Resume(signal),
            ReplayCommand::Done(end) => Order::Done(end),
        }
    }
}

pub open spec fn orders(s: Seq<ReplayCommand>) -> Seq<Order> {
    Seq::new(s.len(), |i: int| s[i]@)
}

/// What the replay waits for.
#[derive(Debug, Clone, Copy, PartialEq, Eq, Structural)]
pub enum Phase {
    /// The stop at the exit from the initial `execve`.
    Launched,
    /// What that stop is about.
    LaunchStop,
    /// The next stop of the process.
    Running,
    /// What the syscall stop is about.
    SyscallStop,
    /// The siginfo that the process has been given for the signal event at this index.
    SignalStop { index: usize },
    /// Nothing; the process is gone.
    Ended,
}

/// The state of a replay.
#[verifier::ext_equal]
pub struct Replaying {
    pub pid: i32,
    pub version: u32,
    pub events: Seq<Event>,
    /// The events before this index are replayed.
    pub cursor: int,
    pub pending: Option<PendingReplaySyscall>,
    /// How many results and signals came out of the trace.
    pub performed: int,
    /// The signal delivered at the last stop.
    pub delivered: Option<i32>,
    pub phase: Phase,
}

/// The effect of one step.
#[verifier::ext_equal]
pub struct ReplayStep {
    pub next: Replaying,
    pub orders: Seq<Order>,
}

/// The first event from `i` on that is more than a description of the memory map, or the end.
pub open spec fn upcoming(es: Seq<Event>, i: int) -> int
    decreases es.len() - i,
{
    if i < 0 || i >= es.len() || !es[i].is_map_metadata() {
        i
    } else {
        upcoming(es, i + 1)
    }
}

/// How the process resumes: if a signal comes next in the trace, it is sent beforehand.
pub open spec fn resume(es: Seq<Event>, cursor: int, signal: i32) -> Seq<Order> {
    let i = upcoming(es, cursor);
    if i < es.len() && es[i] is SignalDelivery {
        seq![Order::Arm(es[i]->SignalDelivery_signal_number), Order::Resume(signal)]
    } else {
        seq![Order::Resume(signal)]
    }
}

/// Whether the report is one that the phase waits for.
pub open spec fn expected(phase: Phase, report: Report) -> bool {
    match phase {
        Phase::Launched => report is Status,
        Phase::LaunchStop => report is Syscall,
        Phase::Running => report is Status,
        Phase::SyscallStop => report is Syscall,
        Phase::SignalStop { .. } => report is Signal && report->Signal_0.len()
            == SIGINFO_SIZE_X86_64,
        Phase::Ended => false,
    }
}

/// The beginning of a message about an event that the live process does not match.
pub open spec fn diverged_at(event_id: u64) -> Seq<char> {
    "replay divergence at recorded event "@ + crate::text::dec(event_id as int) + ": expected "@
}

pub open spec fn launched_step(s: Replaying, status: i32) -> Result<ReplayStep, Seq<char>> {
    if status & 0xff == 0x7f && crate::status::second_byte(status) == SYSCALL_STOP {
        Ok(
            ReplayStep {
                next: Replaying { phase: Phase::LaunchStop, ..s },
                orders: seq![Order::QuerySyscall],
            },
        )
    } else {
        Err(
            "expected initial bootstrap execve syscall exit stop for pid "@ + crate::text::dec(
                s.pid as int,
            ) + ", got status 0x"@ + crate::text::hex(
                crate::bytes::unsigned32_of(status) as int,
            ),
        )
    }
}

/// The number by which the kernel tells the kinds of syscall stop apart.
pub open spec fn info_op(info: SyscallInfo) -> u8 {
    match info {
        SyscallInfo::Nothing => 0,
        SyscallInfo::Entry { .. } => 1,
        SyscallInfo::Exit { .. } => 2,
        SyscallInfo::Seccomp { .. } => 3,
        SyscallInfo::Unknown { op } => op,
    }
}

pub open spec fn launch_stop_step(s: Replaying, info: SyscallInfo) -> Result<
    ReplayStep,
    Seq<char>,
> {
    if info is Exit {
        Ok(
            ReplayStep {
                next: Replaying { phase: Phase::Running, ..s },
                orders: resume(s.events, s.cursor, 0),
            },
        )
    } else {
        Err(
            "expected PTRACE_SYSCALL_INFO_EXIT for initial bootstrap stop on pid "@
                + crate::text::dec(s.pid as int) + ", got op "@ + crate::text::dec(
                info_op(info) as int,
            ),
        )
    }
}

/// A pending syscall that a process may end in.
pub open spec fn terminating(pending: Option<PendingReplaySyscall>) -> bool {
    match pending {
        None => true,
        Some(PendingReplaySyscall::Passthrough { number, .. }) => number == SYS_EXIT_X86_64
            || number == SYS_EXIT_GROUP_X86_64,
        _ => false,
    }
}

pub open spec fn remaining(es: Seq<Event>, i: int) -> Seq<char> {
    crate::text::dec(es[i].id() as int) + "; "@ + crate::text::dec(es.len() - i)
        + " recorded events remaining in trace"@
}

pub open spec fn status_step(s: Replaying, status: i32) -> Result<ReplayStep, Seq<char>> {
    let i = upcoming(s.events, s.cursor);
    match crate::status::wait_status(status) {
        WaitStatus::Exited(code) => if !terminating(s.pending) {
            Err("replay divergence: tracee exited while non-terminating syscall was pending"@)
        } else if i < s.events.len() {
            Err(
                "replay divergence: tracee exited prematurely at recorded event "@ + remaining(
                    s.events,
                    i,
                ),
            )
        } else if s.performed == 0 {
            Err("replay failed: no substitution was performed during execution"@)
        } else {
            Ok(
                ReplayStep {
                    next: Replaying { phase: Phase::Ended, ..s },
                    orders: seq![Order::Done(TraceeTermination::Exited(code))],
                },
            )
        },
        WaitStatus::Signaled(signal) => if s.delivered != Some(signal) {
            Err(
                "replay divergence: tracee terminated unexpectedly by signal "@ + crate::text::dec(
                    signal as int,
                ),
            )
        } else if i < s.events.len() {
            Err(
                "replay divergence: tracee terminated prematurely at recorded event "@ + remaining(
                    s.events,
                    i,
                ),
            )
        } else {
            Ok(
                ReplayStep {
                    next: Replaying { phase: Phase::Ended, ..s },
                    orders: seq![Order::Done(TraceeTermination::Signaled(signal))],
                },
            )
        },
        WaitStatus::Stopped { signal, event } => if event != 0 {
            Err(
                "replay divergence: unexpected ptrace event "@ + crate::text::dec(event as int)
                    + " for pid "@ + crate::text::dec(s.pid as int),
            )
        } else if signal == SYSCALL_STOP {
            Ok(
                ReplayStep {
                    next: Replaying { delivered: None, phase: Phase::SyscallStop, ..s },
                    orders: seq![Order::QuerySyscall],
                },
            )
        } else if i >= s.events.len() || !(s.events[i] is SignalDelivery) {
            Err(
                "replay divergence: unrecorded live signal "@ + crate::text::dec(signal as int)
                    + " on pid "@ + crate::text::dec(s.pid as int),
            )
        } else if s.events[i]->SignalDelivery_signal_number != signal {
            Err(
                diverged_at(s.events[i].id()) + "signal "@ + crate::text::dec(
                    s.events[i]->SignalDelivery_signal_number as int,
                ) + ", observed live signal "@ + crate::text::dec(signal as int) + " (pid="@
                    + crate::text::dec(s.pid as int) + ")"@,
            )
        } else {
            Ok(
                ReplayStep {
                    next: Replaying { phase: Phase::SignalStop { index: i as usize }, ..s },
                    orders: seq![
                        Order::RestoreSignal(s.events[i]->SignalDelivery_siginfo_bytes),
                    ],
                },
            )
        },
        WaitStatus::Other => Err(
            "replay divergence: unexpected wait status 0x"@ + crate::text::hex(
                crate::bytes::unsigned32_of(status) as int,
            ) + " for pid "@ + crate::text::dec(s.pid as int),
        ),
    }
}

/// The process has the recorded number, error and code, and goes on with the signal.
pub open spec fn signal_step(s: Replaying, index: int, info: Seq<u8>) -> Result<
    ReplayStep,
    Seq<char>,
> {
    let e = s.events[index];
    let fields = crate::signals::signal_fields(info);
    let signal = e->SignalDelivery_signal_number;
    if fields.signo != signal || fields.errno != e->SignalDelivery_si_errno || fields.code
        != e->SignalDelivery_si_code {
        Err(
            diverged_at(e.id()) + "restored siginfo of signal "@ + crate::text::dec(signal as int)
                + ", observed si_signo "@ + crate::text::dec(fields.signo as int) + ", si_errno "@
                + crate::text::dec(fields.errno as int) + ", si_code "@ + crate::text::dec(
                fields.code as int,
            ) + " (pid="@ + crate::text::dec(s.pid as int) + ")"@,
        )
    } else {
        Ok(
            ReplayStep {
                next: Replaying {
                    cursor: index + 1,
                    performed: s.performed + 1,
                    delivered: Some(signal),
                    phase: Phase::Running,
                    ..s
                },
                orders: resume(s.events, index + 1, signal),
            },
        )
    }
}

/// The recorded exit of a substituted syscall whose entry stands at `i`.
pub open spec fn recorded_exit(s: Replaying, i: int, number: u64) -> Result<
    (u64, i64),
    Seq<char>,
> {
    let name = crate::trace::substituted_name(number);
    let k = upcoming(s.events, i + 1);
    if k >= s.events.len() {
        Err(
            "replay divergence: trace ended after "@ + name + " enter event "@ + crate::text::dec(
                s.events[i].id() as int,
            ),
        )
    } else {
        match s.events[k] {
            Event::SyscallExit { event_id, number: exit_number, result, .. } => if exit_number
                != number {
                Err(
                    "replay divergence: recorded event "@ + crate::text::dec(event_id as int)
                        + " is SyscallExit nr="@ + crate::text::dec(exit_number as int)
                        + ", expected "@ + name,
                )
            } else if number == SYS_READ_X86_64 && s.version < TRACE_VERSION_2 && result > 0 {
                Err(needs_format_two())
            } else {
                Ok((event_id, result))
            },
            e => Err(
                "replay divergence: recorded event "@ + crate::text::dec(e.id() as int)
                    + " is not SyscallExit for "@ + name,
            ),
        }
    }
}

pub open spec fn entry_step(s: Replaying, number: u64, args: Seq<u64>) -> Result<
    ReplayStep,
    Seq<char>,
> {
    let i = upcoming(s.events, s.cursor);
    let observed = ", observed live syscall-enter nr="@ + crate::text::dec(number as int)
        + " (pid="@ + crate::text::dec(s.pid as int) + ")"@;
    if s.pending is Some {
        Err(
            "replay divergence on pid "@ + crate::text::dec(s.pid as int)
                + ": received syscall-enter nr="@ + crate::text::dec(number as int)
                + " while another syscall is still pending"@,
        )
    } else if i >= s.events.len() {
        Err(
            "replay divergence: extra live syscall-enter nr="@ + crate::text::dec(number as int)
                + " on pid "@ + crate::text::dec(s.pid as int) + " after trace exhausted"@,
        )
    } else {
        match s.events[i] {
            Event::SyscallEnter { event_id, number: recorded, args: recorded_args, .. } => if recorded
                != number {
                Err(
                    diverged_at(event_id) + "syscall-enter nr="@ + crate::text::dec(
                        recorded as int,
                    ) + observed,
                )
            } else if number == SYS_READ_X86_64 && args[2] != recorded_args[2] {
                Err(
                    diverged_at(event_id) + "read count "@ + crate::text::dec(
                        recorded_args[2] as int,
                    ) + ", observed live count "@ + crate::text::dec(args[2] as int) + " (pid="@
                        + crate::text::dec(s.pid as int) + ")"@,
                )
            } else if crate::trace::substituted(number) {
                match recorded_exit(s, i, number) {
                    Err(text) => Err(text),
                    Ok((exit_id, result)) => Ok(
                        ReplayStep {
                            next: Replaying {
                                cursor: i + 1,
                                pending: Some(
                                    if number == SYS_GETPID_X86_64 {
                                        PendingReplaySyscall::SubstitutedGetpid {
                                            recorded_enter_event_id: event_id,
                                            recorded_exit_event_id: exit_id,
                                            recorded_result: result,
                                        }
                                    } else {
                                        PendingReplaySyscall::SubstitutedRead {
                                            recorded_enter_event_id: event_id,
                                            recorded_exit_event_id: exit_id,
                                            recorded_result: result,
                                            live_buffer_address: args[1],
                                            live_count: args[2],
                                        }
                                    },
                                ),
                                phase: Phase::Running,
                                ..s
                            },
                            orders: seq![Order::Suppress { number }] + resume(
                                s.events,
                                i + 1,
                                0,
                            ),
                        },
                    ),
                }
            } else {
                Ok(
                    ReplayStep {
                        next: Replaying {
                            cursor: i + 1,
                            pending: Some(
                                PendingReplaySyscall::Passthrough {
                                    number,
                                    recorded_enter_event_id: event_id,
                                },
                            ),
                            phase: Phase::Running,
                            ..s
                        },
                        orders: resume(s.events, i + 1, 0),
                    },
                )
            },
            Event::SyscallExit { event_id, number: recorded, .. } => Err(
                diverged_at(event_id) + "syscall-exit nr="@ + crate::text::dec(recorded as int)
                    + observed,
            ),
            Event::SignalDelivery { event_id, signal_number, .. } => Err(
                diverged_at(event_id) + "signal "@ + crate::text::dec(signal_number as int)
                    + observed,
            ),
            e => Err(diverged_at(e.id()) + "KernelMemoryWrite"@ + observed),
        }
    }
}

/// What is wrong where the suppressed syscall `name` is left.
pub open spec fn substitution_complaint(
    s: Replaying,
    i: int,
    exit_id: u64,
    result: i64,
    is_error: u8,
    name: Seq<char>,
) -> Option<Seq<char>> {
    if i >= s.events.len() {
        Some(
            "replay divergence on pid "@ + crate::text::dec(s.pid as int)
                + ": trace exhausted at live syscall-exit for "@ + name,
        )
    } else if s.events[i].id() != exit_id {
        Some(
            "replay divergence: expected recorded exit event "@ + crate::text::dec(exit_id as int)
                + ", got "@ + crate::text::dec(s.events[i].id() as int),
        )
    } else if result != SUPPRESSED_RESULT {
        Some(
            "replay suppression failure at event "@ + crate::text::dec(exit_id as int)
                + ": expected suppression sentinel -ENOSYS ("@ + crate::text::dec(
                SUPPRESSED_RESULT as int,
            ) + "), observed exit result "@ + crate::text::dec(result as int) + " (is_error="@
                + crate::text::dec(is_error as int) + ", pid="@ + crate::text::dec(s.pid as int)
                + ")"@,
        )
    } else {
        None
    }
}

pub open spec fn substitute_note(
    pid: i32,
    exit_id: u64,
    name: Seq<char>,
    recorded: i64,
    result: i64,
) -> Seq<char> {
    "replay-substitute event="@ + crate::text::dec(exit_id as int) + " syscall="@ + name
        + " recorded="@ + crate::text::dec(recorded as int) + " live_pid="@ + crate::text::dec(
        pid as int,
    ) + " suppressed="@ + crate::text::dec(result as int) + " injected="@ + crate::text::dec(
        recorded as int,
    )
}

/// The recorded data of a read whose exit stands at `i`, and where it stands.
pub open spec fn recorded_data(
    s: Replaying,
    i: int,
    exit_id: u64,
    recorded: i64,
    live_count: u64,
) -> Result<int, Seq<char>> {
    let k = upcoming(s.events, i + 1);
    if k >= s.events.len() {
        Err(
            "replay divergence on pid "@ + crate::text::dec(s.pid as int)
                + ": trace exhausted awaiting KernelMemoryWrite for read exit event "@
                + crate::text::dec(exit_id as int),
        )
    } else {
        match s.events[k] {
            Event::KernelMemoryWrite { event_id, source_event_id, data, .. } => if source_event_id
                != exit_id {
                Err(
                    "replay divergence: KernelMemoryWrite event "@ + crate::text::dec(
                        event_id as int,
                    ) + " source_event_id "@ + crate::text::dec(source_event_id as int)
                        + " does not match read exit event "@ + crate::text::dec(exit_id as int),
                )
            } else if data.len() != recorded {
                Err(
                    "replay divergence: KernelMemoryWrite event "@ + crate::text::dec(
                        event_id as int,
                    ) + " data length "@ + crate::text::dec(data.len() as int)
                        + " does not match recorded result "@ + crate::text::dec(recorded as int),
                )
            } else if recorded > live_count {
                Err(
                    "replay divergence: recorded read result "@ + crate::text::dec(recorded as int)
                        + " exceeds live count "@ + crate::text::dec(live_count as int),
                )
            } else {
                Ok(k)
            },
            e => Err(
                "replay divergence: expected KernelMemoryWrite after read exit event "@
                    + crate::text::dec(exit_id as int) + ", got event "@ + crate::text::dec(
                    e.id() as int,
                ),
            ),
        }
    }
}

pub open spec fn exit_step(s: Replaying, result: i64, is_error: u8) -> Result<
    ReplayStep,
    Seq<char>,
> {
    let i = upcoming(s.events, s.cursor);
    match s.pending {
        None => Err(
            "replay divergence on pid "@ + crate::text::dec(s.pid as int)
                + ": received unexpected syscall-exit with no pending live syscall-enter"@,
        ),
        Some(PendingReplaySyscall::SubstitutedGetpid {
            recorded_exit_event_id: exit_id,
            recorded_result: recorded,
            ..
        }) => match substitution_complaint(s, i, exit_id, result, is_error, "getpid"@) {
            Some(text) => Err(text),
            None => Ok(
                ReplayStep {
                    next: Replaying {
                        cursor: i + 1,
                        pending: None,
                        performed: s.performed + 1,
                        phase: Phase::Running,
                        ..s
                    },
                    orders: seq![
                        Order::SetResult(crate::bytes::unsigned_of(recorded)),
                        Order::Note(
                            substitute_note(s.pid, exit_id, "getpid"@, recorded, result),
                        ),
                    ] + resume(s.events, i + 1, 0),
                },
            ),
        },
        Some(PendingReplaySyscall::SubstitutedRead {
            recorded_exit_event_id: exit_id,
            recorded_result: recorded,
            live_buffer_address,
            live_count,
            ..
        }) => match substitution_complaint(s, i, exit_id, result, is_error, "read"@) {
            Some(text) => Err(text),
            None => if recorded > 0 {
                match recorded_data(s, i, exit_id, recorded, live_count) {
                    Err(text) => Err(text),
                    Ok(k) => Ok(
                        ReplayStep {
                            next: Replaying {
                                cursor: k + 1,
                                pending: None,
                                performed: s.performed + 1,
                                phase: Phase::Running,
                                ..s
                            },
                            orders: seq![
                                Order::WriteMemory {
                                    event_id: s.events[k].id(),
                                    address: live_buffer_address,
                                    data: s.events[k]->KernelMemoryWrite_data,
                                },
                                Order::SetResult(crate::bytes::unsigned_of(recorded)),
                                Order::Note(
                                    memory_note(s.events[k], live_buffer_address, recorded, result),
                                ),
                            ] + resume(s.events, k + 1, 0),
                        },
                    ),
                }
            } else {
                Ok(
                    ReplayStep {
                        next: Replaying {
                            cursor: i + 1,
                            pending: None,
                            performed: s.performed + 1,
                            phase: Phase::Running,
                            ..s
                        },
                        orders: seq![
                            Order::SetResult(crate::bytes::unsigned_of(recorded)),
                            Order::Note(
                                substitute_note(s.pid, exit_id, "read"@, recorded, result),
                            ),
                        ] + resume(s.events, i + 1, 0),
                    },
                )
            },
        },
        Some(PendingReplaySyscall::Passthrough { number, .. }) => if i >= s.events.len() {
            Err(
                "replay divergence on pid "@ + crate::text::dec(s.pid as int)
                    + ": trace exhausted at live syscall-exit for nr="@ + crate::text::dec(
                    number as int,
                ),
            )
        } else {
            match s.events[i] {
                Event::SyscallExit { event_id, number: recorded, .. } => if recorded != number {
                    Err(
                        diverged_at(event_id) + "syscall-exit nr="@ + crate::text::dec(
                            recorded as int,
                        ) + ", observed live syscall-exit nr="@ + crate::text::dec(number as int)
                            + " (pid="@ + crate::text::dec(s.pid as int) + ")"@,
                    )
                } else {
                    Ok(
                        ReplayStep {
                            next: Replaying {
                                cursor: i + 1,
                                pending: None,
                                phase: Phase::Running,
                                ..s
                            },
                            orders: resume(s.events, i + 1, 0),
                        },
                    )
                },
                Event::SyscallEnter { event_id, .. } => Err(
                    diverged_at(event_id) + "syscall-enter, observed live syscall-exit"@,
                ),
                Event::SignalDelivery { event_id, signal_number, .. } => Err(
                    diverged_at(event_id) + "signal "@ + crate::text::dec(signal_number as int)
                        + ", observed live syscall-exit"@,
                ),
                e => Err(
                    diverged_at(e.id()) + "KernelMemoryWrite, observed live syscall-exit"@,
                ),
            }
        },
    }
}

pub open spec fn memory_note(e: Event, live_address: u64, recorded: i64, result: i64) -> Seq<char> {
    "replay-memory event="@ + crate::text::dec(e.id() as int)
        + " syscall=read recorded_addr=0x"@ + crate::text::hex(
        e->KernelMemoryWrite_recorded_address as int,
    ) + " live_addr=0x"@ + crate::text::hex(live_address as int) + " len="@ + crate::text::dec(
        e->KernelMemoryWrite_data.len() as int,
    ) + " suppressed="@ + crate::text::dec(result as int) + " injected_result="@
        + crate::text::dec(recorded as int)
}

pub open spec fn syscall_step(s: Replaying, info: SyscallInfo) -> Result<ReplayStep, Seq<char>> {
    match info {
        SyscallInfo::Entry { number, args } => entry_step(s, number, args@),
        SyscallInfo::Exit { result, is_error } => exit_step(s, result, is_error),
        _ => Err(
            "replay divergence: unexpected ptrace_syscall_info op "@ + crate::text::dec(
                info_op(info) as int,
            ) + " for pid "@ + crate::text::dec(s.pid as int),
        ),
    }
}

/// The effect of a report, or what ends the replay.
pub open spec fn replay_step(s: Replaying, report: Report) -> Result<ReplayStep, Seq<char>> {
    if expected(s.phase, report) {
        expected_step(s, report)
    } else {
        Err("report does not fit the state of the replay"@)
    }
}

/// The effect of a report that the phase waits for.
pub open spec fn expected_step(s: Replaying, report: Report) -> Result<ReplayStep, Seq<char>> {
    match (s.phase, report) {
        (Phase::Launched, Report::Status(status)) => launched_step(s, status),
        (Phase::LaunchStop, Report::Syscall(info)) => launch_stop_step(s, info),
        (Phase::Running, Report::Status(status)) => status_step(s, status),
        (Phase::SyscallStop, Report::Syscall(info)) => syscall_step(s, info),
        (Phase::SignalStop { index }, Report::Signal(info)) => signal_step(s, index as int, info),
        _ => arbitrary(),
    }
}

/// The outcome of a step. A replay that failed is at its end.
pub open spec fn replay_outcome(
    expected: Result<ReplayStep, Seq<char>>,
    before: Replaying,
    after: Replaying,
    r: Result<Vec<ReplayCommand>, String>,
) -> bool {
    match expected {
        Err(text) => {
            &&& r is Err
            &&& r->Err_0@ == text
            &&& after == (Replaying { phase: Phase::Ended, ..before })
        },
        Ok(step) => {
            &&& r is Ok
            &&& orders(r->Ok_0@) == step.orders
            &&& after == step.next
        },
    }
}

/// The outcome of a step before a failure has been dealt with.
spec fn step_outcome(
    expected: Result<ReplayStep, Seq<char>>,
    before: Replaying,
    after: Replaying,
    r: Result<Vec<ReplayCommand>, String>,
) -> bool {
    match expected {
        Err(text) => r is Err && r->Err_0@ == text && after == before,
        Ok(_) => replay_outcome(expected, before, after, r),
    }
}

/// How far a replay has come.
#[derive(Clone, Copy)]
struct Point {
    cursor: usize,
    pending: Option<PendingReplaySyscall>,
    performed: usize,
    delivered: Option<i32>,
    phase: Phase,
}

/// Decides what happens at each stop of a process that is replayed.
pub struct Replayer {
    pid: i32,
    version: u32,
    events: Vec<TraceEvent>,
    at: Point,
}

impl View for Replayer {
    type V = Replaying;

    closed spec fn view(&self) -> Replaying {
        Replaying {
            pid: self.pid,
            version: self.version,
            events: crate::trace::event_views(self.events@),
            cursor: self.at.cursor as int,
            pending: self.at.pending,
            performed: self.at.performed as int,
            delivered: self.at.delivered,
            phase: self.at.phase,
        }
    }
}

pub proof fn lemma_upcoming(es: Seq<Event>, i: int)
    requires
        0 <= i <= es.len(),
    ensures
        i <= upcoming(es, i) <= es.len(),
        upcoming(es, i) < es.len() ==> !es[upcoming(es, i)].is_map_metadata(),
        forall|k: int| i <= k < upcoming(es, i) ==> (#[trigger] es[k]).is_map_metadata(),
    decreases es.len() - i,
{
    if i < es.len() && es[i].is_map_metadata() {
        lemma_upcoming(es, i + 1);
    }
}

fn unfit() -> (r: Result<Vec<ReplayCommand>, String>)
    ensures
        r is Err,
        r->Err_0@ == "report does not fit the state of the replay"@,
{
    Err(Line::new("report does not fit the state of the replay").done())
}

fn diverged(event_id: u64) -> (line: Line)
    ensures
        line@ == diverged_at(event_id),
{
    Line::new("replay divergence at recorded event ").dec(event_id).lit(": expected ")
}

/// The number by which the kernel tells the kinds of syscall stop apart.
pub fn syscall_info_op(info: SyscallInfo) -> (op: u8)
    ensures
        op == info_op(info),
{
    match info {
        SyscallInfo::Nothing => 0,
        SyscallInfo::Entry { .. } => 1,
        SyscallInfo::Exit { .. } => 2,
        SyscallInfo::Seccomp { .. } => 3,
        SyscallInfo::Unknown { op } => op,
    }
}

/// The syscall number to put in place of `number` so that the kernel skips the syscall, if the
/// process is about to make that syscall.
pub fn suppressed_number(pid: i32, number: u64, orig_rax: u64) -> (r: Result<u64, String>)
    requires
        crate::trace::substituted(number),
    ensures
        if orig_rax == number {
            r == Ok::<u64, String>(NO_SYSCALL)
        } else {
            r is Err && r->Err_0@ == "replay invariant violation: regs.orig_rax ("@
                + crate::text::dec(orig_rax as int) + ") != "@ + crate::trace::substituted_name(
                number,
            ) + " ("@ + crate::text::dec(number as int) + ") at syscall enter for pid "@
                + crate::text::dec(pid as int)
        },
{
    if orig_rax != number {
        return Err(
            Line::new("replay invariant violation: regs.orig_rax (").dec(orig_rax).lit(
                ") != ",
            ).lit(substituted_syscall_name(number)).lit(" (").dec(number).lit(
                ") at syscall enter for pid ",
            ).signed(pid as i64).done(),
        );
    }
    Ok(NO_SYSCALL)
}

impl Replayer {
    #[verifier::type_invariant]
    spec fn sound(self) -> bool {
        &&& self.at.performed <= self.at.cursor <= self.events@.len()
        &&& match self.at.phase {
            Phase::SignalStop { index } => {
                &&& self.at.cursor <= index < self.events@.len()
                &&& self.events@[index as int]@ is SignalDelivery
            },
            _ => true,
        }
    }

    /// A replay of `trace` by the process `pid`, which has just been launched.
    pub fn new(pid: i32, trace: ParsedTrace) -> (r: Replayer)
        ensures
            r@ == (Replaying {
                pid,
                version: trace@.version,
                events: trace@.events,
                cursor: 0,
                pending: None,
                performed: 0,
                delivered: None,
                phase: Phase::Launched,
            }),
    {
        Replayer {
            pid,
            version: trace.version,
            events: trace.events,
            at: Point {
                cursor: 0,
                pending: None,
                performed: 0,
                delivered: None,
                phase: Phase::Launched,
            },
        }
    }

    pub fn phase(&self) -> (p: Phase)
        ensures
            p == self@.phase,
    {
        self.at.phase
    }

    fn next_event(&self, from: usize) -> (i: usize)
        requires
            from <= self@.events.len(),
        ensures
            i == upcoming(self@.events, from as int),
            from <= i <= self@.events.len(),
    {
        let ghost es = self@.events;
        let mut i: usize = from;
        while i < self.events.len()
            invariant
                es == self@.events,
                es.len() == self.events@.len(),
                from <= i <= es.len(),
                upcoming(es, from as int) == upcoming(es, i as int),
            decreases self.events.len() - i,
        {
            assert(es[i as int] == self.events@[i as int]@);
            match &self.events[i] {
                TraceEvent::MemoryMapSnapshot { .. } => {},
                TraceEvent::MemoryMapAdd { .. } => {},
                TraceEvent::MemoryMapRemove { .. } => {},
                _ => {
                    return i;
                },
            }
            i += 1;
        }
        i
    }

    /// Appends the commands that let the process go on.
    fn resume_with(&self, commands: Vec<ReplayCommand>, cursor: usize, signal: i32) -> (v: Vec<
        ReplayCommand,
    >)
        requires
            cursor <= self@.events.len(),
        ensures
            orders(v@) == orders(commands@) + resume(self@.events, cursor as int, signal),
    {
        let ghost es = self@.events;
        let ghost before = orders(commands@);
        let mut v = commands;
        let i: usize = self.next_event(cursor);
        if i < self.events.len() {
            assert(es[i as int] == self.events@[i as int]@);
            if let TraceEvent::SignalDelivery { signal_number, .. } = &self.events[i] {
                v.push(ReplayCommand::Arm(*signal_number));
            }
        }
        v.push(ReplayCommand::Resume(signal));
        proof {
            assert(orders(v@) =~= before + resume(es, cursor as int, signal));
        }
        v
    }

    fn on_launched(&mut self, status: i32) -> (r: Result<Vec<ReplayCommand>, String>)
        ensures
            step_outcome(launched_step(old(self)@, status), old(self)@, final(self)@, r),
    {
        proof {
            use_type_invariant(&*self);
        }
        if !libc::WIFSTOPPED(status) || libc::WSTOPSIG(status) != SYSCALL_STOP {
            return Err(
                Line::new("expected initial bootstrap execve syscall exit stop for pid ").signed(
                    self.pid as i64,
                ).lit(", got status 0x").hex(to_unsigned32(status) as u64).done(),
            );
        }
        self.at = Point { phase: Phase::LaunchStop, ..self.at };
        let v = vec![ReplayCommand::QuerySyscall];
        assert(orders(v@) =~= seq![Order::QuerySyscall]);
        Ok(v)
    }

    fn on_launch_stop(&mut self, info: SyscallInfo) -> (r: Result<Vec<ReplayCommand>, String>)
        ensures
            step_outcome(launch_stop_step(old(self)@, info), old(self)@, final(self)@, r),
    {
        proof {
            use_type_invariant(&*self);
        }
        match info {
            SyscallInfo::Exit { .. } => {
                self.at = Point { phase: Phase::Running, ..self.at };
                let v = self.resume_with(Vec::new(), self.at.cursor, 0);
                proof {
                    let es = self@.events;
                    assert(orders(v@) =~= resume(es, self@.cursor, 0));
                }
                Ok(v)
            },
            _ => Err(
                Line::new(
                    "expected PTRACE_SYSCALL_INFO_EXIT for initial bootstrap stop on pid ",
                ).signed(self.pid as i64).lit(", got op ").dec(
                    syscall_info_op(info) as u64,
                ).done(),
            ),
        }
    }

    fn append_remaining(&self, line: Line, i: usize) -> (out: Line)
        requires
            i < self@.events.len(),
        ensures
            out@ == line@ + remaining(self@.events, i as int),
    {
        let ghost start = line@;
        assert(self@.events[i as int] == self.events@[i as int]@);
        let out = line.dec(self.events[i].event_id()).lit("; ").dec(
            (self.events.len() - i) as u64,
        ).lit(" recorded events remaining in trace");
        proof {
            assert(out@ =~= start + remaining(self@.events, i as int));
        }
        out
    }

    fn on_status(&mut self, status: i32) -> (r: Result<Vec<ReplayCommand>, String>)
        ensures
            step_outcome(status_step(old(self)@, status), old(self)@, final(self)@, r),
    {
        proof {
            use_type_invariant(&*self);
        }
        let i: usize = self.next_event(self.at.cursor);
        let ghost es = self@.events;
        match decode_status(status) {
            WaitStatus::Exited(code) => {
                let may_end: bool = match self.at.pending {
                    None => true,
                    Some(PendingReplaySyscall::Passthrough { number, .. }) => number
                        == SYS_EXIT_X86_64 || number == SYS_EXIT_GROUP_X86_64,
                    _ => false,
                };
                if !may_end {
                    return Err(
                        Line::new(
                            "replay divergence: tracee exited while non-terminating syscall was pending",
                        ).done(),
                    );
                }
                if i < self.events.len() {
                    return Err(
                        self.append_remaining(
                            Line::new(
                                "replay divergence: tracee exited prematurely at recorded event ",
                            ),
                            i,
                        ).done(),
                    );
                }
                if self.at.performed == 0 {
                    return Err(
                        Line::new(
                            "replay failed: no substitution was performed during execution",
                        ).done(),
                    );
                }
                self.at = Point { phase: Phase::Ended, ..self.at };
                let v = vec![ReplayCommand::Done(TraceeTermination::Exited(code))];
                assert(orders(v@) =~= seq![Order::Done(TraceeTermination::Exited(code))]);
                Ok(v)
            },
            WaitStatus::Signaled(signal) => {
                let delivered: bool = match self.at.delivered {
                    Some(last) => last == signal,
                    None => false,
                };
                if !delivered {
                    return Err(
                        Line::new(
                            "replay divergence: tracee terminated unexpectedly by signal ",
                        ).signed(signal as i64).done(),
                    );
                }
                if i < self.events.len() {
                    return Err(
                        self.append_remaining(
                            Line::new(
                                "replay divergence: tracee terminated prematurely at recorded event ",
                            ),
                            i,
                        ).done(),
                    );
                }
                self.at = Point { phase: Phase::Ended, ..self.at };
                let v = vec![ReplayCommand::Done(TraceeTermination::Signaled(signal))];
                assert(orders(v@) =~= seq![Order::Done(TraceeTermination::Signaled(signal))]);
                Ok(v)
            },
            WaitStatus::Stopped { signal, event } => {
                if event != 0 {
                    return Err(
                        Line::new("replay divergence: unexpected ptrace event ").dec(
                            event as u64,
                        ).lit(" for pid ").signed(self.pid as i64).done(),
                    );
                }
                if signal == SYSCALL_STOP {
                    self.at = Point { delivered: None, phase: Phase::SyscallStop, ..self.at };
                    let v = vec![ReplayCommand::QuerySyscall];
                    assert(orders(v@) =~= seq![Order::QuerySyscall]);
                    return Ok(v);
                }
                if i < self.events.len() {
                    assert(es[i as int] == self.events@[i as int]@);
                    if let TraceEvent::SignalDelivery {
                        event_id,
                        signal_number,
                        siginfo_bytes,
                        ..
                    } = &self.events[i] {
                        if *signal_number != signal {
                            return Err(
                                diverged(*event_id).lit("signal ").signed(
                                    *signal_number as i64,
                                ).lit(", observed live signal ").signed(signal as i64).lit(
                                    " (pid=",
                                ).signed(self.pid as i64).lit(")").done(),
                            );
                        }
                        let info = copy_range(siginfo_bytes.as_slice(), 0, siginfo_bytes.len());
                        assert(info@ =~= siginfo_bytes@);
                        let v = vec![ReplayCommand::RestoreSignal(info)];
                        assert(orders(v@) =~= seq![Order::RestoreSignal(info@)]);
                        self.at = Point { phase: Phase::SignalStop { index: i }, ..self.at };
                        return Ok(v);
                    }
                }
                Err(
                    Line::new("replay divergence: unrecorded live signal ").signed(
                        signal as i64,
                    ).lit(" on pid ").signed(self.pid as i64).done(),
                )
            },
            WaitStatus::Other => Err(
                Line::new("replay divergence: unexpected wait status 0x").hex(
                    to_unsigned32(status) as u64,
                ).lit(" for pid ").signed(self.pid as i64).done(),
            ),
        }
    }

    fn on_signal(&mut self, index: usize, info: &Vec<u8>) -> (r: Result<
        Vec<ReplayCommand>,
        String,
    >)
        requires
            old(self)@.phase == (Phase::SignalStop { index }),
            info@.len() == SIGINFO_SIZE_X86_64,
        ensures
            step_outcome(signal_step(old(self)@, index as int, info@), old(self)@, final(self)@, r),
    {
        proof {
            use_type_invariant(&*self);
        }
        let ghost es = self@.events;
        assert(es[index as int] == self.events@[index as int]@);
        let fields = read_signal_fields(info.as_slice());
        let count: usize = self.events.len();
        assert(index < count);
        match &self.events[index] {
            TraceEvent::SignalDelivery { event_id, signal_number, si_errno, si_code, .. } => {
                let signal: i32 = *signal_number;
                if fields.signo != signal || fields.errno != *si_errno || fields.code
                    != *si_code {
                    return Err(
                        diverged(*event_id).lit("restored siginfo of signal ").signed(
                            signal as i64,
                        ).lit(", observed si_signo ").signed(fields.signo as i64).lit(
                            ", si_errno ",
                        ).signed(fields.errno as i64).lit(", si_code ").signed(
                            fields.code as i64,
                        ).lit(" (pid=").signed(self.pid as i64).lit(")").done(),
                    );
                }
                self.at = Point {
                    cursor: index + 1,
                    performed: self.at.performed + 1,
                    delivered: Some(signal),
                    phase: Phase::Running,
                    ..self.at
                };
                let v = self.resume_with(Vec::new(), index + 1, signal);
                proof {
                    assert(orders(v@) =~= resume(es, index + 1, signal));
                }
                Ok(v)
            },
            _ => Ok(Vec::new()),
        }
    }

    /// Finds the recorded exit of the substituted syscall whose entry stands at `i`.
    fn find_exit(&self, i: usize, number: u64) -> (r: Result<(u64, i64), String>)
        requires
            i < self@.events.len(),
            crate::trace::substituted(number),
        ensures
            match recorded_exit(self@, i as int, number) {
                Ok(found) => r == Ok::<(u64, i64), String>(found),
                Err(text) => r is Err && r->Err_0@ == text,
            },
    {
        let ghost es = self@.events;
        let count: usize = self.events.len();
        let k: usize = self.next_event(i + 1);
        let name = substituted_syscall_name(number);
        if k >= count {
            assert(es[i as int] == self.events@[i as int]@);
            return Err(
                Line::new("replay divergence: trace ended after ").lit(name).lit(
                    " enter event ",
                ).dec(self.events[i].event_id()).done(),
            );
        }
        let event = &self.events[k];
        assert(es[k as int] == event@);
        match event {
            TraceEvent::SyscallExit { event_id, number: exit_number, result, .. } => {
                if *exit_number != number {
                    return Err(
                        Line::new("replay divergence: recorded event ").dec(*event_id).lit(
                            " is SyscallExit nr=",
                        ).dec(*exit_number).lit(", expected ").lit(name).done(),
                    );
                }
                if number == SYS_READ_X86_64 && self.version < TRACE_VERSION_2 && *result > 0 {
                    return Err(
                        Line::new(
                            "V1 trace cannot replay SYS_read memory output; record again with Trace Format V2",
                        ).done(),
                    );
                }
                Ok((*event_id, *result))
            },
            _ => Err(
                Line::new("replay divergence: recorded event ").dec(event.event_id()).lit(
                    " is not SyscallExit for ",
                ).lit(name).done(),
            ),
        }
    }

    fn observed_entry(&self, line: Line, number: u64) -> (out: Line)
        ensures
            out@ == line@ + (", observed live syscall-enter nr="@ + crate::text::dec(number as int)
                + " (pid="@ + crate::text::dec(self@.pid as int) + ")"@),
    {
        let ghost start = line@;
        let out = line.lit(", observed live syscall-enter nr=").dec(number).lit(" (pid=").signed(
            self.pid as i64,
        ).lit(")");
        proof {
            assert(out@ =~= start + (", observed live syscall-enter nr="@ + crate::text::dec(
                number as int,
            ) + " (pid="@ + crate::text::dec(self.pid as int) + ")"@));
        }
        out
    }

    fn on_entry(&mut self, number: u64, args: &[u64; 6]) -> (r: Result<Vec<ReplayCommand>, String>)
        ensures
            step_outcome(entry_step(old(self)@, number, args@), old(self)@, final(self)@, r),
    {
        proof {
            use_type_invariant(&*self);
        }
        let ghost es = self@.events;
        if self.at.pending.is_some() {
            return Err(
                Line::new("replay divergence on pid ").signed(self.pid as i64).lit(
                    ": received syscall-enter nr=",
                ).dec(number).lit(" while another syscall is still pending").done(),
            );
        }
        let i: usize = self.next_event(self.at.cursor);
        proof {
            lemma_upcoming(es, self.at.cursor as int);
        }
        if i >= self.events.len() {
            return Err(
                Line::new("replay divergence: extra live syscall-enter nr=").dec(number).lit(
                    " on pid ",
                ).signed(self.pid as i64).lit(" after trace exhausted").done(),
            );
        }
        assert(es[i as int] == self.events@[i as int]@);
        match &self.events[i] {
            TraceEvent::SyscallEnter { event_id, number: recorded, args: recorded_args, .. } => {
                let enter_id: u64 = *event_id;
                if *recorded != number {
                    return Err(
                        self.observed_entry(
                            diverged(enter_id).lit("syscall-enter nr=").dec(*recorded),
                            number,
                        ).done(),
                    );
                }
                if number == SYS_READ_X86_64 && args[2] != recorded_args[2] {
                    return Err(
                        diverged(enter_id).lit("read count ").dec(recorded_args[2]).lit(
                            ", observed live count ",
                        ).dec(args[2]).lit(" (pid=").signed(self.pid as i64).lit(")").done(),
                    );
                }
                if is_substituted_syscall(number) {
                    let (exit_id, result) = match self.find_exit(i, number) {
                        Err(text) => {
                            return Err(text);
                        },
                        Ok(found) => found,
                    };
                    let call = if number == SYS_GETPID_X86_64 {
                        PendingReplaySyscall::SubstitutedGetpid {
                            recorded_enter_event_id: enter_id,
                            recorded_exit_event_id: exit_id,
                            recorded_result: result,
                        }
                    } else {
                        PendingReplaySyscall::SubstitutedRead {
                            recorded_enter_event_id: enter_id,
                            recorded_exit_event_id: exit_id,
                            recorded_result: result,
                            live_buffer_address: args[1],
                            live_count: args[2],
                        }
                    };
                    self.at = Point {
                        cursor: i + 1,
                        pending: Some(call),
                        phase: Phase::Running,
                        ..self.at
                    };
                    let v = vec![ReplayCommand::Suppress { number }];
                    assert(orders(v@) =~= seq![Order::Suppress { number }]);
                    return Ok(self.resume_with(v, i + 1, 0));
                }
                self.at = Point {
                    cursor: i + 1,
                    pending: Some(
                        PendingReplaySyscall::Passthrough {
                            number,
                            recorded_enter_event_id: enter_id,
                        },
                    ),
                    phase: Phase::Running,
                    ..self.at
                };
                let v = self.resume_with(Vec::new(), i + 1, 0);
                proof {
                    assert(orders(v@) =~= resume(es, i + 1, 0));
                }
                Ok(v)
            },
            TraceEvent::SyscallExit { event_id, number: recorded, .. } => Err(
                self.observed_entry(
                    diverged(*event_id).lit("syscall-exit nr=").dec(*recorded),
                    number,
                ).done(),
            ),
            TraceEvent::SignalDelivery { event_id, signal_number, .. } => Err(
                self.observed_entry(
                    diverged(*event_id).lit("signal ").signed(*signal_number as i64),
                    number,
                ).done(),
            ),
            event => Err(
                self.observed_entry(
                    diverged(event.event_id()).lit("KernelMemoryWrite"),
                    number,
                ).done(),
            ),
        }
    }

    /// Checks that the suppressed syscall `name` is left where its recorded exit comes next.
    fn check_substitution(&self, i: usize, exit_id: u64, result: i64, is_error: u8, name: &str) -> (r:
        Result<(), String>)
        ensures
            match substitution_complaint(
                self@,
                i as int,
                exit_id,
                result,
                is_error,
                name@,
            ) {
                None => r is Ok && i < self@.events.len(),
                Some(text) => r is Err && r->Err_0@ == text,
            },
    {
        let ghost es = self@.events;
        if i >= self.events.len() {
            return Err(
                Line::new("replay divergence on pid ").signed(self.pid as i64).lit(
                    ": trace exhausted at live syscall-exit for ",
                ).lit(name).done(),
            );
        }
        assert(es[i as int] == self.events@[i as int]@);
        let found: u64 = self.events[i].event_id();
        if found != exit_id {
            return Err(
                Line::new("replay divergence: expected recorded exit event ").dec(exit_id).lit(
                    ", got ",
                ).dec(found).done(),
            );
        }
        if result != SUPPRESSED_RESULT {
            return Err(
                Line::new("replay suppression failure at event ").dec(exit_id).lit(
                    ": expected suppression sentinel -ENOSYS (",
                ).signed(SUPPRESSED_RESULT).lit("), observed exit result ").signed(result).lit(
                    " (is_error=",
                ).dec(is_error as u64).lit(", pid=").signed(self.pid as i64).lit(")").done(),
            );
        }
        Ok(())
    }

    /// The commands that give a suppressed syscall its recorded result.
    fn substitute(&mut self, i: usize, exit_id: u64, name: &str, recorded: i64, result: i64) -> (v:
        Vec<ReplayCommand>)
        requires
            old(self)@.cursor <= i < old(self)@.events.len(),
        ensures
            final(self)@ == (Replaying {
                cursor: i + 1,
                pending: None,
                performed: old(self)@.performed + 1,
                phase: Phase::Running,
                ..old(self)@
            }),
            orders(v@) == seq![
                Order::SetResult(crate::bytes::unsigned_of(recorded)),
                Order::Note(substitute_note(old(self)@.pid, exit_id, name@, recorded, result)),
            ] + resume(old(self)@.events, i + 1, 0),
    {
        proof {
            use_type_invariant(&*self);
        }
        let ghost s = self@;
        let note = Line::new("replay-substitute event=").dec(exit_id).lit(" syscall=").lit(
            name,
        ).lit(" recorded=").signed(recorded).lit(" live_pid=").signed(self.pid as i64).lit(
            " suppressed=",
        ).signed(result).lit(" injected=").signed(recorded).done();
        let count: usize = self.events.len();
        assert(i < count);
        self.at = Point {
            cursor: i + 1,
            pending: None,
            performed: self.at.performed + 1,
            phase: Phase::Running,
            ..self.at
        };
        let v = vec![
            ReplayCommand::SetResult(to_unsigned(recorded)),
            ReplayCommand::Note(note),
        ];
        assert(orders(v@) =~= seq![
            Order::SetResult(crate::bytes::unsigned_of(recorded)),
            Order::Note(substitute_note(s.pid, exit_id, name@, recorded, result)),
        ]);
        self.resume_with(v, i + 1, 0)
    }

    /// Finds the recorded data of the read whose exit stands at `i`.
    fn find_data(&self, i: usize, exit_id: u64, recorded: i64, live_count: u64) -> (r: Result<
        usize,
        String,
    >)
        requires
            i < self@.events.len(),
            recorded > 0,
        ensures
            match recorded_data(self@, i as int, exit_id, recorded, live_count) {
                Ok(k) => r is Ok && r->Ok_0 == k && i < k < self@.events.len() && self@.events[k]
                    is KernelMemoryWrite,
                Err(text) => r is Err && r->Err_0@ == text,
            },
    {
        let ghost es = self@.events;
        let count: usize = self.events.len();
        let k: usize = self.next_event(i + 1);
        if k >= count {
            return Err(
                Line::new("replay divergence on pid ").signed(self.pid as i64).lit(
                    ": trace exhausted awaiting KernelMemoryWrite for read exit event ",
                ).dec(exit_id).done(),
            );
        }
        let event = &self.events[k];
        assert(es[k as int] == event@);
        match event {
            TraceEvent::KernelMemoryWrite { event_id, source_event_id, data, .. } => {
                if *source_event_id != exit_id {
                    return Err(
                        Line::new("replay divergence: KernelMemoryWrite event ").dec(
                            *event_id,
                        ).lit(" source_event_id ").dec(*source_event_id).lit(
                            " does not match read exit event ",
                        ).dec(exit_id).done(),
                    );
                }
                if data.len() as u64 != recorded as u64 {
                    return Err(
                        Line::new("replay divergence: KernelMemoryWrite event ").dec(
                            *event_id,
                        ).lit(" data length ").dec(data.len() as u64).lit(
                            " does not match recorded result ",
                        ).signed(recorded).done(),
                    );
                }
                if recorded as u64 > live_count {
                    return Err(
                        Line::new("replay divergence: recorded read result ").signed(
                            recorded,
                        ).lit(" exceeds live count ").dec(live_count).done(),
                    );
                }
                Ok(k)
            },
            _ => Err(
                Line::new(
                    "replay divergence: expected KernelMemoryWrite after read exit event ",
                ).dec(exit_id).lit(", got event ").dec(event.event_id()).done(),
            ),
        }
    }

    /// The commands that give a suppressed read its recorded data and result.
    fn substitute_data(&mut self, k: usize, address: u64, recorded: i64, result: i64) -> (v: Vec<
        ReplayCommand,
    >)
        requires
            old(self)@.cursor <= k < old(self)@.events.len(),
            old(self)@.events[k as int] is KernelMemoryWrite,
        ensures
            final(self)@ == (Replaying {
                cursor: k + 1,
                pending: None,
                performed: old(self)@.performed + 1,
                phase: Phase::Running,
                ..old(self)@
            }),
            orders(v@) == seq![
                Order::WriteMemory {
                    event_id: old(self)@.events[k as int].id(),
                    address,
                    data: old(self)@.events[k as int]->KernelMemoryWrite_data,
                },
                Order::SetResult(crate::bytes::unsigned_of(recorded)),
                Order::Note(
                    memory_note(old(self)@.events[k as int], address, recorded, result),
                ),
            ] + resume(old(self)@.events, k + 1, 0),
    {
        proof {
            use_type_invariant(&*self);
        }
        let ghost s = self@;
        let ghost e = s.events[k as int];
        assert(e == self.events@[k as int]@);
        let mut commands: Vec<ReplayCommand> = Vec::new();
        match &self.events[k] {
            TraceEvent::KernelMemoryWrite { event_id, recorded_address, data, .. } => {
                let note = Line::new("replay-memory event=").dec(*event_id).lit(
                    " syscall=read recorded_addr=0x",
                ).hex(*recorded_address).lit(" live_addr=0x").hex(address).lit(" len=").dec(
                    data.len() as u64,
                ).lit(" suppressed=").signed(result).lit(" injected_result=").signed(
                    recorded,
                ).done();
                let copied = copy_range(data.as_slice(), 0, data.len());
                assert(copied@ =~= data@);
                commands.push(
                    ReplayCommand::WriteMemory { event_id: *event_id, address, data: copied },
                );
                commands.push(ReplayCommand::SetResult(to_unsigned(recorded)));
                commands.push(ReplayCommand::Note(note));
                assert(orders(commands@) =~= seq![
                    Order::WriteMemory {
                        event_id: e.id(),
                        address,
                        data: e->KernelMemoryWrite_data,
                    },
                    Order::SetResult(crate::bytes::unsigned_of(recorded)),
                    Order::Note(memory_note(e, address, recorded, result)),
                ]);
            },
            _ => {},
        }
        let count: usize = self.events.len();
        assert(k < count);
        self.at = Point {
            cursor: k + 1,
            pending: None,
            performed: self.at.performed + 1,
            phase: Phase::Running,
            ..self.at
        };
        self.resume_with(commands, k + 1, 0)
    }

    fn on_passthrough_exit(&mut self, i: usize, number: u64) -> (r: Result<
        Vec<ReplayCommand>,
        String,
    >)
        requires
            i == upcoming(old(self)@.events, old(self)@.cursor),
            old(self)@.pending is Some,
            old(self)@.pending->0 is Passthrough,
            old(self)@.pending->0->Passthrough_number == number,
        ensures
            forall|result: i64, is_error: u8|
                step_outcome(
                    #[trigger] exit_step(old(self)@, result, is_error),
                    old(self)@,
                    final(self)@,
                    r,
                ),
    {
        proof {
            use_type_invariant(&*self);
        }
        let ghost es = self@.events;
        proof {
            lemma_upcoming(es, self.at.cursor as int);
        }
        if i >= self.events.len() {
            return Err(
                Line::new("replay divergence on pid ").signed(self.pid as i64).lit(
                    ": trace exhausted at live syscall-exit for nr=",
                ).dec(number).done(),
            );
        }
        assert(es[i as int] == self.events@[i as int]@);
        match &self.events[i] {
            TraceEvent::SyscallExit { event_id, number: recorded, .. } => {
                if *recorded != number {
                    return Err(
                        diverged(*event_id).lit("syscall-exit nr=").dec(*recorded).lit(
                            ", observed live syscall-exit nr=",
                        ).dec(number).lit(" (pid=").signed(self.pid as i64).lit(")").done(),
                    );
                }
                self.at = Point {
                    cursor: i + 1,
                    pending: None,
                    phase: Phase::Running,
                    ..self.at
                };
                let v = self.resume_with(Vec::new(), i + 1, 0);
                proof {
                    assert(orders(v@) =~= resume(es, i + 1, 0));
                }
                Ok(v)
            },
            TraceEvent::SyscallEnter { event_id, .. } => Err(
                diverged(*event_id).lit("syscall-enter, observed live syscall-exit").done(),
            ),
            TraceEvent::SignalDelivery { event_id, signal_number, .. } => Err(
                diverged(*event_id).lit("signal ").signed(*signal_number as i64).lit(
                    ", observed live syscall-exit",
                ).done(),
            ),
            event => Err(
                diverged(event.event_id()).lit(
                    "KernelMemoryWrite, observed live syscall-exit",
                ).done(),
            ),
        }
    }

    fn on_exit(&mut self, result: i64, is_error: u8) -> (r: Result<Vec<ReplayCommand>, String>)
        ensures
            step_outcome(exit_step(old(self)@, result, is_error), old(self)@, final(self)@, r),
    {
        proof {
            use_type_invariant(&*self);
            lemma_upcoming(self@.events, self.at.cursor as int);
        }
        let i: usize = self.next_event(self.at.cursor);
        match self.at.pending {
            None => Err(
                Line::new("replay divergence on pid ").signed(self.pid as i64).lit(
                    ": received unexpected syscall-exit with no pending live syscall-enter",
                ).done(),
            ),
            Some(
                PendingReplaySyscall::SubstitutedGetpid {
                    recorded_exit_event_id,
                    recorded_result,
                    ..
                },
            ) => {
                match self.check_substitution(
                    i,
                    recorded_exit_event_id,
                    result,
                    is_error,
                    "getpid",
                ) {
                    Err(text) => {
                        return Err(text);
                    },
                    Ok(_) => {},
                }
                Ok(self.substitute(i, recorded_exit_event_id, "getpid", recorded_result, result))
            },
            Some(
                PendingReplaySyscall::SubstitutedRead {
                    recorded_exit_event_id,
                    recorded_result,
                    live_buffer_address,
                    live_count,
                    ..
                },
            ) => {
                match self.check_substitution(i, recorded_exit_event_id, result, is_error, "read") {
                    Err(text) => {
                        return Err(text);
                    },
                    Ok(_) => {},
                }
                if recorded_result > 0 {
                    let k: usize = match self.find_data(
                        i,
                        recorded_exit_event_id,
                        recorded_result,
                        live_count,
                    ) {
                        Err(text) => {
                            return Err(text);
                        },
                        Ok(k) => k,
                    };
                    return Ok(
                        self.substitute_data(k, live_buffer_address, recorded_result, result),
                    );
                }
                Ok(self.substitute(i, recorded_exit_event_id, "read", recorded_result, result))
            },
            Some(PendingReplaySyscall::Passthrough { number, .. }) => self.on_passthrough_exit(
                i,
                number,
            ),
        }
    }

    fn on_syscall(&mut self, info: SyscallInfo) -> (r: Result<Vec<ReplayCommand>, String>)
        ensures
            step_outcome(syscall_step(old(self)@, info), old(self)@, final(self)@, r),
    {
        match info {
            SyscallInfo::Entry { number, args } => self.on_entry(number, &args),
            SyscallInfo::Exit { result, is_error } => self.on_exit(result, is_error),
            _ => Err(
                Line::new("replay divergence: unexpected ptrace_syscall_info op ").dec(
                    syscall_info_op(info) as u64,
                ).lit(" for pid ").signed(self.pid as i64).done(),
            ),
        }
    }

    /// Takes a report into account: what to do next, or what ends the replay.
    pub fn step(&mut self, input: ReplayInput) -> (r: Result<Vec<ReplayCommand>, String>)
        ensures
            replay_outcome(replay_step(old(self)@, input@), old(self)@, final(self)@, r),
    {
        match self.take_report(input) {
            Ok(commands) => Ok(commands),
            Err(text) => {
                proof {
                    use_type_invariant(&*self);
                }
                self.at = Point { phase: Phase::Ended, ..self.at };
                Err(text)
            },
        }
    }

    fn take_report(&mut self, input: ReplayInput) -> (r: Result<Vec<ReplayCommand>, String>)
        ensures
            step_outcome(replay_step(old(self)@, input@), old(self)@, final(self)@, r),
    {
        match (self.at.phase, input) {
            (Phase::Launched, ReplayInput::Status(status)) => self.on_launched(status),
            (Phase::LaunchStop, ReplayInput::Syscall(info)) => self.on_launch_stop(info),
            (Phase::Running, ReplayInput::Status(status)) => self.on_status(status),
            (Phase::SyscallStop, ReplayInput::Syscall(info)) => self.on_syscall(info),
            (Phase::SignalStop { index }, ReplayInput::Signal(info)) => {
                if info.len() != SIGINFO_SIZE_X86_64 {
                    return unfit();
                }
                self.on_signal(index, &info)
            },
            _ => unfit(),
        }
    }
}

} // verus!
