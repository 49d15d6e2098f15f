//! Which signals and syscalls are recorded and replayed.
use vstd::prelude::*;
use crate::signals::SignalFields;
use crate::trace::{Event, ParsedTrace, Trace};

verus! {

/// Signals that stop or continue a process or cannot be caught: SIGKILL, SIGCONT, SIGSTOP,
/// SIGTSTP, SIGTTIN and SIGTTOU.
pub open spec fn out_of_reach(signal: int) -> bool {
    signal == 9 || signal == 18 || signal == 19 || signal == 20 || signal == 21 || signal == 22
}

/// Codes of signals that a process sent: SI_USER and SI_TKILL.
pub open spec fn from_a_process(code: int) -> bool {
    code == 0 || code == -6
}

/// The syscalls whose results come out of the trace: `read` and `getpid`.
pub open spec fn is_read_or_getpid(number: int) -> bool {
    number == 0 || number == 39
}

/// The syscalls that change the memory map: `mmap`, `mprotect`, `munmap` and `brk`.
pub open spec fn changes_the_map(number: int) -> bool {
    number == 9 || number == 10 || number == 11 || number == 12
}

/// Exactly six signals are refused for their number.
pub proof fn law_refused_signals(signal: i32, r: bool)
    requires
        call_ensures(crate::signals::is_stopping_signal, (signal,), r),
    ensures
        r <==> out_of_reach(signal as int),
{
}

/// Exactly two codes mark a signal that a process sent.
pub proof fn law_codes_of_sent_signals(code: i32, r: bool)
    requires
        call_ensures(crate::signals::is_process_signal, (code,), r),
    ensures
        r <==> from_a_process(code as int),
{
}

/// A siginfo begins with the number, the error and the code, four bytes each.
pub proof fn law_siginfo_layout(info: &[u8], f: SignalFields)
    requires
        info@.len() == 128,
        call_ensures(crate::signals::read_signal_fields, (info,), f),
    ensures
        crate::layout_laws::number_at(info@, 0, 4) == crate::layout_laws::pattern32(f.signo),
        crate::layout_laws::number_at(info@, 4, 4) == crate::layout_laws::pattern32(f.errno),
        crate::layout_laws::number_at(info@, 8, 4) == crate::layout_laws::pattern32(f.code),
{
    lemma_fields(info@);
}

pub proof fn lemma_i32_at(b: Seq<u8>, at: int)
    requires
        0 <= at,
        at + 4 <= b.len(),
    ensures
        crate::layout_laws::number_at(b, at, 4) == crate::layout_laws::pattern32(
            crate::parser::i32_at(b, at),
        ),
{
    crate::bytes::lemma_bounds();
    crate::bytes::lemma_bytes_of_value(b.subrange(at, at + 4));
    crate::layout_laws::lemma_total(b.subrange(at, at + 4));
}

/// The fields of a siginfo by where they stand.
pub proof fn lemma_fields(info: Seq<u8>)
    requires
        info.len() == 128,
    ensures
        ({
            let f = crate::signals::signal_fields(info);
            &&& crate::layout_laws::number_at(info, 0, 4) == crate::layout_laws::pattern32(f.signo)
            &&& crate::layout_laws::number_at(info, 4, 4) == crate::layout_laws::pattern32(f.errno)
            &&& crate::layout_laws::number_at(info, 8, 4) == crate::layout_laws::pattern32(f.code)
        }),
{
    lemma_i32_at(info, 0);
    lemma_i32_at(info, 4);
    lemma_i32_at(info, 8);
}

/// Exactly `read` and `getpid` have their results come out of the trace.
pub proof fn law_substituted_syscalls(number: u64, r: bool)
    requires
        call_ensures(crate::trace::is_substituted_syscall, (number,), r),
    ensures
        r <==> is_read_or_getpid(number as int),
{
}

/// Exactly `mmap`, `mprotect`, `munmap` and `brk` have the memory map looked at.
pub proof fn law_mapping_syscalls(number: u64, r: bool)
    requires
        call_ensures(crate::trace::is_mapping_syscall, (number,), r),
    ensures
        r <==> changes_the_map(number as int),
{
}

/// The substituted syscalls go by their names.
pub proof fn law_names_of_substituted_syscalls(number: u64, s: &'static str)
    requires
        is_read_or_getpid(number as int),
        call_ensures(crate::trace::substituted_syscall_name, (number,), s),
    ensures
        number == 0 ==> s@ == "SYS_read"@,
        number == 39 ==> s@ == "SYS_getpid"@,
{
}

/// The syscall that the events before `i` entered and did not leave.
pub open spec fn call_in_progress(es: Seq<Event>, i: int) -> Option<u64>
    decreases i,
{
    if i <= 0 {
        None
    } else {
        match es[i - 1] {
            Event::SyscallEnter { number, .. } => Some(number),
            Event::SyscallExit { .. } => None,
            _ => call_in_progress(es, i - 1),
        }
    }
}

/// The event at `i` does not keep the trace from being replayed: a signal is one that a process
/// sent, outside the substituted syscalls, and not out of reach; `getpid` returned a process
/// id; and data that a `read` returned is in the trace, which it is not in format 1.
pub open spec fn event_can_be_replayed(t: Trace, i: int) -> bool {
    match t.events[i] {
        Event::SignalDelivery { signal_number, si_code, .. } => {
            &&& !out_of_reach(signal_number as int)
            &&& from_a_process(si_code as int)
            &&& match call_in_progress(t.events, i) {
                Some(number) => !is_read_or_getpid(number as int),
                None => true,
            }
        },
        Event::SyscallExit { number, result, .. } => {
            &&& number == 39 ==> 1 <= result <= 0x7fff_ffff
            &&& number == 0 && t.version < 2 ==> result <= 0
        },
        _ => true,
    }
}

/// Replay has something to do for the event: a result to give back, or a signal to deliver.
pub open spec fn event_is_given_back(e: Event) -> bool {
    match e {
        Event::SyscallExit { number, .. } => is_read_or_getpid(number as int),
        Event::SignalDelivery { .. } => true,
        _ => false,
    }
}

/// A trace can be replayed.
pub open spec fn can_be_replayed(t: Trace) -> bool {
    &&& t.events.len() > 0
    &&& forall|i: int|
        0 <= i < t.events.len() ==> (#[trigger] t.events[i]).thread() == t.events[0].thread()
    &&& forall|i: int|
        #![trigger t.events[i]]
        0 <= i < t.events.len() ==> event_can_be_replayed(t, i)
    &&& exists|i: int| 0 <= i < t.events.len() && event_is_given_back(#[trigger] t.events[i])
}

proof fn lemma_signals(t: Trace, i: int)
    requires
        0 <= i <= t.events.len(),
    ensures
        crate::replay::signal_complaint(t.events, i, call_in_progress(t.events, i)) is None <==> (
        forall|k: int|
            #![trigger t.events[k]]
            i <= k < t.events.len() && t.events[k] is SignalDelivery ==> event_can_be_replayed(
                t,
                k,
            )),
    decreases t.events.len() - i,
{
    if i < t.events.len() {
        lemma_signals(t, i + 1);
        let e = t.events[i];
        assert(call_in_progress(t.events, i + 1) == match e {
            Event::SyscallEnter { number, .. } => Some(number),
            Event::SyscallExit { .. } => None,
            _ => call_in_progress(t.events, i),
        });
    }
}

proof fn lemma_results(t: Trace, i: int)
    requires
        0 <= i <= t.events.len(),
    ensures
        crate::replay::result_complaint(t.version, t.events, i) is None <==> (forall|k: int|
            #![trigger t.events[k]]
            i <= k < t.events.len() && t.events[k] is SyscallExit ==> event_can_be_replayed(t, k)),
    decreases t.events.len() - i,
{
    if i < t.events.len() {
        lemma_results(t, i + 1);
        let e = t.events[i];
    }
}

proof fn lemma_preflight(t: Trace)
    ensures
        crate::replay::preflight_complaint(t) is None <==> can_be_replayed(t),
{
    let es = t.events;
    lemma_signals(t, 0);
    lemma_results(t, 0);
    assert forall|e: Event| #[trigger] crate::replay::replayable(e) == event_is_given_back(e) by {}
    if can_be_replayed(t) {
        let i = choose|i: int| 0 <= i < es.len() && event_is_given_back(#[trigger] es[i]);
        assert(crate::replay::replayable(es[i]));
    }
    if crate::replay::preflight_complaint(t) is None {
        let i = choose|i: int| 0 <= i < es.len() && crate::replay::replayable(#[trigger] es[i]);
        assert(event_is_given_back(es[i]));
        assert forall|i: int| #![trigger es[i]] 0 <= i < es.len() implies event_can_be_replayed(
            t,
            i,
        ) by {}
    }
}

/// The checks before a replay let exactly those traces through that can be replayed.
pub proof fn law_preflight_is_exact(trace: ParsedTrace, r: Result<(), String>)
    requires
        call_ensures(crate::replay::replay_preflight, (&trace,), r),
    ensures
        r is Ok <==> can_be_replayed(trace@),
{
    lemma_preflight(trace@);
}

} // verus!
