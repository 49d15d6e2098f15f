//! What is said where a recording ends because it cannot go on.
use vstd::prelude::*;
use crate::recorder::{Phase, Recording, Report, SyscallInfo};
use crate::saying_laws::Saying;
use crate::status::WaitStatus;

verus! {

pub open spec fn truth_words(b: bool) -> Seq<char> {
    if b {
        "true"@
    } else {
        "false"@
    }
}

/// A status that ends the recording is told with what makes it unfit.
pub proof fn law_unfit_status_is_explained(s: Recording, status: i32)
    requires
        s.phase == Phase::Running,
        crate::recorder::record_step(s, Report::Status(status)) is Err,
    ensures
        ({
            let text = crate::recorder::record_step(s, Report::Status(status))->Err_0;
            match crate::status::wait_status(status) {
                WaitStatus::Stopped { signal, event } => crate::saying_laws::says(
                    text,
                    crate::saying_laws::line("unexpected ptrace event "@).number(
                        event as int,
                    ).words(" for pid "@).number(s.pid as int).words(": raw status=0x"@).hex(
                        crate::layout_laws::pattern32(status),
                        1,
                    ).words(", stop_sig="@).number(signal as int),
                ),
                WaitStatus::Signaled(signal) => crate::saying_laws::says(
                    text,
                    crate::saying_laws::line("pid "@).number(s.pid as int).words(
                        " terminated by signal "@,
                    ).number(signal as int).words(
                        " with no preceding recorded/injected signal delivery stop"@,
                    ),
                ),
                _ => crate::saying_laws::says(
                    text,
                    crate::saying_laws::line("unexpected wait status 0x"@).hex(
                        crate::layout_laws::pattern32(status),
                        1,
                    ).words(" for pid "@).number(s.pid as int).words(": WIFCONTINUED="@).words(
                        truth_words(status == 0xffff),
                    ),
                ),
            }
        }),
{
    broadcast use crate::saying_laws::group_says;

}

/// An event for which there is no number is told so; an event that the writer does not take is
/// told with its name and the reason of the writer.
pub open spec fn unwritten(s: Recording, name: Seq<char>, text: Seq<char>) -> bool {
    if s.progress->0.event_count >= 0xffff_ffff_ffff_fffe {
        text == "trace event ids are exhausted"@
    } else {
        exists|reason: Seq<char>|
            crate::saying_laws::says(
                text,
                #[trigger] crate::saying_laws::line("failed to write "@).words(name).words(
                    " trace event: "@,
                ).words(reason),
            )
    }
}

proof fn lemma_unwritten(s: Recording, e: crate::trace::Event, name: Seq<char>)
    requires
        s.progress is Some,
        crate::recorder::written(s.progress->0, e, name) is Err,
    ensures
        unwritten(s, name, crate::recorder::written(s.progress->0, e, name)->Err_0),
{
    broadcast use crate::saying_laws::group_says;

    let p = s.progress->0;
    if p.event_count < u64::MAX - 1 {
        let reason = crate::writer::refusal(p, e)->0;
        let text = crate::recorder::written(p, e, name)->Err_0;
        assert(crate::saying_laws::says(
            text,
            crate::saying_laws::line("failed to write "@).words(name).words(
                " trace event: "@,
            ).words(reason),
        ));
    }
}

/// A syscall stop that ends the recording is told with what does not pair.
pub proof fn law_unfit_syscall_stop_is_explained(s: Recording, info: SyscallInfo)
    requires
        s.phase is SyscallStop,
        crate::recorder::record_step(s, Report::Syscall(info)) is Err,
    ensures
        ({
            let text = crate::recorder::record_step(s, Report::Syscall(info))->Err_0;
            let status = s.phase->SyscallStop_status;
            match info {
                SyscallInfo::Entry { number, .. } => if s.pending is Some {
                    crate::saying_laws::says(
                        text,
                        crate::saying_laws::line(
                            "syscall pairing invariant violation for pid "@,
                        ).number(s.pid as int).words(": received ENTRY nr="@).number(
                            number as int,
                        ).words(" while previous syscall ENTRY nr="@).number(
                            s.pending->0.number as int,
                        ).words(" is still pending"@),
                    )
                } else {
                    unwritten(s, "SyscallEnter"@, text)
                },
                SyscallInfo::Exit { result, is_error } => if s.pending is None {
                    crate::saying_laws::says(
                        text,
                        crate::saying_laws::line(
                            "syscall pairing invariant violation for pid "@,
                        ).number(s.pid as int).words(": received unexpected EXIT (rval="@).number(
                            result as int,
                        ).words(", is_error="@).number(is_error as int).words(
                            ") with no pending syscall ENTRY"@,
                        ),
                    )
                } else {
                    unwritten(s, "SyscallExit"@, text)
                },
                SyscallInfo::Seccomp { number } => crate::saying_laws::says(
                    text,
                    crate::saying_laws::line("unsupported seccomp stop for pid "@).number(
                        s.pid as int,
                    ).words(": nr="@).number(number as int),
                ),
                SyscallInfo::Nothing => crate::saying_laws::says(
                    text,
                    crate::saying_laws::line("tracing invariant violation for pid "@).number(
                        s.pid as int,
                    ).words(
                        ": PTRACE_GET_SYSCALL_INFO returned NONE at syscall stop (status=0x"@,
                    ).hex(crate::layout_laws::pattern32(status), 1).words(")"@),
                ),
                SyscallInfo::Unknown { op } => crate::saying_laws::says(
                    text,
                    crate::saying_laws::line("unexpected ptrace_syscall_info op "@).number(
                        op as int,
                    ).words(" for pid "@).number(s.pid as int),
                ),
            }
        }),
{
    broadcast use crate::saying_laws::group_says;

    match info {
        SyscallInfo::Entry { number, args } => {
            if s.pending is None {
                lemma_unwritten(
                    s,
                    crate::trace::Event::SyscallEnter {
                        event_id: crate::recorder::next_id(s.progress->0),
                        tid: s.tid(),
                        number,
                        args: args@,
                    },
                    "SyscallEnter"@,
                );
            }
        },
        SyscallInfo::Exit { result, .. } => {
            if s.pending is Some {
                lemma_unwritten(
                    s,
                    crate::trace::Event::SyscallExit {
                        event_id: crate::recorder::next_id(s.progress->0),
                        tid: s.tid(),
                        number: s.pending->0.number,
                        result,
                    },
                    "SyscallExit"@,
                );
            }
        },
        _ => {},
    }
}

/// What is said of a signal that is not recorded.
pub open spec fn signal_trouble(s: Recording, signal: i32, signo: i32, code: i32) -> Saying {
    let head = crate::saying_laws::line("pid "@).number(s.pid as int).words(": "@);
    if signo != signal {
        head.words("siginfo si_signo "@).number(signo as int).words(
            " does not match stop signal "@,
        ).number(signal as int)
    } else if crate::signal_laws::out_of_reach(signal as int) {
        head.words("signal "@).number(signal as int).words(
            " is unsupported in M6 deterministic recording"@,
        )
    } else if !crate::signal_laws::from_a_process(code as int) {
        head.and(
            crate::saying_laws::line("signal "@).number(signal as int).words(
                " with unsupported si_code "@,
            ).number(code as int).words(
                " is outside M6 supported deterministic class (only SI_USER and SI_TKILL are supported)"@,
            ),
        )
    } else if !s.started {
        head.words("signal "@).number(signal as int).words(
            " delivered before initial bootstrap MemoryMapSnapshot"@,
        )
    } else {
        let number = match s.pending {
            Some(call) => call.number,
            None => s.interrupted->0,
        };
        head.words("signal "@).number(signal as int).words(" interposed inside pending "@).words(
            if number == 39 { "SYS_getpid"@ } else { "SYS_read"@ },
        ).words(
            "; signal interposition inside substituted SYS_read/SYS_getpid pairs is outside M6 deterministic replay scope"@,
        )
    }
}

/// A signal that ends the recording is told with why it cannot be recorded.
pub proof fn law_unfit_signal_is_explained(s: Recording, info: Seq<u8>)
    requires
        s.phase is SignalStop,
        info.len() == 128,
        s.progress is Some,
        s.progress->0.version >= 4,
        crate::account_laws::has_room(s),
        crate::recorder::record_step(s, Report::Signal(info)) is Err,
    ensures
        crate::saying_laws::says(
            crate::recorder::record_step(s, Report::Signal(info))->Err_0,
            signal_trouble(
                s,
                s.phase->SignalStop_signal,
                crate::signals::signal_fields(info).signo,
                crate::signals::signal_fields(info).code,
            ),
        ),
{
    broadcast use {crate::saying_laws::group_says, crate::saying_laws::lemma_says_and};

}

/// A listing that cannot be read, and data that is not as long as it should be, are told as
/// what they are.
pub proof fn law_unfit_memory_is_explained(s: Recording, bytes: Seq<u8>)
    ensures
        s.phase == Phase::FirstMaps && crate::proc_maps::listed_map(bytes) is Err
            ==> crate::saying_laws::says(
            crate::recorder::record_step(s, Report::Maps(bytes))->Err_0,
            crate::saying_laws::line("failed to capture initial process maps for pid "@).number(
                s.pid as int,
            ).words(": "@).words(crate::proc_maps::listed_map(bytes)->Err_0),
        ),
        s.phase is FreshMaps && crate::proc_maps::listed_map(bytes) is Err
            ==> crate::saying_laws::says(
            crate::recorder::record_step(s, Report::Maps(bytes))->Err_0,
            crate::saying_laws::line("failed to read process maps after syscall nr="@).number(
                s.phase->FreshMaps_number as int,
            ).words(" for pid "@).number(s.pid as int).words(": "@).words(
                crate::proc_maps::listed_map(bytes)->Err_0,
            ),
        ),
        s.phase is ReadData && bytes.len() != s.phase->ReadData_len ==> crate::saying_laws::says(
            crate::recorder::record_step(s, Report::Memory(bytes))->Err_0,
            crate::saying_laws::line("failed to capture read memory output for pid "@).number(
                s.pid as int,
            ).words(": process_vm_readv short transfer for pid "@).number(s.pid as int).words(
                ": requested "@,
            ).number(s.phase->ReadData_len as int).words(" bytes, read "@).number(
                bytes.len() as int,
            ),
        ),
{
    broadcast use crate::saying_laws::group_says;

}

/// A failed syscall after which the map is another one is told with its number and result.
pub proof fn law_unexpected_changes_are_explained(s: Recording, listing: Seq<u8>)
    requires
        s.phase is FreshMaps,
        s.progress is Some,
        s.model is Some,
        crate::proc_maps::listed_map(listing) is Ok,
        crate::account_laws::call_failed(s.phase->FreshMaps_number, s.phase->FreshMaps_result),
        crate::recorder::record_step(s, Report::Maps(listing)) is Err,
    ensures
        crate::saying_laws::says(
            crate::recorder::record_step(s, Report::Maps(listing))->Err_0,
            crate::saying_laws::line("failed mapping syscall nr="@).number(
                s.phase->FreshMaps_number as int,
            ).words(" (rval="@).number(s.phase->FreshMaps_result as int).words(
                ") produced unexpected map changes"@,
            ),
        ),
{
    broadcast use crate::saying_laws::group_says;

}

} // verus!
