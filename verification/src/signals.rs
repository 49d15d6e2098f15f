//! Which signals a trace can hold.
use vstd::prelude::*;
use crate::bytes::{read_u32, to_signed32};
use crate::text::Line;
use crate::trace::SIGINFO_SIZE_X86_64;

verus! {

pub const SIGTRAP: i32 = 5;

pub const SIGKILL: i32 = 9;

pub const SIGCONT: i32 = 18;

pub const SIGSTOP: i32 = 19;

pub const SIGTSTP: i32 = 20;

pub const SIGTTIN: i32 = 21;

pub const SIGTTOU: i32 = 22;

/// The code of a signal sent by `kill`.
pub const SI_USER: i32 = 0;

/// The code of a signal sent by `tkill` or `tgkill`.
pub const SI_TKILL: i32 = -6;

/// The stop signal of a syscall stop: the trap signal with the high bit set.
pub const SYSCALL_STOP: i32 = 0x85;

/// Signals that stop or continue a process, or cannot be caught.
pub open spec fn stopping(signal: i32) -> bool {
    signal == SIGKILL || signal == SIGSTOP || signal == SIGTSTP || signal == SIGTTIN || signal
        == SIGTTOU || signal == SIGCONT
}

/// Signals that a process sent, as against faults, timers and the like.
pub open spec fn sent_by_process(si_code: i32) -> bool {
    si_code == SI_USER || si_code == SI_TKILL
}

pub fn is_stopping_signal(signal: i32) -> (r: bool)
    ensures
        r == stopping(signal),
{
    signal == SIGKILL || signal == SIGSTOP || signal == SIGTSTP || signal == SIGTTIN || signal
        == SIGTTOU || signal == SIGCONT
}

pub fn is_process_signal(si_code: i32) -> (r: bool)
    ensures
        r == sent_by_process(si_code),
{
    si_code == SI_USER || si_code == SI_TKILL
}

/// The number, error and code that a `siginfo_t` begins with.
#[derive(Debug, Clone, Copy, PartialEq, Eq, Structural)]
pub struct SignalFields {
    pub signo: i32,
    pub errno: i32,
    pub code: i32,
}

pub open spec fn signal_fields(info: Seq<u8>) -> SignalFields {
    SignalFields {
        signo: crate::parser::i32_at(info, 0),
        errno: crate::parser::i32_at(info, 4),
        code: crate::parser::i32_at(info, 8),
    }
}

/// Reads the common fields of a raw `siginfo_t`.
pub fn read_signal_fields(info: &[u8]) -> (f: SignalFields)
    requires
        info@.len() == SIGINFO_SIZE_X86_64,
    ensures
        f == signal_fields(info@),
{
    SignalFields {
        signo: to_signed32(read_u32(info, 0)),
        errno: to_signed32(read_u32(info, 4)),
        code: to_signed32(read_u32(info, 8)),
    }
}

/// Why a signal is outside the supported class, in words that follow the signal's origin.
pub open spec fn unsupported_code_text(signal: i32, si_code: i32) -> Seq<char> {
    "signal "@ + crate::text::dec(signal as int) + " with unsupported si_code "@
        + crate::text::dec(si_code as int)
        + " is outside M6 supported deterministic class (only SI_USER and SI_TKILL are supported)"@
}

pub fn append_unsupported_code(line: Line, signal: i32, si_code: i32) -> (out: Line)
    ensures
        out@ == line@ + unsupported_code_text(signal, si_code),
{
    let ghost start = line@;
    let out = line.lit("signal ").signed(signal as i64).lit(" with unsupported si_code ").signed(
        si_code as i64,
    ).lit(
        " is outside M6 supported deterministic class (only SI_USER and SI_TKILL are supported)",
    );
    proof {
        assert(out@ =~= start + unsupported_code_text(signal, si_code));
    }
    out
}

} // verus!
