//! What the status word of a wait says.
use vstd::prelude::*;
use crate::bytes::to_unsigned32;

verus! {

/// `libc::WIFEXITED`: the low seven bits are zero.
pub assume_specification[ libc::WIFEXITED ](status: libc::c_int) -> (r: bool)
    ensures
        r == ((status & 0x7f) == 0),
;

/// `libc::WEXITSTATUS`: the second byte.
pub assume_specification[ libc::WEXITSTATUS ](status: libc::c_int) -> (r: libc::c_int)
    ensures
        r == ((status >> 8) & 0xff),
;

/// `libc::WIFSIGNALED`: the low seven bits hold a signal number, neither zero nor all ones.
pub assume_specification[ libc::WIFSIGNALED ](status: libc::c_int) -> (r: bool)
    ensures
        r == (1 <= (status & 0x7f) && (status & 0x7f) <= 0x7e),
;

/// `libc::WTERMSIG`: the low seven bits.
pub assume_specification[ libc::WTERMSIG ](status: libc::c_int) -> (r: libc::c_int)
    ensures
        r == (status & 0x7f),
;

/// `libc::WIFSTOPPED`: the low byte is 0x7f.
pub assume_specification[ libc::WIFSTOPPED ](status: libc::c_int) -> (r: bool)
    ensures
        r == ((status & 0xff) == 0x7f),
;

/// `libc::WSTOPSIG`: the second byte.
pub assume_specification[ libc::WSTOPSIG ](status: libc::c_int) -> (r: libc::c_int)
    ensures
        r == ((status >> 8) & 0xff),
;

/// `libc::WIFCONTINUED`: the status is 0xffff.
pub assume_specification[ libc::WIFCONTINUED ](status: libc::c_int) -> (r: bool)
    ensures
        r == (status == 0xffff),
;

/// What became of a process that was waited for.
#[derive(Debug, Clone, Copy, PartialEq, Eq, Structural)]
pub enum WaitStatus {
    /// It exited with this code.
    Exited(i32),
    /// This signal ended it.
    Signaled(i32),
    /// It stopped with this signal; the event is nonzero for a tracing event.
    Stopped { signal: i32, event: u32 },
    Other,
}

/// The byte of a status that holds an exit code or a stop signal.
pub open spec fn second_byte(status: i32) -> i32 {
    (status >> 8) & 0xff
}

/// What stands above the low sixteen bits of a status.
pub open spec fn trace_event(status: i32) -> u32 {
    crate::bytes::unsigned32_of(status >> 16)
}

pub open spec fn wait_status(status: i32) -> WaitStatus {
    if status & 0x7f == 0 {
        WaitStatus::Exited(second_byte(status))
    } else if 1 <= (status & 0x7f) && (status & 0x7f) <= 0x7e {
        WaitStatus::Signaled(status & 0x7f)
    } else if status & 0xff == 0x7f {
        WaitStatus::Stopped { signal: second_byte(status), event: trace_event(status) }
    } else {
        WaitStatus::Other
    }
}

/// Decodes the status of a wait.
pub fn decode_status(status: i32) -> (r: WaitStatus)
    ensures
        r == wait_status(status),
{
    if libc::WIFEXITED(status) {
        WaitStatus::Exited(libc::WEXITSTATUS(status))
    } else if libc::WIFSIGNALED(status) {
        WaitStatus::Signaled(libc::WTERMSIG(status))
    } else if libc::WIFSTOPPED(status) {
        WaitStatus::Stopped {
            signal: libc::WSTOPSIG(status),
            event: to_unsigned32(status >> 16),
        }
    } else {
        WaitStatus::Other
    }
}

/// Exit codes, signals that end a process and signals that stop it are read back from the
/// statuses that the kernel makes of them.
pub proof fn law_status_reads_back(code: i32, signal: i32, event: i32)
    requires
        0 <= code <= 0xff,
        1 <= signal <= 0x7e,
        0 <= event <= 0x7fff,
    ensures
        wait_status(code << 8) == WaitStatus::Exited(code),
        wait_status(signal) == WaitStatus::Signaled(signal),
        wait_status((event << 16) | (code << 8) | 0x7f) == (WaitStatus::Stopped {
            signal: code,
            event: event as u32,
        }),
{
    assert((code << 8) & 0x7f == 0 && ((code << 8) >> 8) & 0xff == code) by (bit_vector)
        requires
            0 <= code <= 0xff,
    ;
    assert(signal & 0x7f == signal) by (bit_vector)
        requires
            1 <= signal <= 0x7e,
    ;
    let s: i32 = (event << 16) | (code << 8) | 0x7f;
    assert(s & 0x7f == 0x7f && s & 0xff == 0x7f && (s >> 8) & 0xff == code && s >> 16 == event)
        by (bit_vector)
        requires
            0 <= code <= 0xff,
            0 <= event <= 0x7fff,
            s == (event << 16) | (code << 8) | 0x7f,
    ;
}

} // verus!
