//! A recording holds what the kernel reported: which call is written down as what, and what is
//! asked for next.
use vstd::prelude::*;
use crate::maps::Region;
use crate::recorder::{Order, Phase, RecordStep, Recording, Report, SyscallInfo, TraceeTermination};
use crate::saying_laws::Saying;
use crate::status::WaitStatus;
use crate::trace::Event;

verus! {

/// A trace is written and has room for one more event, or none is written.
pub open spec fn has_room(s: Recording) -> bool {
    match s.progress {
        None => true,
        Some(p) => !p.finished && p.event_count < 0xffff_ffff_ffff_fffe,
    }
}

/// The number that the next event gets.
pub open spec fn upcoming_id(s: Recording) -> int {
    s.progress->0.event_count + 1
}

/// A step writes the one event, if a trace is written, which gets the next number and the
/// thread of the process; else it writes nothing.
pub open spec fn writes_one(s: Recording, step: RecordStep, e: Event) -> bool {
    match s.progress {
        None => step.events.len() == 0 && step.next.progress is None,
        Some(p) => {
            &&& step.events.len() == 1
            &&& step.events[0] == e
            &&& e.id() == p.event_count + 1
            &&& e.thread() == crate::layout_laws::pattern32(s.pid)
            &&& step.next.progress is Some
            &&& step.next.progress->0.version == p.version
            &&& step.next.progress->0.finished == p.finished
            &&& step.next.progress->0.event_count == p.event_count + 1
        },
    }
}

/// The recording is in this state.
pub open spec fn is_state(s: Recording, t: Recording) -> bool {
    s == t
}

/// A step writes nothing.
pub open spec fn writes_nothing(s: Recording, step: RecordStep) -> bool {
    step.events.len() == 0 && step.next.progress == s.progress
}

/// The process waits for the commands of the step, of which this is the last.
pub open spec fn ends_in(step: RecordStep, order: Order) -> bool {
    step.orders.len() > 0 && step.orders.last() == order
}

/// The step prints exactly one line, first, and it says this.
pub open spec fn prints(step: RecordStep, what: Saying) -> bool {
    &&& step.orders.len() == 2
    &&& step.orders[0] is Print
    &&& crate::saying_laws::says(step.orders[0]->Print_0, what)
}

/// A status is taken for what it is. An end of the process ends the recording and is handed on;
/// an end by a signal that was not delivered before is an error if a trace is written. A stop
/// at a syscall asks which, any other stop asks for the signal, and a tracing event is an
/// error. None of them is written down.
pub proof fn law_status_report(s: Recording, status: i32)
    requires
        s.phase == Phase::Running,
    ensures
        ({
            let r = crate::recorder::record_step(s, Report::Status(status));
            let step = r->Ok_0;
            let same = Recording {
                progress: step.next.progress,
                injected: step.next.injected,
                phase: step.next.phase,
                ..s
            };
            &&& r is Ok ==> is_state(step.next, same) && step.events.len() == 0
            &&& match crate::status::wait_status(status) {
                WaitStatus::Exited(code) => {
                    &&& r is Ok
                    &&& step.next.phase == Phase::Ended
                    &&& prints(
                        step,
                        crate::saying_laws::line("child exited with status "@).number(code as int),
                    )
                    &&& ends_in(step, Order::Done(TraceeTermination::Exited(code)))
                },
                WaitStatus::Signaled(signal) => {
                    &&& r is Ok <==> s.progress is None || s.injected == Some(signal)
                    &&& r is Ok ==> {
                        &&& step.next.phase == Phase::Ended
                        &&& prints(
                            step,
                            crate::saying_laws::line("child terminated by signal "@).number(
                                signal as int,
                            ),
                        )
                        &&& ends_in(step, Order::Done(TraceeTermination::Signaled(signal)))
                    }
                    &&& r is Err ==> crate::saying_laws::says(
                        r->Err_0,
                        crate::saying_laws::line("pid "@).number(s.pid as int).words(
                            " terminated by signal "@,
                        ).number(signal as int).words(
                            " with no preceding recorded/injected signal delivery stop"@,
                        ),
                    )
                },
                WaitStatus::Stopped { signal, event } => if event != 0 {
                    r is Err
                } else if signal == 0x85 {
                    &&& r is Ok
                    &&& step.orders == seq![Order::QuerySyscall]
                    &&& step.next.phase == (Phase::SyscallStop { status })
                    &&& step.next.injected is None
                    &&& step.next.progress == s.progress
                } else {
                    &&& r is Ok
                    &&& step.orders == seq![Order::QuerySignal]
                    &&& step.next.phase == (Phase::SignalStop { signal })
                    &&& step.next.injected == s.injected
                    &&& step.next.progress == s.progress
                },
                WaitStatus::Other => r is Err,
            }
        }),
{
    broadcast use crate::saying_laws::group_says;

    let r = crate::recorder::record_step(s, Report::Status(status));
    match crate::status::wait_status(status) {
        WaitStatus::Exited(code) => {
            let text = "child exited with status "@ + crate::text::dec(code as int);
            lemma_orders(
                Order::Print(text),
                Order::Done(TraceeTermination::Exited(code)),
                r->Ok_0.orders,
            );
        },
        WaitStatus::Signaled(signal) => {
            if r is Ok {
                let text = "child terminated by signal "@ + crate::text::dec(signal as int);
                lemma_orders(
                    Order::Print(text),
                    Order::Done(TraceeTermination::Signaled(signal)),
                    r->Ok_0.orders,
                );
            }
        },
        _ => {},
    }
}

/// The end of the process ends the trace: the number of its events and the closing mark are
/// written, and nothing more is.
pub proof fn law_end_closes_the_trace(s: Recording, status: i32)
    requires
        s.phase == Phase::Running,
        s.progress is Some,
        crate::recorder::record_step(s, Report::Status(status)) is Ok,
    ensures
        ({
            let step = crate::recorder::record_step(s, Report::Status(status))->Ok_0;
            if step.next.phase == Phase::Ended {
                &&& step.next.progress is Some
                &&& step.next.progress->0.finished
                &&& step.next.progress->0.event_count == s.progress->0.event_count
                &&& step.next.progress->0.version == s.progress->0.version
                &&& step.output() == crate::wire::footer(s.progress->0.event_count as nat)
            } else {
                step.next.progress == s.progress && step.output().len() == 0
            }
        }),
{
    let step = crate::recorder::record_step(s, Report::Status(status))->Ok_0;
    assert(crate::wire::records(step.events) =~= Seq::<u8>::empty());
    if step.next.phase == Phase::Ended {
        assert(step.output() =~= crate::wire::footer(s.progress->0.event_count as nat));
    }
}

/// The entry of a syscall is written down with the number and the arguments that the kernel
/// reported, unless another one is under way. The process goes on, and the entry is kept for
/// the exit.
pub proof fn law_entry_is_recorded(s: Recording, number: u64, args: [u64; 6])
    requires
        s.phase is SyscallStop,
    ensures
        ({
            let r = crate::recorder::record_step(
                s,
                Report::Syscall(SyscallInfo::Entry { number, args }),
            );
            let step = r->Ok_0;
            &&& r is Ok <==> s.pending is None && has_room(s)
            &&& r is Ok ==> {
                &&& writes_one(
                    s,
                    step,
                    Event::SyscallEnter {
                        event_id: upcoming_id(s) as u64,
                        tid: crate::layout_laws::pattern32(s.pid) as u32,
                        number,
                        args: args@,
                    },
                )
                &&& step.next.pending is Some
                &&& step.next.pending->0.number == number
                &&& step.next.pending->0.args == args
                &&& step.next.pending->0.tid == s.pid
                &&& step.next.interrupted is None
                &&& step.next.phase == Phase::Running
                &&& is_state(step.next, Recording {
                    progress: step.next.progress,
                    pending: step.next.pending,
                    interrupted: None,
                    phase: Phase::Running,
                    ..s
                })
                &&& ends_in(step, Order::Resume(0))
            }
        }),
{
    lemma_entry_orders(s, number, args);
}

/// The first exit is the one from `execve`: nothing is written, and from format 3 on the map of
/// the process is asked for.
pub proof fn law_first_exit_asks_for_the_map(s: Recording, result: i64, is_error: u8)
    requires
        s.phase is SyscallStop,
        !s.started,
    ensures
        ({
            let r = crate::recorder::record_step(
                s,
                Report::Syscall(SyscallInfo::Exit { result, is_error }),
            );
            let step = r->Ok_0;
            let asks = s.progress is Some && s.progress->0.version >= 3;
            &&& r is Ok
            &&& writes_nothing(s, step)
            &&& is_state(step.next, Recording { started: true, phase: step.next.phase, ..s })
            &&& step.next.phase == (if asks {
                Phase::FirstMaps
            } else {
                Phase::Running
            })
            &&& step.orders == (if asks {
                seq![Order::ReadMaps]
            } else {
                seq![Order::Resume(0)]
            })
        }),
{
}

/// The exit of a syscall is written down with the number of the call that was entered and with
/// exactly the result that the kernel reported. If a `read` returned data, as much of it is
/// asked for as the result says, from the buffer that the entry named; after a syscall that can
/// change the map, the map is asked for from format 3 on; else the process goes on.
pub proof fn law_exit_is_recorded(s: Recording, result: i64, is_error: u8)
    requires
        s.phase is SyscallStop,
        s.started,
    ensures
        ({
            let r = crate::recorder::record_step(
                s,
                Report::Syscall(SyscallInfo::Exit { result, is_error }),
            );
            let step = r->Ok_0;
            let call = s.pending->0;
            let id = upcoming_id(s) as u64;
            &&& r is Ok <==> s.pending is Some && has_room(s)
            &&& r is Ok ==> {
                &&& writes_one(
                    s,
                    step,
                    Event::SyscallExit {
                        event_id: id,
                        tid: crate::layout_laws::pattern32(s.pid) as u32,
                        number: call.number,
                        result,
                    },
                )
                &&& is_state(step.next, Recording {
                    progress: step.next.progress,
                    pending: None,
                    interrupted: if (call.number == 0 || call.number == 39) && result < 0 {
                        Some(call.number)
                    } else {
                        None
                    },
                    phase: step.next.phase,
                    ..s
                })
                &&& if s.progress is Some && call.number == 0 && result > 0 {
                    &&& ends_in(
                        step,
                        Order::ReadMemory { address: call.args@[1], len: result as u64 },
                    )
                    &&& step.next.phase == (Phase::ReadData {
                        exit_id: id,
                        address: call.args@[1],
                        len: result as u64,
                    })
                } else if s.progress is Some && s.progress->0.version >= 3
                    && crate::signal_laws::changes_the_map(call.number as int) {
                    &&& ends_in(step, Order::ReadMaps)
                    &&& step.next.phase == (Phase::FreshMaps {
                        exit_id: id,
                        number: call.number,
                        result,
                    })
                } else {
                    &&& ends_in(step, Order::Resume(0))
                    &&& step.next.phase == Phase::Running
                }
            }
        }),
{
    lemma_exit_orders(s, result, is_error);
}

/// An entry is printed with its number and its arguments.
pub proof fn law_entry_is_printed(s: Recording, number: u64, args: [u64; 6])
    requires
        s.phase is SyscallStop,
    ensures
        ({
            let r = crate::recorder::record_step(
                s,
                Report::Syscall(SyscallInfo::Entry { number, args }),
            );
            let step = r->Ok_0;
            r is Ok ==> {
                &&& prints(
                    step,
                    crate::saying_laws::line("syscall-enter tid="@).number(s.pid as int).words(
                        " nr="@,
                    ).number(number as int).words(" args=["@).number(args@[0] as int).words(
                        ", "@,
                    ).number(args@[1] as int).words(", "@).number(args@[2] as int).words(
                        ", "@,
                    ).number(args@[3] as int).words(", "@).number(args@[4] as int).words(
                        ", "@,
                    ).number(args@[5] as int).words("]"@),
                )
            }
        }),
{
    lemma_entry_orders(s, number, args);
    lemma_entry_line(s, number, args@);
}

/// An exit is printed with the number of the call that was entered and its result.
pub proof fn law_exit_is_printed(s: Recording, result: i64, is_error: u8)
    requires
        s.phase is SyscallStop,
    ensures
        ({
            let r = crate::recorder::record_step(
                s,
                Report::Syscall(SyscallInfo::Exit { result, is_error }),
            );
            let step = r->Ok_0;
            let call = s.pending->0;
            r is Ok && s.started ==> {
                &&& prints(
                    step,
                    crate::saying_laws::line("syscall-exit  tid="@).number(s.pid as int).words(
                        " nr="@,
                    ).number(call.number as int).words(" result="@).number(result as int),
                )
            }
        }),
{
    lemma_exit_line(s, s.pending->0.number, result);
    if s.started {
        lemma_exit_orders(s, result, is_error);
    }
}

proof fn lemma_orders(a: Order, b: Order, orders: Seq<Order>)
    requires
        orders == seq![a, b],
    ensures
        orders.len() == 2,
        orders[0] == a,
        orders[1] == b,
        orders.last() == b,
{
}

spec fn entry_line(s: Recording, number: u64, args: Seq<u64>) -> Seq<char> {
    "syscall-enter tid="@ + crate::text::dec(s.pid as int) + " nr="@ + crate::text::dec(
        number as int,
    ) + " args=["@ + crate::text::dec(args[0] as int) + ", "@ + crate::text::dec(args[1] as int)
        + ", "@ + crate::text::dec(args[2] as int) + ", "@ + crate::text::dec(args[3] as int)
        + ", "@ + crate::text::dec(args[4] as int) + ", "@ + crate::text::dec(args[5] as int)
        + "]"@
}

spec fn exit_line(s: Recording, number: u64, result: i64) -> Seq<char> {
    "syscall-exit  tid="@ + crate::text::dec(s.pid as int) + " nr="@ + crate::text::dec(
        number as int,
    ) + " result="@ + crate::text::dec(result as int)
}

spec fn signal_line(s: Recording, signal: i32, code: i32, errno: i32) -> Seq<char> {
    "signal-delivery tid="@ + crate::text::dec(s.pid as int) + " sig="@ + crate::text::dec(
        signal as int,
    ) + " code="@ + crate::text::dec(code as int) + " errno="@ + crate::text::dec(errno as int)
}

proof fn lemma_entry_line(s: Recording, number: u64, args: Seq<u64>)
    ensures
        crate::saying_laws::says(
            entry_line(s, number, args),
            crate::saying_laws::line("syscall-enter tid="@).number(s.pid as int).words(
                " nr="@,
            ).number(number as int).words(" args=["@).number(args[0] as int).words(", "@).number(
                args[1] as int,
            ).words(", "@).number(args[2] as int).words(", "@).number(args[3] as int).words(
                ", "@,
            ).number(args[4] as int).words(", "@).number(args[5] as int).words("]"@),
        ),
{
    broadcast use crate::saying_laws::group_says;

}

proof fn lemma_exit_line(s: Recording, number: u64, result: i64)
    ensures
        crate::saying_laws::says(
            exit_line(s, number, result),
            crate::saying_laws::line("syscall-exit  tid="@).number(s.pid as int).words(
                " nr="@,
            ).number(number as int).words(" result="@).number(result as int),
        ),
{
    broadcast use crate::saying_laws::group_says;

}

proof fn lemma_signal_line(s: Recording, signal: i32, code: i32, errno: i32)
    ensures
        crate::saying_laws::says(
            signal_line(s, signal, code, errno),
            crate::saying_laws::line("signal-delivery tid="@).number(s.pid as int).words(
                " sig="@,
            ).number(signal as int).words(" code="@).number(code as int).words(" errno="@).number(
                errno as int,
            ),
        ),
{
    broadcast use crate::saying_laws::group_says;

}

/// What a step that recorded an entry asks for.
proof fn lemma_entry_orders(s: Recording, number: u64, args: [u64; 6])
    requires
        s.phase is SyscallStop,
    ensures
        ({
            let r = crate::recorder::record_step(
                s,
                Report::Syscall(SyscallInfo::Entry { number, args }),
            );
            r is Ok ==> {
                &&& r->Ok_0.orders.len() == 2
                &&& r->Ok_0.orders[0] == Order::Print(entry_line(s, number, args@))
                &&& r->Ok_0.orders.last() == Order::Resume(0)
            }
        }),
{
    let r = crate::recorder::record_step(s, Report::Syscall(SyscallInfo::Entry { number, args }));
    if r is Ok {
        lemma_orders(
            Order::Print(entry_line(s, number, args@)),
            Order::Resume(0),
            r->Ok_0.orders,
        );
    }
}

/// What a step that recorded an exit asks for.
proof fn lemma_exit_orders(s: Recording, result: i64, is_error: u8)
    requires
        s.phase is SyscallStop,
        s.started,
    ensures
        ({
            let r = crate::recorder::record_step(
                s,
                Report::Syscall(SyscallInfo::Exit { result, is_error }),
            );
            let call = s.pending->0;
            r is Ok ==> {
                &&& r->Ok_0.orders.len() == 2
                &&& r->Ok_0.orders[0] == Order::Print(exit_line(s, call.number, result))
                &&& r->Ok_0.orders.last() == if s.progress is Some && call.number == 0 && result
                    > 0 {
                    Order::ReadMemory { address: call.args@[1], len: result as u64 }
                } else if s.progress is Some && s.progress->0.version >= 3
                    && crate::signal_laws::changes_the_map(call.number as int) {
                    Order::ReadMaps
                } else {
                    Order::Resume(0)
                }
            }
        }),
{
    let r = crate::recorder::record_step(
        s,
        Report::Syscall(SyscallInfo::Exit { result, is_error }),
    );
    if r is Ok {
        let call = s.pending->0;
        let last = if s.progress is Some && call.number == 0 && result > 0 {
            Order::ReadMemory { address: call.args@[1], len: result as u64 }
        } else if s.progress is Some && s.progress->0.version >= 3
            && crate::signal_laws::changes_the_map(call.number as int) {
            Order::ReadMaps
        } else {
            Order::Resume(0)
        };
        lemma_orders(Order::Print(exit_line(s, call.number, result)), last, r->Ok_0.orders);
    }
}

/// Stops that are neither an entry nor an exit end the recording.
pub proof fn law_other_syscall_stops_are_refused(s: Recording, info: SyscallInfo)
    requires
        s.phase is SyscallStop,
        !(info is Entry),
        !(info is Exit),
    ensures
        crate::recorder::record_step(s, Report::Syscall(info)) is Err,
{
}

/// The data of a `read` is written down as it was found in the memory of the process, as the
/// data of that exit and under the address that was asked for; fewer or more bytes than the
/// result of the `read` says are an error.
pub proof fn law_data_is_recorded(s: Recording, data: Seq<u8>)
    requires
        s.phase is ReadData,
        s.progress is Some,
        s.progress->0.version >= 2,
    ensures
        ({
            let r = crate::recorder::record_step(s, Report::Memory(data));
            let step = r->Ok_0;
            &&& r is Ok <==> data.len() == s.phase->ReadData_len && has_room(s) && 40 + data.len()
                <= u32::MAX
            &&& r is Ok ==> {
                &&& writes_one(
                    s,
                    step,
                    Event::KernelMemoryWrite {
                        event_id: upcoming_id(s) as u64,
                        tid: crate::layout_laws::pattern32(s.pid) as u32,
                        source_event_id: s.phase->ReadData_exit_id,
                        recorded_address: s.phase->ReadData_address,
                        data,
                    },
                )
                &&& is_state(step.next, Recording {
                    progress: step.next.progress,
                    phase: Phase::Running,
                    ..s
                })
                &&& step.orders == seq![Order::Resume(0)]
            }
        }),
{
}

/// A signal that a process sent, outside substituted syscalls, is written down with the siginfo
/// that the kernel reported and delivered, whatever its number is, except for the six numbers
/// that are out of reach. A signal that follows a substituted syscall which failed counts as
/// inside it.
pub proof fn law_signal_is_recorded(s: Recording, info: Seq<u8>)
    requires
        s.phase is SignalStop,
        info.len() == 128,
        s.progress is Some,
        s.progress->0.version >= 4,
    ensures
        ({
            let r = crate::recorder::record_step(s, Report::Signal(info));
            let step = r->Ok_0;
            let signal = s.phase->SignalStop_signal;
            let errno = crate::signals::signal_fields(info).errno;
            let code = crate::signals::signal_fields(info).code;
            let within = match s.pending {
                Some(call) => crate::signal_laws::is_read_or_getpid(call.number as int),
                None => match s.interrupted {
                    Some(number) => crate::signal_laws::is_read_or_getpid(number as int),
                    None => false,
                },
            };
            &&& crate::layout_laws::number_at(info, 4, 4) == crate::layout_laws::pattern32(errno)
            &&& crate::layout_laws::number_at(info, 8, 4) == crate::layout_laws::pattern32(code)
            &&& r is Ok <==> {
                &&& crate::layout_laws::number_at(info, 0, 4) == crate::layout_laws::pattern32(
                    signal,
                )
                &&& !crate::signal_laws::out_of_reach(signal as int)
                &&& crate::signal_laws::from_a_process(code as int)
                &&& s.started
                &&& !within
                &&& has_room(s)
            }
            &&& r is Ok ==> {
                &&& writes_one(
                    s,
                    step,
                    Event::SignalDelivery {
                        event_id: upcoming_id(s) as u64,
                        tid: crate::layout_laws::pattern32(s.pid) as u32,
                        signal_number: signal,
                        si_errno: errno,
                        si_code: code,
                        siginfo_bytes: info,
                    },
                )
                &&& is_state(step.next, Recording {
                    progress: step.next.progress,
                    injected: Some(signal),
                    phase: Phase::Running,
                    ..s
                })
                &&& prints(
                    step,
                    crate::saying_laws::line("signal-delivery tid="@).number(s.pid as int).words(
                        " sig="@,
                    ).number(signal as int).words(" code="@).number(code as int).words(
                        " errno="@,
                    ).number(errno as int),
                )
                &&& ends_in(step, Order::Resume(signal))
            }
        }),
{
    crate::signal_laws::lemma_fields(info);
    let f = crate::signals::signal_fields(info);
    let signal = s.phase->SignalStop_signal;
    let r = crate::recorder::record_step(s, Report::Signal(info));
    lemma_signal_line(s, signal, f.code, f.errno);
    if r is Ok {
        lemma_orders(
            Order::Print(signal_line(s, signal, f.code, f.errno)),
            Order::Resume(signal),
            r->Ok_0.orders,
        );
    }
}

/// Without a trace nothing is written; signals are delivered as they come if their siginfo has
/// their number.
pub proof fn law_signals_pass_without_a_trace(s: Recording, info: Seq<u8>)
    requires
        s.phase is SignalStop,
        info.len() == 128,
        s.progress is None,
    ensures
        ({
            let r = crate::recorder::record_step(s, Report::Signal(info));
            let signal = s.phase->SignalStop_signal;
            &&& r is Ok <==> crate::layout_laws::number_at(info, 0, 4)
                == crate::layout_laws::pattern32(signal)
            &&& r is Ok ==> {
                &&& writes_nothing(s, r->Ok_0)
                &&& is_state(r->Ok_0.next, Recording { phase: Phase::Running, ..s })
                &&& r->Ok_0.orders == seq![Order::Resume(signal)]
            }
        }),
{
    crate::signal_laws::lemma_fields(info);
}

/// The first map listing becomes the snapshot that a trace begins with, region for region, and
/// the map of the recording.
pub proof fn law_first_map_is_recorded(s: Recording, listing: Seq<u8>)
    requires
        s.phase == Phase::FirstMaps,
        s.progress is Some,
        s.progress->0.version >= 3,
    ensures
        ({
            let r = crate::recorder::record_step(s, Report::Maps(listing));
            let step = r->Ok_0;
            let map = crate::proc_maps::listed_map(listing);
            &&& r is Ok <==> map is Ok && has_room(s) && map->Ok_0.len() <= u32::MAX && 24
                + crate::wire::descriptors(map->Ok_0).len() <= u32::MAX
            &&& r is Ok ==> {
                &&& writes_one(
                    s,
                    step,
                    Event::MemoryMapSnapshot {
                        event_id: upcoming_id(s) as u64,
                        tid: crate::layout_laws::pattern32(s.pid) as u32,
                        regions: map->Ok_0,
                    },
                )
                &&& is_state(step.next, Recording {
                    progress: step.next.progress,
                    model: Some(map->Ok_0),
                    phase: Phase::Running,
                    ..s
                })
                &&& step.orders == seq![Order::Resume(0)]
            }
        }),
{
}

/// A report of a kind that was not asked for ends the recording.
pub proof fn law_unasked_reports_are_refused(s: Recording, report: Report)
    requires
        match s.phase {
            Phase::Running => !(report is Status),
            Phase::SyscallStop { .. } => !(report is Syscall),
            Phase::SignalStop { .. } => !(report is Signal && report->Signal_0.len() == 128),
            Phase::FirstMaps => !(report is Maps),
            Phase::ReadData { .. } => !(report is Memory),
            Phase::FreshMaps { .. } => !(report is Maps),
            Phase::Ended => true,
        },
    ensures
        crate::recorder::record_step(s, report) is Err,
{
}

/// A failed call, for the map: `brk` never fails by its result.
pub open spec fn call_failed(number: u64, result: i64) -> bool {
    number != 12 && result < 0
}

/// The regions that are gone and those that have come, each in address order.
pub open spec fn changed(
    old_map: Seq<Region>,
    new_map: Seq<Region>,
    gone: Seq<Region>,
    come: Seq<Region>,
) -> bool {
    &&& crate::region_laws::tidy(gone)
    &&& crate::region_laws::tidy(come)
    &&& forall|x: Region| #[trigger]
        gone.contains(x) <==> old_map.contains(x) && !crate::region_laws::maps_it(new_map, x)
    &&& forall|x: Region| #[trigger]
        come.contains(x) <==> new_map.contains(x) && !crate::region_laws::maps_it(old_map, x)
}

/// One removal for each region that is gone, then one addition for each that has come, numbered
/// on from `count`, as changes of the syscall that event `source` is the exit of.
pub open spec fn deltas(
    es: Seq<Event>,
    gone: Seq<Region>,
    come: Seq<Region>,
    count: int,
    tid: int,
    source: u64,
) -> bool {
    &&& es.len() == gone.len() + come.len()
    &&& forall|i: int|
        0 <= i < es.len() ==> {
            &&& (#[trigger] es[i]).id() == count + 1 + i
            &&& es[i].thread() == tid
            &&& i < gone.len() ==> es[i] is MemoryMapRemove && es[i]->MemoryMapRemove_region
                == gone[i] && es[i]->MemoryMapRemove_source_event_id == source
            &&& i >= gone.len() ==> es[i] is MemoryMapAdd && es[i]->MemoryMapAdd_region == come[i
                - gone.len()] && es[i]->MemoryMapAdd_source_event_id == source
        }
}

/// Labels of regions that are in both maps stay.
pub open spec fn labels_stay(old_map: Seq<Region>, new_map: Seq<Region>) -> bool {
    forall|i: int, j: int|
        0 <= i < old_map.len() && 0 <= j < new_map.len() && crate::region_laws::twin(
            #[trigger] old_map[i],
            #[trigger] new_map[j],
        ) ==> old_map[i].label == new_map[j].label
}

/// The records of the regions are not too long for their length field.
pub open spec fn records_fit(s: Seq<Region>) -> bool {
    forall|i: int| 0 <= i < s.len() ==> 72 + (#[trigger] s[i]).label.len() <= u32::MAX
}

/// After a syscall that can change the map, the trace gets one removal for each region that is
/// gone and then one addition for each that has come, each part in address order, all as
/// changes of that syscall; the map of the recording is then the one that was listed. After a
/// syscall that failed, nothing is written, and the map has to be what it was.
#[verifier::rlimit(50)]
pub proof fn law_map_changes_are_recorded(
    s: Recording,
    listing: Seq<u8>,
    gone: Seq<Region>,
    come: Seq<Region>,
)
    requires
        s.phase is FreshMaps,
        s.progress is Some,
        s.progress->0.version >= 3,
        !s.progress->0.finished,
        s.model is Some,
        crate::region_laws::tidy(s.model->0),
        crate::proc_maps::listed_map(listing) is Ok,
        changed(s.model->0, crate::proc_maps::listed_map(listing)->Ok_0, gone, come),
    ensures
        ({
            let r = crate::recorder::record_step(s, Report::Maps(listing));
            let step = r->Ok_0;
            let old_map = s.model->0;
            let new_map = crate::proc_maps::listed_map(listing)->Ok_0;
            let count = s.progress->0.event_count as int;
            &&& if call_failed(s.phase->FreshMaps_number, s.phase->FreshMaps_result) {
                &&& r is Ok <==> gone.len() == 0 && come.len() == 0
                &&& r is Ok ==> writes_nothing(s, step) && step.next.model == s.model
            } else {
                &&& r is Ok <==> {
                    &&& labels_stay(old_map, new_map)
                    &&& records_fit(gone)
                    &&& records_fit(come)
                    &&& gone.len() + come.len() > 0 ==> count + gone.len() + come.len()
                        < u64::MAX
                }
                &&& r is Ok ==> {
                    &&& deltas(
                        step.events,
                        gone,
                        come,
                        count,
                        crate::layout_laws::pattern32(s.pid),
                        s.phase->FreshMaps_exit_id,
                    )
                    &&& step.next.model == Some(new_map)
                    &&& step.next.progress is Some
                    &&& step.next.progress->0.event_count == count + step.events.len()
                    &&& step.next.progress->0.version == s.progress->0.version
                    &&& !step.next.progress->0.finished
                }
            }
            &&& r is Ok ==> {
                &&& step.orders == seq![Order::Resume(0)]
                &&& is_state(step.next, Recording {
                    progress: step.next.progress,
                    model: step.next.model,
                    phase: Phase::Running,
                    ..s
                })
            }
        }),
{
    let old_map = s.model->0;
    let new_map = crate::proc_maps::listed_map(listing)->Ok_0;
    let removes = crate::model::not_in(old_map, new_map);
    let adds = crate::model::not_in(new_map, old_map);
    crate::maps::lemma_order_complaint(new_map);
    crate::region_laws::lemma_tidy(old_map);
    crate::region_laws::lemma_tidy(new_map);
    crate::region_laws::lemma_not_in(old_map, new_map);
    crate::region_laws::lemma_not_in(new_map, old_map);
    lemma_same_members(gone, removes);
    lemma_same_members(come, adds);
    let p = s.progress->0;
    let exit_id = s.phase->FreshMaps_exit_id;
    let es = crate::recorder::delta_events(p.event_count, s.tid(), exit_id, removes, adds);
    lemma_labels(old_map, new_map);
    lemma_deltas_fit(p.event_count, s.tid(), exit_id, removes, adds);
    lemma_deltas_accepted(p, es, 0);
    if crate::recorder::deltas_written(p, es, 0) is Ok {
        crate::recorder::lemma_deltas_written(p, es, 0);
        crate::model_laws::law_difference_leads_to_new_map(old_map, new_map);
    }
}

/// Two maps with the same regions list them in the same order.
proof fn lemma_same_members(s: Seq<Region>, t: Seq<Region>)
    requires
        crate::region_laws::tidy(s),
        crate::region_laws::tidy(t),
        forall|x: Region| #[trigger] s.contains(x) <==> t.contains(x),
    ensures
        s == t,
    decreases s.len(),
{
    if s.len() == 0 {
        if t.len() > 0 {
            assert(t.contains(t[0]));
            assert(s.contains(t[0]));
        }
        assert(s =~= t);
    } else {
        assert(s.contains(s[0]));
        assert(t.contains(s[0]));
        let a = s[s.len() - 1];
        let b = t[t.len() - 1];
        assert(s.contains(a) && t.contains(b));
        assert(t.contains(a) && s.contains(b));
        let i = choose|i: int| 0 <= i < t.len() && t[i] == a;
        let j = choose|j: int| 0 <= j < s.len() && s[j] == b;
        assert(crate::region_laws::whole_pages(a) && crate::region_laws::whole_pages(b));
        if i < t.len() - 1 && j < s.len() - 1 {
            assert(t[i].end <= t[t.len() - 1].start);
            assert(s[j].end <= s[s.len() - 1].start);
        }
        assert(a == b);
        let d = s.drop_last();
        let e = t.drop_last();
        assert forall|x: Region| #[trigger] d.contains(x) <==> e.contains(x) by {
            if d.contains(x) {
                let k = choose|k: int| 0 <= k < d.len() && d[k] == x;
                assert(s[k] == x);
                assert(s.contains(x));
                let m = choose|m: int| 0 <= m < t.len() && t[m] == x;
                assert(s[k].end <= s[s.len() - 1].start);
                assert(crate::region_laws::whole_pages(s[k]));
                assert(e[m] == x);
            }
            if e.contains(x) {
                let k = choose|k: int| 0 <= k < e.len() && e[k] == x;
                assert(t[k] == x);
                assert(t.contains(x));
                assert(s.contains(x));
                let m = choose|m: int| 0 <= m < s.len() && s[m] == x;
                assert(t[k].end <= t[t.len() - 1].start);
                assert(crate::region_laws::whole_pages(t[k]));
                assert(d[m] == x);
            }
        }
        lemma_same_members(d, e);
        assert(s =~= d.push(a));
        assert(t =~= e.push(b));
    }
}

proof fn lemma_labels(old_map: Seq<Region>, new_map: Seq<Region>)
    requires
        crate::maps::canonical(old_map),
        crate::maps::canonical(new_map),
    ensures
        crate::recorder::diff_complaint(
            old_map,
            crate::model::not_in(old_map, new_map),
            crate::model::not_in(new_map, old_map),
            new_map,
        ) is None <==> labels_stay(old_map, new_map),
{
    crate::model_laws::law_difference_leads_to_new_map(old_map, new_map);
    assert forall|i: int, j: int| 0 <= i < old_map.len() && 0 <= j < new_map.len() implies (
    #[trigger] old_map[i]).same_vma(#[trigger] new_map[j]) == crate::region_laws::twin(
        old_map[i],
        new_map[j],
    ) by {
        crate::region_laws::lemma_twin(old_map[i], new_map[j]);
    }
    if labels_stay(old_map, new_map) {
        assert forall|i: int, j: int|
            0 <= i < old_map.len() && 0 <= j < new_map.len() && (#[trigger] old_map[i]).same_vma(
                #[trigger] new_map[j],
            ) implies old_map[i] == new_map[j] by {
            assert(old_map[i] =~= new_map[j]);
        }
        assert(crate::model_laws::labels_agree(old_map, new_map));
    }
    if crate::model_laws::labels_agree(old_map, new_map) {
        assert forall|i: int, j: int|
            0 <= i < old_map.len() && 0 <= j < new_map.len() && crate::region_laws::twin(
                #[trigger] old_map[i],
                #[trigger] new_map[j],
            ) implies old_map[i].label == new_map[j].label by {
            assert(old_map[i].same_vma(new_map[j]));
        }
    }
}

/// A delta is written exactly when there is a number for it and it fits its record.
pub open spec fn delta_fits(e: Event) -> bool {
    match e {
        Event::MemoryMapAdd { region, .. } => 72 + region.label.len() <= u32::MAX,
        Event::MemoryMapRemove { region, .. } => 72 + region.label.len() <= u32::MAX,
        _ => false,
    }
}

proof fn lemma_deltas_accepted(p: crate::writer::Progress, es: Seq<Event>, i: int)
    requires
        0 <= i <= es.len(),
        p.version >= 3,
        !p.finished,
        forall|k: int|
            0 <= k < es.len() ==> (#[trigger] es[k]) is MemoryMapAdd || es[k] is MemoryMapRemove,
    ensures
        crate::recorder::deltas_written(p, es, i) is Ok <==> (i < es.len() ==> p.event_count + (
        es.len() - i) < u64::MAX) && (forall|k: int|
            i <= k < es.len() ==> delta_fits(#[trigger] es[k])),
    decreases es.len() - i,
{
    if i < es.len() {
        let e = es[i];
        assert(e is MemoryMapAdd || e is MemoryMapRemove);
        match e {
            Event::MemoryMapAdd { region, .. } => crate::descriptor::lemma_descriptor_len(region),
            Event::MemoryMapRemove { region, .. } => crate::descriptor::lemma_descriptor_len(
                region,
            ),
            _ => {},
        }
        let w = crate::recorder::written(p, e, crate::recorder::delta_name(e));
        assert(w is Ok <==> p.event_count < u64::MAX - 1 && delta_fits(e));
        if w is Ok {
            lemma_deltas_accepted(w->Ok_0, es, i + 1);
        }
    }
}

proof fn lemma_deltas_fit(
    count: u64,
    tid: u32,
    exit_id: u64,
    removes: Seq<Region>,
    adds: Seq<Region>,
)
    ensures
        ({
            let es = crate::recorder::delta_events(count, tid, exit_id, removes, adds);
            &&& forall|k: int|
                0 <= k < es.len() ==> (#[trigger] es[k]) is MemoryMapAdd
                    || es[k] is MemoryMapRemove
            &&& (forall|k: int| 0 <= k < es.len() ==> delta_fits(#[trigger] es[k]))
                <==> records_fit(removes) && records_fit(adds)
        }),
{
    let es = crate::recorder::delta_events(count, tid, exit_id, removes, adds);
    let n = removes.len() as int;
    if forall|k: int| 0 <= k < es.len() ==> delta_fits(#[trigger] es[k]) {
        assert forall|i: int| 0 <= i < removes.len() implies 72 + (
        #[trigger] removes[i]).label.len() <= u32::MAX by {
            assert(delta_fits(es[i]));
        }
        assert forall|i: int| 0 <= i < adds.len() implies 72 + (#[trigger] adds[i]).label.len()
            <= u32::MAX by {
            assert(delta_fits(es[n + i]));
        }
    }
    if records_fit(removes) && records_fit(adds) {
        assert forall|k: int| 0 <= k < es.len() implies delta_fits(#[trigger] es[k]) by {
            if k < n {
                assert(72 + removes[k].label.len() <= u32::MAX);
            } else {
                assert(72 + adds[k - n].label.len() <= u32::MAX);
            }
        }
    }
}

} // verus!
