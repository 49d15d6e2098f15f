use causal::maps::MemoryRegion;
use causal::recorder::SyscallInfo;
use causal::replay::{replay_preflight, Phase, ReplayCommand, ReplayInput, Replayer};
use causal::trace::{
    parse_trace_bytes, ParsedTrace, TraceWriter, SYS_GETPID_X86_64, SYS_READ_X86_64,
    TRACE_VERSION_1,
};
use causal::tracer::TraceeTermination;

const PID: i32 = 500;

fn region() -> MemoryRegion {
    MemoryRegion {
        start: 0x7fff_0000_0000,
        end: 0x7fff_0001_0000,
        prot_read: true,
        prot_write: true,
        prot_exec: false,
        shared: false,
        file_offset: 0,
        dev_major: 0,
        dev_minor: 0,
        inode: 0,
        label: b"[stack]".to_vec(),
    }
}

fn siginfo(signo: i32, code: i32) -> Vec<u8> {
    let mut raw = vec![0_u8; 128];
    raw[0..4].copy_from_slice(&signo.to_le_bytes());
    raw[8..12].copy_from_slice(&code.to_le_bytes());
    raw
}

fn trace(write: impl Fn(&mut TraceWriter)) -> ParsedTrace {
    let mut buf = Vec::new();
    let mut writer = TraceWriter::new_v4(&mut buf).unwrap();
    writer
        .write_memory_map_snapshot(1, std::slice::from_ref(&region()))
        .unwrap();
    write(&mut writer);
    writer.finish().unwrap();
    parse_trace_bytes(&buf).unwrap()
}

fn stop(signal: i32) -> ReplayInput {
    ReplayInput::Status((signal << 8) | 0x7f)
}

fn entry(number: u64, args: [u64; 6]) -> ReplayInput {
    ReplayInput::Syscall(SyscallInfo::Entry { number, args })
}

fn exit(result: i64) -> ReplayInput {
    ReplayInput::Syscall(SyscallInfo::Exit { result, is_error: 1 })
}

fn note(line: &str) -> ReplayCommand {
    ReplayCommand::Note(line.to_string())
}

fn launched(trace: ParsedTrace) -> Replayer {
    assert!(replay_preflight(&trace).is_ok());
    let mut replayer = Replayer::new(PID, trace);
    assert_eq!(
        replayer.step(stop(0x85)).unwrap(),
        vec![ReplayCommand::QuerySyscall]
    );
    replayer.step(exit(0)).unwrap();
    replayer
}

fn syscall(replayer: &mut Replayer, info: ReplayInput) -> Result<Vec<ReplayCommand>, String> {
    assert_eq!(
        replayer.step(stop(0x85)).unwrap(),
        vec![ReplayCommand::QuerySyscall]
    );
    replayer.step(info)
}

fn getpid_trace() -> ParsedTrace {
    trace(|w| {
        w.write_syscall_enter(1, 39, [0; 6]).unwrap();
        w.write_syscall_exit(1, 39, 1234).unwrap();
        w.write_syscall_enter(1, 231, [0; 6]).unwrap();
    })
}

fn read_trace(result: i64) -> ParsedTrace {
    trace(|w| {
        w.write_syscall_enter(1, 0, [3, 0x1000, 16, 0, 0, 0]).unwrap();
        let id = w.write_syscall_exit(1, 0, result).unwrap();
        if result > 0 {
            w.write_kernel_memory_write(1, id, 0x1000, b"data").unwrap();
        }
    })
}

fn signal_trace() -> ParsedTrace {
    trace(|w| {
        w.write_signal_delivery(1, 10, 0, 0, &siginfo(10, 0)).unwrap();
        w.write_signal_delivery(1, 15, 0, -6, &siginfo(15, -6)).unwrap();
    })
}

#[test]
fn getpid_comes_out_of_the_trace() {
    let mut replayer = launched(getpid_trace());
    assert_eq!(
        syscall(&mut replayer, entry(39, [9; 6])).unwrap(),
        vec![ReplayCommand::Suppress { number: 39 }, ReplayCommand::Resume(0)]
    );
    assert_eq!(
        syscall(&mut replayer, exit(-38)).unwrap(),
        vec![
            ReplayCommand::SetResult(1234),
            note("replay-substitute event=3 syscall=getpid recorded=1234 live_pid=500 suppressed=-38 injected=1234"),
            ReplayCommand::Resume(0)
        ]
    );
    assert_eq!(
        syscall(&mut replayer, entry(231, [0; 6])).unwrap(),
        vec![ReplayCommand::Resume(0)]
    );
    assert_eq!(
        replayer.step(ReplayInput::Status(0)).unwrap(),
        vec![ReplayCommand::Done(TraceeTermination::Exited(0))]
    );
    assert_eq!(replayer.phase(), Phase::Ended);
}

#[test]
fn read_data_goes_to_the_live_buffer() {
    let mut replayer = launched(read_trace(4));
    assert_eq!(
        syscall(&mut replayer, entry(0, [8, 0x9000, 16, 0, 0, 0])).unwrap(),
        vec![ReplayCommand::Suppress { number: 0 }, ReplayCommand::Resume(0)]
    );
    assert_eq!(
        syscall(&mut replayer, exit(-38)).unwrap(),
        vec![
            ReplayCommand::WriteMemory { event_id: 4, address: 0x9000, data: b"data".to_vec() },
            ReplayCommand::SetResult(4),
            note("replay-memory event=4 syscall=read recorded_addr=0x1000 live_addr=0x9000 len=4 suppressed=-38 injected_result=4"),
            ReplayCommand::Resume(0)
        ]
    );
    assert_eq!(
        replayer.step(ReplayInput::Status(7 << 8)).unwrap(),
        vec![ReplayCommand::Done(TraceeTermination::Exited(7))]
    );
}

#[test]
fn a_failed_read_has_no_data() {
    let mut replayer = launched(read_trace(-9));
    syscall(&mut replayer, entry(0, [8, 0x9000, 16, 0, 0, 0])).unwrap();
    assert_eq!(
        syscall(&mut replayer, exit(-38)).unwrap(),
        vec![
            ReplayCommand::SetResult((-9_i64) as u64),
            note("replay-substitute event=3 syscall=read recorded=-9 live_pid=500 suppressed=-38 injected=-9"),
            ReplayCommand::Resume(0)
        ]
    );
}

#[test]
fn signals_are_sent_before_they_are_due_and_restored() {
    let mut replayer = Replayer::new(PID, signal_trace());
    replayer.step(stop(0x85)).unwrap();
    assert_eq!(
        replayer.step(exit(0)).unwrap(),
        vec![ReplayCommand::Arm(10), ReplayCommand::Resume(0)]
    );
    assert_eq!(
        replayer.step(stop(10)).unwrap(),
        vec![ReplayCommand::RestoreSignal(siginfo(10, 0))]
    );
    assert_eq!(
        replayer.step(ReplayInput::Signal(siginfo(10, 0))).unwrap(),
        vec![ReplayCommand::Arm(15), ReplayCommand::Resume(10)]
    );
    replayer.step(stop(15)).unwrap();
    assert_eq!(
        replayer.step(ReplayInput::Signal(siginfo(15, -6))).unwrap(),
        vec![ReplayCommand::Resume(15)]
    );
    assert_eq!(
        replayer.step(ReplayInput::Status(15)).unwrap(),
        vec![ReplayCommand::Done(TraceeTermination::Signaled(15))]
    );
}

#[test]
fn signals_that_differ_diverge() {
    let mut replayer = launched(signal_trace());
    assert_eq!(
        replayer.step(stop(12)).unwrap_err(),
        "replay divergence at recorded event 2: expected signal 10, observed live signal 12 (pid=500)"
    );

    let mut replayer = launched(signal_trace());
    replayer.step(stop(10)).unwrap();
    assert_eq!(
        replayer.step(ReplayInput::Signal(siginfo(10, -6))).unwrap_err(),
        "replay divergence at recorded event 2: expected restored siginfo of signal 10, observed si_signo 10, si_errno 0, si_code -6 (pid=500)"
    );

    let mut replayer = launched(getpid_trace());
    assert_eq!(
        replayer.step(stop(10)).unwrap_err(),
        "replay divergence: unrecorded live signal 10 on pid 500"
    );

    let mut replayer = launched(getpid_trace());
    assert_eq!(
        replayer.step(ReplayInput::Status(9)).unwrap_err(),
        "replay divergence: tracee terminated unexpectedly by signal 9"
    );

    let mut replayer = launched(signal_trace());
    replayer.step(stop(10)).unwrap();
    replayer.step(ReplayInput::Signal(siginfo(10, 0))).unwrap();
    assert_eq!(
        replayer.step(ReplayInput::Status(10)).unwrap_err(),
        "replay divergence: tracee terminated prematurely at recorded event 3; 1 recorded events remaining in trace"
    );
}

#[test]
fn launch_stops_are_checked() {
    let mut replayer = Replayer::new(PID, getpid_trace());
    assert_eq!(
        replayer.step(stop(5)).unwrap_err(),
        "expected initial bootstrap execve syscall exit stop for pid 500, got status 0x57f"
    );
    assert_eq!(replayer.phase(), Phase::Ended);
    assert_eq!(
        replayer.step(stop(0x85)).unwrap_err(),
        "report does not fit the state of the replay"
    );

    let mut replayer = Replayer::new(PID, getpid_trace());
    replayer.step(stop(0x85)).unwrap();
    assert_eq!(
        replayer.step(entry(1, [0; 6])).unwrap_err(),
        "expected PTRACE_SYSCALL_INFO_EXIT for initial bootstrap stop on pid 500, got op 1"
    );
}

#[test]
fn entries_that_differ_diverge() {
    let mut replayer = launched(getpid_trace());
    assert_eq!(
        syscall(&mut replayer, entry(1, [0; 6])).unwrap_err(),
        "replay divergence at recorded event 2: expected syscall-enter nr=39, observed live syscall-enter nr=1 (pid=500)"
    );

    let mut replayer = launched(read_trace(4));
    assert_eq!(
        syscall(&mut replayer, entry(0, [8, 0x9000, 15, 0, 0, 0])).unwrap_err(),
        "replay divergence at recorded event 2: expected read count 16, observed live count 15 (pid=500)"
    );

    let mut replayer = launched(getpid_trace());
    syscall(&mut replayer, entry(39, [0; 6])).unwrap();
    assert_eq!(
        syscall(&mut replayer, entry(39, [0; 6])).unwrap_err(),
        "replay divergence on pid 500: received syscall-enter nr=39 while another syscall is still pending"
    );

    let mut replayer = launched(signal_trace());
    assert_eq!(
        syscall(&mut replayer, entry(39, [0; 6])).unwrap_err(),
        "replay divergence at recorded event 2: expected signal 10, observed live syscall-enter nr=39 (pid=500)"
    );

    let mut replayer = launched(read_trace(0));
    syscall(&mut replayer, entry(0, [8, 0x9000, 16, 0, 0, 0])).unwrap();
    syscall(&mut replayer, exit(-38)).unwrap();
    assert_eq!(
        syscall(&mut replayer, entry(1, [0; 6])).unwrap_err(),
        "replay divergence: extra live syscall-enter nr=1 on pid 500 after trace exhausted"
    );
}

#[test]
fn exits_that_differ_diverge() {
    let mut replayer = launched(getpid_trace());
    assert_eq!(
        syscall(&mut replayer, exit(0)).unwrap_err(),
        "replay divergence on pid 500: received unexpected syscall-exit with no pending live syscall-enter"
    );

    let mut replayer = launched(getpid_trace());
    syscall(&mut replayer, entry(39, [0; 6])).unwrap();
    assert_eq!(
        syscall(&mut replayer, exit(500)).unwrap_err(),
        "replay suppression failure at event 3: expected suppression sentinel -ENOSYS (-38), observed exit result 500 (is_error=1, pid=500)"
    );

    let mut replayer = launched(trace(|w| {
        w.write_syscall_enter(1, 39, [0; 6]).unwrap();
        w.write_syscall_exit(1, 39, 1).unwrap();
        w.write_syscall_enter(1, 1, [0; 6]).unwrap();
        w.write_signal_delivery(1, 10, 0, 0, &siginfo(10, 0)).unwrap();
    }));
    syscall(&mut replayer, entry(39, [0; 6])).unwrap();
    syscall(&mut replayer, exit(-38)).unwrap();
    assert_eq!(
        syscall(&mut replayer, entry(1, [0; 6])).unwrap(),
        vec![ReplayCommand::Arm(10), ReplayCommand::Resume(0)]
    );
    assert_eq!(
        syscall(&mut replayer, exit(0)).unwrap_err(),
        "replay divergence at recorded event 5: expected signal 10, observed live syscall-exit"
    );

    let mut replayer = launched(getpid_trace());
    assert_eq!(
        syscall(&mut replayer, ReplayInput::Syscall(SyscallInfo::Seccomp { number: 1 })).unwrap_err(),
        "replay divergence: unexpected ptrace_syscall_info op 3 for pid 500"
    );
}

#[test]
fn a_trace_that_ends_in_a_call() {
    let mut replayer = launched(trace(|w| {
        w.write_signal_delivery(1, 10, 0, 0, &siginfo(10, 0)).unwrap();
        w.write_syscall_enter(1, 39, [0; 6]).unwrap();
    }));
    replayer.step(stop(10)).unwrap();
    replayer.step(ReplayInput::Signal(siginfo(10, 0))).unwrap();
    assert_eq!(
        syscall(&mut replayer, entry(39, [0; 6])).unwrap_err(),
        "replay divergence: trace ended after SYS_getpid enter event 3"
    );

    let mut replayer = launched(getpid_trace());
    syscall(&mut replayer, entry(39, [0; 6])).unwrap();
    syscall(&mut replayer, exit(-38)).unwrap();
    syscall(&mut replayer, entry(231, [0; 6])).unwrap();
    assert_eq!(
        syscall(&mut replayer, exit(0)).unwrap_err(),
        "replay divergence on pid 500: trace exhausted at live syscall-exit for nr=231"
    );
}

#[test]
fn ends_that_differ_diverge() {
    let mut replayer = launched(getpid_trace());
    assert_eq!(
        replayer.step(ReplayInput::Status(0)).unwrap_err(),
        "replay divergence: tracee exited prematurely at recorded event 2; 3 recorded events remaining in trace"
    );

    let mut replayer = launched(getpid_trace());
    syscall(&mut replayer, entry(39, [0; 6])).unwrap();
    assert_eq!(
        replayer.step(ReplayInput::Status(0)).unwrap_err(),
        "replay divergence: tracee exited while non-terminating syscall was pending"
    );

    let mut replayer = launched(getpid_trace());
    assert_eq!(
        replayer
            .step(ReplayInput::Status((4 << 16) | (5 << 8) | 0x7f))
            .unwrap_err(),
        "replay divergence: unexpected ptrace event 4 for pid 500"
    );

    let mut replayer = launched(getpid_trace());
    assert_eq!(
        replayer.step(ReplayInput::Status(0xffff)).unwrap_err(),
        "replay divergence: unexpected wait status 0xffff for pid 500"
    );

    let mut unchecked = Replayer::new(PID, trace(|_| {}));
    unchecked.step(stop(0x85)).unwrap();
    unchecked.step(exit(0)).unwrap();
    assert_eq!(
        unchecked.step(ReplayInput::Status(0)).unwrap_err(),
        "replay failed: no substitution was performed during execution"
    );
}

#[test]
fn map_descriptions_are_passed_over() {
    let mut replayer = launched(trace(|w| {
        w.write_syscall_enter(1, 39, [0; 6]).unwrap();
        w.write_syscall_exit(1, 39, 1).unwrap();
        w.write_syscall_enter(1, 11, [0; 6]).unwrap();
        let id = w.write_syscall_exit(1, 11, 0).unwrap();
        w.write_memory_map_remove(1, id, &region()).unwrap();
    }));
    syscall(&mut replayer, entry(39, [0; 6])).unwrap();
    syscall(&mut replayer, exit(-38)).unwrap();
    syscall(&mut replayer, entry(11, [0; 6])).unwrap();
    syscall(&mut replayer, exit(0)).unwrap();
    assert_eq!(
        replayer.step(ReplayInput::Status(0)).unwrap(),
        vec![ReplayCommand::Done(TraceeTermination::Exited(0))]
    );
}

#[test]
fn test_m6_replay_preflight_unsupported_signal_rejected_prelaunch() {
    let stopping = trace(|w| {
        w.write_signal_delivery(1, 19, 0, 0, &siginfo(19, 0)).unwrap();
    });
    let err1 = replay_preflight(&stopping).unwrap_err();
    assert!(
        err1.contains("is unsupported in M6 deterministic replay"),
        "expected preflight error: {}",
        err1
    );

    let timer = trace(|w| {
        w.write_signal_delivery(1, 10, 0, 123, &siginfo(10, 123)).unwrap();
    });
    let err2 = replay_preflight(&timer).unwrap_err();
    assert!(
        err2.contains("outside M6 supported deterministic class"),
        "expected preflight error: {}",
        err2
    );
}

#[test]
fn test_m6_replay_preflight_signal_interposed_in_substituted_syscall_rejected() {
    let in_getpid = trace(|w| {
        w.write_syscall_enter(1, SYS_GETPID_X86_64, [0; 6]).unwrap();
        w.write_signal_delivery(1, 10, 0, 0, &siginfo(10, 0)).unwrap();
        w.write_syscall_exit(1, SYS_GETPID_X86_64, 42).unwrap();
    });
    let err1 = replay_preflight(&in_getpid).unwrap_err();
    assert!(
        err1.contains("SignalDelivery interposed inside substituted SYS_getpid pair"),
        "expected SYS_getpid preflight error: {}",
        err1
    );

    let in_read = trace(|w| {
        w.write_syscall_enter(1, SYS_READ_X86_64, [0, 0x1000, 10, 0, 0, 0]).unwrap();
        w.write_signal_delivery(1, 10, 0, 0, &siginfo(10, 0)).unwrap();
        w.write_syscall_exit(1, SYS_READ_X86_64, 0).unwrap();
    });
    let err2 = replay_preflight(&in_read).unwrap_err();
    assert!(
        err2.contains("SignalDelivery interposed inside substituted SYS_read pair"),
        "expected SYS_read preflight error: {}",
        err2
    );
}

#[test]
fn test_m4_v1_compatibility_and_rejection() {
    let mut v1_buf = Vec::new();
    let mut writer = TraceWriter::new_v1(&mut v1_buf).unwrap();
    assert_eq!(writer.version(), TRACE_VERSION_1);
    writer.write_syscall_enter(100, 39, [0; 6]).unwrap();
    writer.write_syscall_exit(100, 39, 1234).unwrap();
    writer.finish().unwrap();

    let parsed = parse_trace_bytes(&v1_buf).unwrap();
    assert_eq!(parsed.version, TRACE_VERSION_1);
    assert_eq!(parsed.events.len(), 2);
    assert!(replay_preflight(&parsed).is_ok());

    let mut v1_read_buf = Vec::new();
    let mut writer2 = TraceWriter::new_v1(&mut v1_read_buf).unwrap();
    writer2
        .write_syscall_enter(100, 0, [4, 0x7ffd_1234, 64, 0, 0, 0])
        .unwrap();
    writer2.write_syscall_exit(100, 0, 18).unwrap();
    writer2.finish().unwrap();
    let err = replay_preflight(&parse_trace_bytes(&v1_read_buf).unwrap()).unwrap_err();
    assert!(
        err.contains("V1 trace cannot replay SYS_read memory output"),
        "must explicitly reject V1 read memory replay: {}",
        err
    );
}

#[test]
fn test_m3_trace_without_getpid_rejected() {
    let plain = trace(|w| {
        w.write_syscall_enter(1, 1, [0; 6]).unwrap();
        w.write_syscall_exit(1, 1, 6).unwrap();
    });
    let err = replay_preflight(&plain).unwrap_err();
    assert!(
        err.contains("no supported SYS_getpid substitution"),
        "{}",
        err
    );
}

#[test]
fn other_traces_that_are_not_replayed() {
    let empty = ParsedTrace { version: 4, events: Vec::new() };
    assert_eq!(
        replay_preflight(&empty).unwrap_err(),
        "M4 replay trace contains no events"
    );
    let threads = trace(|w| {
        w.write_syscall_enter(2, 39, [0; 6]).unwrap();
    });
    assert_eq!(
        replay_preflight(&threads).unwrap_err(),
        "M4 replay does not support multi-threaded trace with multiple TIDs"
    );
    let odd_pid = trace(|w| {
        w.write_syscall_enter(1, 39, [0; 6]).unwrap();
        w.write_syscall_exit(1, 39, 0).unwrap();
    });
    assert_eq!(
        replay_preflight(&odd_pid).unwrap_err(),
        "M4 replay trace contains invalid recorded getpid result 0"
    );
}
