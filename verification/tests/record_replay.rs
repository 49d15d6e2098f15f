use causal::recorder::{RecordInput, Recorder, SyscallInfo};
use causal::replay::{replay_preflight, ReplayCommand, ReplayInput, Replayer};
use causal::trace::{parse_trace_bytes, TraceEncoder};
use causal::tracer::TraceeTermination;

const MAPS: &[u8] = b"400000-401000 r-xp 0 8:1 5 /prog\n7ff000000000-7ff000010000 rw-p 0 0:0 0 [stack]\n";

const SMALLER_MAPS: &[u8] = b"7ff000000000-7ff000010000 rw-p 0 0:0 0 [stack]\n";

const SYSCALL_STOP: i32 = (0x85 << 8) | 0x7f;

fn siginfo(signo: i32, sender: i32) -> Vec<u8> {
    let mut raw = vec![0_u8; 128];
    raw[0..4].copy_from_slice(&signo.to_le_bytes());
    raw[16..20].copy_from_slice(&sender.to_le_bytes());
    raw
}

fn entry(number: u64, args: [u64; 6]) -> SyscallInfo {
    SyscallInfo::Entry { number, args }
}

fn exit(result: i64) -> SyscallInfo {
    SyscallInfo::Exit { result, is_error: 0 }
}

#[test]
fn a_recorded_run_is_replayed() {
    let mut out = Vec::new();
    let encoder = TraceEncoder::start(&mut out, 4).unwrap();
    let mut recorder = Recorder::new(10, Some(encoder));
    let reports = vec![
        RecordInput::Status(SYSCALL_STOP),
        RecordInput::Syscall(exit(0)),
        RecordInput::Maps(MAPS.to_vec()),
        RecordInput::Status(SYSCALL_STOP),
        RecordInput::Syscall(entry(39, [0; 6])),
        RecordInput::Status(SYSCALL_STOP),
        RecordInput::Syscall(exit(10)),
        RecordInput::Status((10 << 8) | 0x7f),
        RecordInput::Signal(siginfo(10, 99)),
        RecordInput::Status(SYSCALL_STOP),
        RecordInput::Syscall(entry(0, [3, 0x7ff0_0000_0000, 8, 0, 0, 0])),
        RecordInput::Status(SYSCALL_STOP),
        RecordInput::Syscall(exit(5)),
        RecordInput::Memory(b"hello".to_vec()),
        RecordInput::Status(SYSCALL_STOP),
        RecordInput::Syscall(entry(11, [0x40_0000, 0x1000, 0, 0, 0, 0])),
        RecordInput::Status(SYSCALL_STOP),
        RecordInput::Syscall(exit(0)),
        RecordInput::Maps(SMALLER_MAPS.to_vec()),
        RecordInput::Status(SYSCALL_STOP),
        RecordInput::Syscall(entry(231, [4, 0, 0, 0, 0, 0])),
        RecordInput::Status(4 << 8),
    ];
    for report in reports {
        recorder.step(report, &mut out).unwrap();
    }

    let trace = parse_trace_bytes(&out).unwrap();
    assert_eq!(trace.events.len(), 11);
    replay_preflight(&trace).unwrap();

    let mut replayer = Replayer::new(20, trace);
    let mut commands = Vec::new();
    let reports = vec![
        ReplayInput::Status(SYSCALL_STOP),
        ReplayInput::Syscall(exit(0)),
        ReplayInput::Status(SYSCALL_STOP),
        ReplayInput::Syscall(entry(39, [0; 6])),
        ReplayInput::Status(SYSCALL_STOP),
        ReplayInput::Syscall(exit(-38)),
        ReplayInput::Status((10 << 8) | 0x7f),
        ReplayInput::Signal(siginfo(10, 99)),
        ReplayInput::Status(SYSCALL_STOP),
        ReplayInput::Syscall(entry(0, [3, 0x7ff0_0000_4000, 8, 0, 0, 0])),
        ReplayInput::Status(SYSCALL_STOP),
        ReplayInput::Syscall(exit(-38)),
        ReplayInput::Status(SYSCALL_STOP),
        ReplayInput::Syscall(entry(11, [0x55_0000, 0x1000, 0, 0, 0, 0])),
        ReplayInput::Status(SYSCALL_STOP),
        ReplayInput::Syscall(exit(0)),
        ReplayInput::Status(SYSCALL_STOP),
        ReplayInput::Syscall(entry(231, [4, 0, 0, 0, 0, 0])),
        ReplayInput::Status(4 << 8),
    ];
    for report in reports {
        commands.extend(replayer.step(report).unwrap());
    }
    assert!(commands.contains(&ReplayCommand::SetResult(10)));
    assert!(commands.contains(&ReplayCommand::Arm(10)));
    assert!(commands.contains(&ReplayCommand::RestoreSignal(siginfo(10, 99))));
    assert!(commands.contains(&ReplayCommand::WriteMemory {
        event_id: 7,
        address: 0x7ff0_0000_4000,
        data: b"hello".to_vec(),
    }));
    assert_eq!(
        commands.last(),
        Some(&ReplayCommand::Done(TraceeTermination::Exited(4)))
    );
}
