use causal::recorder::{Phase, RecordCommand, RecordInput, Recorder, SyscallInfo};
use causal::replay::replay_preflight;
use causal::trace::{
    parse_trace_bytes, reconstruct_maps_at_event, ParsedTrace, TraceEncoder, TraceEvent,
};
use causal::tracer::TraceeTermination;

const PID: i32 = 77;

const FIRST_MAPS: &[u8] = b"400000-401000 r-xp 0 8:1 5 /prog\n7ff000000000-7ff000010000 rw-p 0 0:0 0 [stack]\n";

const MORE_MAPS: &[u8] = b"400000-401000 r-xp 0 8:1 5 /prog\n500000-502000 rw-p 0 0:0 0\n7ff000000000-7ff000010000 rw-p 0 0:0 0 [stack]\n";

fn stop(signal: i32) -> RecordInput {
    RecordInput::Status((signal << 8) | 0x7f)
}

fn siginfo(signo: i32, code: i32) -> Vec<u8> {
    let mut raw = vec![0_u8; 128];
    raw[0..4].copy_from_slice(&signo.to_le_bytes());
    raw[8..12].copy_from_slice(&code.to_le_bytes());
    raw[16..20].copy_from_slice(&1234_i32.to_le_bytes());
    raw
}

fn entry(number: u64, args: [u64; 6]) -> RecordInput {
    RecordInput::Syscall(SyscallInfo::Entry { number, args })
}

fn exit(result: i64) -> RecordInput {
    RecordInput::Syscall(SyscallInfo::Exit { result, is_error: 0 })
}

fn print(line: &str) -> RecordCommand {
    RecordCommand::Print(line.to_string())
}

fn traced(out: &mut Vec<u8>) -> Recorder {
    let encoder = TraceEncoder::start(out, 4).unwrap();
    Recorder::new(PID, Some(encoder))
}

fn started(out: &mut Vec<u8>) -> Recorder {
    let mut recorder = traced(out);
    recorder.step(stop(0x85), out).unwrap();
    assert_eq!(
        recorder.step(exit(0), out).unwrap(),
        vec![RecordCommand::ReadMaps]
    );
    assert_eq!(recorder.phase(), Phase::FirstMaps);
    assert_eq!(
        recorder
            .step(RecordInput::Maps(FIRST_MAPS.to_vec()), out)
            .unwrap(),
        vec![RecordCommand::Resume(0)]
    );
    recorder
}

fn call(recorder: &mut Recorder, number: u64, args: [u64; 6], result: i64, out: &mut Vec<u8>) -> Vec<RecordCommand> {
    recorder.step(stop(0x85), out).unwrap();
    recorder.step(entry(number, args), out).unwrap();
    recorder.step(stop(0x85), out).unwrap();
    recorder.step(exit(result), out).unwrap()
}

fn finished(mut recorder: Recorder, mut out: Vec<u8>) -> ParsedTrace {
    recorder.step(RecordInput::Status(0), &mut out).unwrap();
    parse_trace_bytes(&out).unwrap()
}

#[test]
fn a_whole_recording_reads_back_and_can_be_replayed() {
    let mut out = Vec::new();
    let mut recorder = started(&mut out);

    assert_eq!(
        recorder.step(stop(0x85), &mut out).unwrap(),
        vec![RecordCommand::QuerySyscall]
    );
    assert_eq!(
        recorder.step(entry(39, [1, 2, 3, 4, 5, 6]), &mut out).unwrap(),
        vec![
            print("syscall-enter tid=77 nr=39 args=[1, 2, 3, 4, 5, 6]"),
            RecordCommand::Resume(0)
        ]
    );
    recorder.step(stop(0x85), &mut out).unwrap();
    assert_eq!(
        recorder.step(exit(77), &mut out).unwrap(),
        vec![
            print("syscall-exit  tid=77 nr=39 result=77"),
            RecordCommand::Resume(0)
        ]
    );

    assert_eq!(
        call(&mut recorder, 0, [3, 0x7ff0_0000_0100, 16, 0, 0, 0], 4, &mut out),
        vec![
            print("syscall-exit  tid=77 nr=0 result=4"),
            RecordCommand::ReadMemory { address: 0x7ff0_0000_0100, len: 4 }
        ]
    );
    assert_eq!(
        recorder
            .step(RecordInput::Memory(b"data".to_vec()), &mut out)
            .unwrap(),
        vec![RecordCommand::Resume(0)]
    );

    assert_eq!(
        call(&mut recorder, 9, [0; 6], 0x50_0000, &mut out),
        vec![
            print("syscall-exit  tid=77 nr=9 result=5242880"),
            RecordCommand::ReadMaps
        ]
    );
    recorder
        .step(RecordInput::Maps(MORE_MAPS.to_vec()), &mut out)
        .unwrap();

    assert_eq!(
        recorder.step(stop(10), &mut out).unwrap(),
        vec![RecordCommand::QuerySignal]
    );
    assert_eq!(
        recorder
            .step(RecordInput::Signal(siginfo(10, 0)), &mut out)
            .unwrap(),
        vec![
            print("signal-delivery tid=77 sig=10 code=0 errno=0"),
            RecordCommand::Resume(10)
        ]
    );

    assert_eq!(
        recorder.step(RecordInput::Status(3 << 8), &mut out).unwrap(),
        vec![
            print("child exited with status 3"),
            RecordCommand::Done(TraceeTermination::Exited(3))
        ]
    );
    assert_eq!(recorder.phase(), Phase::Ended);

    let trace = parse_trace_bytes(&out).unwrap();
    assert_eq!(trace.version, 4);
    assert_eq!(trace.events.len(), 10);
    assert!(matches!(trace.events[0], TraceEvent::MemoryMapSnapshot { .. }));
    assert!(matches!(
        trace.events[8],
        TraceEvent::MemoryMapAdd { source_event_id: 8, .. }
    ));
    assert!(matches!(
        trace.events[9],
        TraceEvent::SignalDelivery { signal_number: 10, .. }
    ));
    assert!(replay_preflight(&trace).is_ok());

    assert_eq!(reconstruct_maps_at_event(&trace, 7).unwrap().regions().len(), 2);
    assert_eq!(reconstruct_maps_at_event(&trace, 8).unwrap().regions().len(), 3);
    assert_eq!(reconstruct_maps_at_event(&trace, 10).unwrap().regions().len(), 3);
}

#[test]
fn removals_are_written_before_additions() {
    let mut out = Vec::new();
    let mut recorder = started(&mut out);
    call(&mut recorder, 11, [0; 6], 0, &mut out);
    let changed = b"300000-301000 rw-p 0 0:0 0\n400000-401000 r--p 0 8:1 5 /prog\n7ff000000000-7ff000010000 rw-p 0 0:0 0 [stack]\n";
    recorder
        .step(RecordInput::Maps(changed.to_vec()), &mut out)
        .unwrap();
    let trace = finished(recorder, out);
    assert_eq!(trace.events.len(), 6);
    assert!(matches!(
        trace.events[3],
        TraceEvent::MemoryMapRemove { event_id: 4, source_event_id: 3, .. }
    ));
    assert!(matches!(trace.events[4], TraceEvent::MemoryMapAdd { .. }));
    assert!(matches!(trace.events[5], TraceEvent::MemoryMapAdd { .. }));
}

#[test]
fn a_failed_mapping_syscall_writes_no_delta() {
    let mut out = Vec::new();
    let mut recorder = started(&mut out);
    call(&mut recorder, 9, [0; 6], -12, &mut out);
    recorder
        .step(RecordInput::Maps(FIRST_MAPS.to_vec()), &mut out)
        .unwrap();
    let trace = finished(recorder, out);
    assert_eq!(trace.events.len(), 3);
    assert_eq!(
        reconstruct_maps_at_event(&trace, 2).unwrap(),
        reconstruct_maps_at_event(&trace, 3).unwrap()
    );
}

#[test]
fn a_failed_mapping_syscall_must_not_change_the_map() {
    let mut out = Vec::new();
    let mut recorder = started(&mut out);
    call(&mut recorder, 10, [0; 6], -13, &mut out);
    assert_eq!(
        recorder
            .step(RecordInput::Maps(MORE_MAPS.to_vec()), &mut out)
            .unwrap_err(),
        "failed mapping syscall nr=10 (rval=-13) produced unexpected map changes"
    );
}

#[test]
fn a_map_whose_labels_changed_fails_the_consistency_check() {
    let mut out = Vec::new();
    let mut recorder = started(&mut out);
    call(&mut recorder, 12, [0; 6], 0, &mut out);
    let relabelled = b"400000-401000 r-xp 0 8:1 5 /other\n7ff000000000-7ff000010000 rw-p 0 0:0 0 [stack]\n";
    assert_eq!(
        recorder
            .step(RecordInput::Maps(relabelled.to_vec()), &mut out)
            .unwrap_err(),
        "model diff consistency check failed: reconstructed model does not match fresh observed map"
    );
}

#[test]
fn map_listings_that_cannot_be_read_end_the_recording() {
    let mut out = Vec::new();
    let mut recorder = traced(&mut out);
    recorder.step(stop(0x85), &mut out).unwrap();
    recorder.step(exit(0), &mut out).unwrap();
    assert_eq!(
        recorder
            .step(RecordInput::Maps(b"nonsense".to_vec()), &mut out)
            .unwrap_err(),
        "failed to capture initial process maps for pid 77: invalid range format in proc maps line"
    );

    let mut out = Vec::new();
    let mut recorder = started(&mut out);
    call(&mut recorder, 11, [0; 6], 0, &mut out);
    assert_eq!(
        recorder
            .step(RecordInput::Maps(b"nonsense".to_vec()), &mut out)
            .unwrap_err(),
        "failed to read process maps after syscall nr=11 for pid 77: invalid range format in proc maps line"
    );
}

#[test]
fn read_data_must_be_complete() {
    let mut out = Vec::new();
    let mut recorder = started(&mut out);
    call(&mut recorder, 0, [3, 0x1000, 16, 0, 0, 0], 4, &mut out);
    assert_eq!(
        recorder
            .step(RecordInput::Memory(b"dat".to_vec()), &mut out)
            .unwrap_err(),
        "failed to capture read memory output for pid 77: process_vm_readv short transfer for pid 77: requested 4 bytes, read 3"
    );
}

#[test]
fn syscall_stops_out_of_order_end_the_recording() {
    let mut out = Vec::new();
    let mut recorder = started(&mut out);
    recorder.step(stop(0x85), &mut out).unwrap();
    assert_eq!(
        recorder.step(exit(-1), &mut out).unwrap_err(),
        "syscall pairing invariant violation for pid 77: received unexpected EXIT (rval=-1, is_error=0) with no pending syscall ENTRY"
    );

    let mut out = Vec::new();
    let mut recorder = started(&mut out);
    recorder.step(stop(0x85), &mut out).unwrap();
    recorder.step(entry(1, [0; 6]), &mut out).unwrap();
    recorder.step(stop(0x85), &mut out).unwrap();
    assert_eq!(
        recorder.step(entry(2, [0; 6]), &mut out).unwrap_err(),
        "syscall pairing invariant violation for pid 77: received ENTRY nr=2 while previous syscall ENTRY nr=1 is still pending"
    );
}

#[test]
fn odd_syscall_stops_end_the_recording() {
    let cases = vec![
        (
            SyscallInfo::Seccomp { number: 5 },
            "unsupported seccomp stop for pid 77: nr=5",
        ),
        (
            SyscallInfo::Nothing,
            "tracing invariant violation for pid 77: PTRACE_GET_SYSCALL_INFO returned NONE at syscall stop (status=0x857f)",
        ),
        (
            SyscallInfo::Unknown { op: 9 },
            "unexpected ptrace_syscall_info op 9 for pid 77",
        ),
    ];
    for (info, expected) in cases {
        let mut out = Vec::new();
        let mut recorder = started(&mut out);
        recorder.step(stop(0x85), &mut out).unwrap();
        assert_eq!(
            recorder
                .step(RecordInput::Syscall(info), &mut out)
                .unwrap_err(),
            expected
        );
    }
}

#[test]
fn odd_statuses_end_the_recording() {
    let mut out = Vec::new();
    let mut recorder = started(&mut out);
    assert_eq!(
        recorder
            .step(RecordInput::Status((1 << 16) | (5 << 8) | 0x7f), &mut out)
            .unwrap_err(),
        "unexpected ptrace event 1 for pid 77: raw status=0x1057f, stop_sig=5"
    );

    let mut out = Vec::new();
    let mut recorder = started(&mut out);
    assert_eq!(
        recorder.step(RecordInput::Status(0xffff), &mut out).unwrap_err(),
        "unexpected wait status 0xffff for pid 77: WIFCONTINUED=true"
    );
}

#[test]
fn a_failed_recording_takes_no_more_reports() {
    let mut out = Vec::new();
    let mut recorder = started(&mut out);
    call(&mut recorder, 12, [0; 6], 0, &mut out);
    let written = out.clone();
    let relabelled = b"300000-301000 rw-p 0 0:0 0\n400000-401000 r-xp 0 8:1 5 /other\n";
    assert!(recorder
        .step(RecordInput::Maps(relabelled.to_vec()), &mut out)
        .is_err());
    assert_eq!(out, written);
    assert_eq!(recorder.phase(), Phase::Ended);
    assert_eq!(
        recorder.step(stop(0x85), &mut out).unwrap_err(),
        "report does not fit the state of the recording"
    );
}

#[test]
fn reports_that_were_not_asked_for_are_refused() {
    let mut out = Vec::new();
    let mut recorder = started(&mut out);
    assert_eq!(
        recorder.step(exit(0), &mut out).unwrap_err(),
        "report does not fit the state of the recording"
    );

    let mut out = Vec::new();
    let mut recorder = started(&mut out);
    recorder.step(stop(10), &mut out).unwrap();
    assert_eq!(
        recorder
            .step(RecordInput::Signal(vec![0; 127]), &mut out)
            .unwrap_err(),
        "report does not fit the state of the recording"
    );
}

#[test]
fn a_killing_signal_must_have_been_recorded() {
    let mut out = Vec::new();
    let mut recorder = started(&mut out);
    assert_eq!(
        recorder.step(RecordInput::Status(9), &mut out).unwrap_err(),
        "pid 77 terminated by signal 9 with no preceding recorded/injected signal delivery stop"
    );

    let mut out = Vec::new();
    let mut recorder = started(&mut out);
    recorder.step(stop(15), &mut out).unwrap();
    recorder
        .step(RecordInput::Signal(siginfo(15, 0)), &mut out)
        .unwrap();
    assert_eq!(
        recorder.step(RecordInput::Status(15), &mut out).unwrap(),
        vec![
            print("child terminated by signal 15"),
            RecordCommand::Done(TraceeTermination::Signaled(15))
        ]
    );
    let trace = parse_trace_bytes(&out).unwrap();
    assert_eq!(trace.events.len(), 2);
}

#[test]
fn test_m6_unsupported_synchronous_fault_rejected() {
    let mut out = Vec::new();
    let mut recorder = started(&mut out);
    recorder.step(stop(11), &mut out).unwrap();
    let err = recorder
        .step(RecordInput::Signal(siginfo(11, 1)), &mut out)
        .unwrap_err();
    assert!(
        err.contains("outside M6 supported deterministic class"),
        "expected unsupported class diagnostic: {}",
        err
    );
    assert_eq!(
        err,
        "pid 77: signal 11 with unsupported si_code 1 is outside M6 supported deterministic class (only SI_USER and SI_TKILL are supported)"
    );
}

#[test]
fn signals_that_cannot_be_recorded() {
    let mut out = Vec::new();
    let mut recorder = started(&mut out);
    recorder.step(stop(19), &mut out).unwrap();
    assert_eq!(
        recorder
            .step(RecordInput::Signal(siginfo(19, 0)), &mut out)
            .unwrap_err(),
        "pid 77: signal 19 is unsupported in M6 deterministic recording"
    );

    let mut out = Vec::new();
    let mut recorder = started(&mut out);
    recorder.step(stop(10), &mut out).unwrap();
    assert_eq!(
        recorder
            .step(RecordInput::Signal(siginfo(12, 0)), &mut out)
            .unwrap_err(),
        "pid 77: siginfo si_signo 12 does not match stop signal 10"
    );

    let mut out = Vec::new();
    let mut recorder = traced(&mut out);
    recorder.step(stop(10), &mut out).unwrap();
    assert_eq!(
        recorder
            .step(RecordInput::Signal(siginfo(10, 0)), &mut out)
            .unwrap_err(),
        "pid 77: signal 10 delivered before initial bootstrap MemoryMapSnapshot"
    );
}

#[test]
fn a_signal_inside_a_substituted_call_ends_the_recording() {
    let mut out = Vec::new();
    let mut recorder = started(&mut out);
    recorder.step(stop(0x85), &mut out).unwrap();
    recorder.step(entry(0, [3, 0x1000, 16, 0, 0, 0]), &mut out).unwrap();
    recorder.step(stop(10), &mut out).unwrap();
    assert_eq!(
        recorder
            .step(RecordInput::Signal(siginfo(10, 0)), &mut out)
            .unwrap_err(),
        "pid 77: signal 10 interposed inside pending SYS_read; signal interposition inside substituted SYS_read/SYS_getpid pairs is outside M6 deterministic replay scope"
    );

    // A read that a signal interrupted has been left, with an error, before the signal stop.
    let mut out = Vec::new();
    let mut recorder = started(&mut out);
    call(&mut recorder, 0, [3, 0x1000, 16, 0, 0, 0], -512, &mut out);
    recorder.step(stop(10), &mut out).unwrap();
    assert!(recorder
        .step(RecordInput::Signal(siginfo(10, 0)), &mut out)
        .unwrap_err()
        .contains("signal 10 interposed inside pending SYS_read"));
}

#[test]
fn a_signal_inside_another_call_is_recorded() {
    let mut out = Vec::new();
    let mut recorder = started(&mut out);
    recorder.step(stop(0x85), &mut out).unwrap();
    recorder.step(entry(1, [0; 6]), &mut out).unwrap();
    recorder.step(stop(10), &mut out).unwrap();
    assert_eq!(
        recorder
            .step(RecordInput::Signal(siginfo(10, -6)), &mut out)
            .unwrap()
            .len(),
        2
    );
}

#[test]
fn without_a_trace_everything_passes_through() {
    let mut out = Vec::new();
    let mut recorder = Recorder::new(PID, None);
    recorder.step(stop(0x85), &mut out).unwrap();
    assert_eq!(
        recorder.step(exit(0), &mut out).unwrap(),
        vec![RecordCommand::Resume(0)]
    );
    assert_eq!(
        call(&mut recorder, 0, [3, 0x1000, 16, 0, 0, 0], 4, &mut out),
        vec![
            print("syscall-exit  tid=77 nr=0 result=4"),
            RecordCommand::Resume(0)
        ]
    );
    recorder.step(stop(19), &mut out).unwrap();
    assert_eq!(
        recorder
            .step(RecordInput::Signal(siginfo(19, 1)), &mut out)
            .unwrap(),
        vec![RecordCommand::Resume(19)]
    );
    assert_eq!(
        recorder.step(RecordInput::Status(9), &mut out).unwrap(),
        vec![
            print("child terminated by signal 9"),
            RecordCommand::Done(TraceeTermination::Signaled(9))
        ]
    );
    assert!(out.is_empty());
}

#[test]
fn an_old_format_has_no_room_for_data_and_maps() {
    let mut out = Vec::new();
    let encoder = TraceEncoder::start(&mut out, 1).unwrap();
    let mut recorder = Recorder::new(PID, Some(encoder));
    recorder.step(stop(0x85), &mut out).unwrap();
    assert_eq!(
        recorder.step(exit(0), &mut out).unwrap(),
        vec![RecordCommand::Resume(0)]
    );
    assert_eq!(
        call(&mut recorder, 9, [0; 6], 0, &mut out),
        vec![
            print("syscall-exit  tid=77 nr=9 result=0"),
            RecordCommand::Resume(0)
        ]
    );
    call(&mut recorder, 0, [3, 0x1000, 16, 0, 0, 0], 4, &mut out);
    assert_eq!(
        recorder
            .step(RecordInput::Memory(b"data".to_vec()), &mut out)
            .unwrap_err(),
        "failed to write KernelMemoryWrite trace event: cannot write KernelMemoryWrite in trace format V1"
    );
}
