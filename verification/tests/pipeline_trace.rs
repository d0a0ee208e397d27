use core::sync::atomic::{AtomicBool, Ordering};

use obscura::events::PipelineEvent;
use obscura::runner::{Action, PipelineContext, Runner, RunnerStep};

fn is_terminal(e: &PipelineEvent) -> bool {
    matches!(
        e,
        PipelineEvent::Done(_) | PipelineEvent::Error(_) | PipelineEvent::Cancelled
    )
}

fn check_trace(trace: &[PipelineEvent]) {
    // exactly one terminal event, and it is last
    assert!(!trace.is_empty());
    let terminals = trace.iter().filter(|e| is_terminal(e)).count();
    assert_eq!(terminals, 1);
    assert!(is_terminal(trace.last().unwrap()));
    // progress values never decrease
    let mut last: u32 = 0;
    for e in trace {
        if let PipelineEvent::Progress(p) = e {
            assert!(*p >= last, "progress went backwards: {} after {}", p, last);
            assert!(*p <= 1000);
            last = *p;
        }
    }
    // a successful run ends at full progress just before Done
    if matches!(trace.last().unwrap(), PipelineEvent::Done(_)) {
        assert!(trace.len() >= 2);
        assert!(matches!(trace[trace.len() - 2], PipelineEvent::Progress(1000)));
    }
}

fn input_bytes() -> Vec<u8> {
    let mut bytes = vec![0u8, 0, 0];
    bytes.extend_from_slice(b"Hello, world!");
    bytes.extend_from_slice(&[0u8, 0]);
    bytes
}

#[test]
fn successful_run_emits_done_last_at_full_progress() {
    let flag = AtomicBool::new(false);
    let ctx = PipelineContext::new("input.bin".to_string(), true, true);
    let mut runner = Runner::new(ctx);
    let mut trace: Vec<PipelineEvent> = Vec::new();

    let RunnerStep { events, action } = runner.begin();
    trace.extend(events);
    let path = match action {
        Action::ReadInput { path } => path,
        _ => panic!("expected a read request"),
    };
    assert_eq!(path, "input.bin");

    let RunnerStep { events, action } = runner.on_read(Ok(input_bytes()), &flag);
    trace.extend(events);
    let (enc_path, masked) = match action {
        Action::WriteArtifact { path, bytes } => (path, bytes),
        _ => panic!("expected the masked-buffer write"),
    };
    assert_eq!(enc_path, "input.bin.enc");
    // the one candidate string is masked, everything else is untouched
    let mut expected = input_bytes();
    for b in expected[3..16].iter_mut() {
        *b ^= 0xAA;
    }
    assert_eq!(masked, expected);

    let RunnerStep { events, action } = runner.on_artifact_written(Ok(()), &flag);
    trace.extend(events);
    let (map_path, text) = match action {
        Action::WriteText { path, text } => (path, text),
        _ => panic!("expected the mapping write"),
    };
    assert_eq!(map_path, "input.bin.obf-map");
    let expected_lines: Vec<String> =
        (1..=8).map(|i| format!("sim_func_{} => f_{:04}", i, i)).collect();
    assert_eq!(text, expected_lines.join("\n"));

    let RunnerStep { events, action } = runner.on_artifact_written(Ok(()), &flag);
    trace.extend(events);
    let (from, to) = match action {
        Action::CopyInput { from, to } => (from, to),
        _ => panic!("expected the final copy"),
    };
    assert_eq!(from, "input.bin");
    assert_eq!(to, "input.bin.obscura-protected");

    let RunnerStep { events, action } = runner.on_copied(Ok(()));
    trace.extend(events);
    assert!(matches!(action, Action::Stop));
    match trace.last().unwrap() {
        PipelineEvent::Done(p) => assert_eq!(p, "input.bin.obscura-protected"),
        other => panic!("expected Done, got {:?}", other),
    }
    check_trace(&trace);
}

#[test]
fn missing_input_emits_error_with_path_and_stops() {
    let flag = AtomicBool::new(false);
    let ctx = PipelineContext::new("/tmp/definitely-missing.exe".to_string(), true, true);
    let mut runner = Runner::new(ctx);
    let mut trace: Vec<PipelineEvent> = Vec::new();
    let RunnerStep { events, .. } = runner.begin();
    trace.extend(events);
    let RunnerStep { events, action } =
        runner.on_read(Err("No such file or directory".to_string()), &flag);
    assert!(matches!(action, Action::Stop));
    assert_eq!(events.len(), 1);
    match &events[0] {
        PipelineEvent::Error(m) => {
            assert_eq!(
                m,
                "Failed to read file '/tmp/definitely-missing.exe': No such file or directory"
            );
            assert!(m.contains("/tmp/definitely-missing.exe"));
        },
        other => panic!("expected Error, got {:?}", other),
    }
    trace.extend(events);
    check_trace(&trace);
}

#[test]
fn cancellation_mid_scan_emits_cancelled_and_nothing_after() {
    let flag = AtomicBool::new(false);
    let ctx = PipelineContext::new("input.bin".to_string(), true, true);
    let mut runner = Runner::new(ctx);
    let mut trace: Vec<PipelineEvent> = Vec::new();
    let RunnerStep { events, .. } = runner.begin();
    trace.extend(events);
    // the host sets the flag while the run is under way
    flag.store(true, Ordering::Relaxed);
    let RunnerStep { events, action } = runner.on_read(Ok(input_bytes()), &flag);
    assert!(matches!(action, Action::Stop));
    trace.extend(events);
    assert!(matches!(trace.last().unwrap(), PipelineEvent::Cancelled));
    assert_eq!(
        trace.iter().filter(|e| matches!(e, PipelineEvent::Done(_) | PipelineEvent::Error(_))).count(),
        0
    );
    check_trace(&trace);
}

#[test]
fn cancellation_before_the_write_stage_is_honored() {
    let flag = AtomicBool::new(false);
    let ctx = PipelineContext::new("input.bin".to_string(), true, true);
    let mut runner = Runner::new(ctx);
    let mut trace: Vec<PipelineEvent> = Vec::new();
    let RunnerStep { events, .. } = runner.begin();
    trace.extend(events);
    let RunnerStep { events, action } = runner.on_read(Ok(input_bytes()), &flag);
    trace.extend(events);
    assert!(matches!(action, Action::WriteArtifact { .. }));
    let RunnerStep { events, action } = runner.on_artifact_written(Ok(()), &flag);
    trace.extend(events);
    assert!(matches!(action, Action::WriteText { .. }));
    // the host sets the flag after the mapping artifact went out
    flag.store(true, Ordering::Relaxed);
    let RunnerStep { events, action } = runner.on_artifact_written(Ok(()), &flag);
    trace.extend(events);
    assert!(matches!(action, Action::Stop));
    assert!(matches!(trace.last().unwrap(), PipelineEvent::Cancelled));
    check_trace(&trace);
}

#[test]
fn run_without_optional_stages_still_completes() {
    let flag = AtomicBool::new(false);
    let ctx = PipelineContext::new("plain.bin".to_string(), false, false);
    let mut runner = Runner::new(ctx);
    let mut trace: Vec<PipelineEvent> = Vec::new();
    let RunnerStep { events, .. } = runner.begin();
    trace.extend(events);
    let RunnerStep { events, action } = runner.on_read(Ok(input_bytes()), &flag);
    trace.extend(events);
    let (from, to) = match action {
        Action::CopyInput { from, to } => (from, to),
        other => panic!("expected the final copy, got another action: {:?}", matches!(other, Action::Stop)),
    };
    assert_eq!(from, "plain.bin");
    assert_eq!(to, "plain.bin.obscura-protected");
    let RunnerStep { events, action } = runner.on_copied(Ok(()));
    trace.extend(events);
    assert!(matches!(action, Action::Stop));
    check_trace(&trace);
    assert!(matches!(trace.last().unwrap(), PipelineEvent::Done(_)));
}

#[test]
fn failed_side_artifact_write_does_not_abort_the_run() {
    let flag = AtomicBool::new(false);
    let ctx = PipelineContext::new("input.bin".to_string(), true, false);
    let mut runner = Runner::new(ctx);
    let mut trace: Vec<PipelineEvent> = Vec::new();
    let RunnerStep { events, .. } = runner.begin();
    trace.extend(events);
    let RunnerStep { events, action } = runner.on_read(Ok(input_bytes()), &flag);
    trace.extend(events);
    assert!(matches!(action, Action::WriteArtifact { .. }));
    let RunnerStep { events, action } =
        runner.on_artifact_written(Err("disk full".to_string()), &flag);
    trace.extend(events);
    assert!(matches!(action, Action::CopyInput { .. }));
    let RunnerStep { events, action } = runner.on_copied(Ok(()));
    trace.extend(events);
    assert!(matches!(action, Action::Stop));
    check_trace(&trace);
    assert!(matches!(trace.last().unwrap(), PipelineEvent::Done(_)));
}

#[test]
fn failed_final_copy_is_the_run_error() {
    let flag = AtomicBool::new(false);
    let ctx = PipelineContext::new("plain.bin".to_string(), false, false);
    let mut runner = Runner::new(ctx);
    let mut trace: Vec<PipelineEvent> = Vec::new();
    let RunnerStep { events, .. } = runner.begin();
    trace.extend(events);
    let RunnerStep { events, .. } = runner.on_read(Ok(input_bytes()), &flag);
    trace.extend(events);
    let RunnerStep { events, action } = runner.on_copied(Err("permission denied".to_string()));
    trace.extend(events);
    assert!(matches!(action, Action::Stop));
    match trace.last().unwrap() {
        PipelineEvent::Error(m) => {
            assert_eq!(
                m,
                "Failed to write output 'plain.bin.obscura-protected': permission denied"
            );
        },
        other => panic!("expected Error, got {:?}", other),
    }
    check_trace(&trace);
}
