use mofa_studio::fm_worker::{
    mic_action_name, BridgePayload, MicAction, StopMode, WorkerAction, WorkerCommand, WorkerState,
    STARTUP_GRACE_MS, STATUS_CHECK_INTERVAL_MS,
};

fn started_worker(now_ms: u64) -> WorkerState {
    let mut w = WorkerState::new(0);
    w.on_started(now_ms);
    w
}

fn sent(action: WorkerAction) -> (String, String, BridgePayload) {
    match action {
        WorkerAction::Send(s) => (s.bridge, s.input, s.payload),
        other => panic!("expected a send, got {:?}", other),
    }
}

#[test]
fn bridge_commands_are_ignored_without_a_dispatcher() {
    let mut w = WorkerState::new(5);
    assert!(matches!(w.on_command(WorkerCommand::SendPrompt { message: "hi".to_string() }), WorkerAction::Ignore));
    assert!(matches!(w.on_command(WorkerCommand::UpdateBufferStatus), WorkerAction::Ignore));
    assert!(matches!(w.on_command(WorkerCommand::Mic(MicAction::StartRecording)), WorkerAction::Ignore));
    assert!(!w.running && !w.dispatching);
    assert_eq!(w.last_check_ms, 5);
}

#[test]
fn commands_are_routed_to_their_bridges() {
    let mut w = started_worker(100);
    let (b, i, p) = sent(w.on_command(WorkerCommand::SendPrompt { message: "hello".to_string() }));
    assert_eq!((b.as_str(), i.as_str()), ("mofa-prompt-input", "prompt"));
    assert!(matches!(p, BridgePayload::Text(m) if m == "hello"));
    let (b, i, p) = sent(w.on_command(WorkerCommand::SendControl { command: "reset".to_string() }));
    assert_eq!((b.as_str(), i.as_str()), ("mofa-prompt-input", "control"));
    assert!(matches!(p, BridgePayload::Control(c) if c == "reset"));
    let (b, i, p) = sent(w.on_command(WorkerCommand::UpdateBufferStatus));
    assert_eq!((b.as_str(), i.as_str()), ("mofa-audio-player", "buffer_status"));
    assert!(matches!(p, BridgePayload::BufferStatus));
    let (b, i, p) = sent(w.on_command(WorkerCommand::Mic(MicAction::SetAecEnabled(true))));
    assert_eq!((b.as_str(), i.as_str()), ("mofa-mic-input", "control"));
    assert!(matches!(p, BridgePayload::Mic(MicAction::SetAecEnabled(true))));
    assert!(w.running && w.dispatching);
    assert_eq!(w.started_at_ms, Some(100));
}

#[test]
fn mic_actions_are_named_for_the_bridge() {
    assert_eq!(mic_action_name(MicAction::StartRecording), "start_recording");
    assert_eq!(mic_action_name(MicAction::StopRecording), "stop_recording");
    assert_eq!(mic_action_name(MicAction::SetAecEnabled(false)), "set_aec_enabled");
}

#[test]
fn stops_clear_the_running_state() {
    let mut w = started_worker(100);
    assert!(matches!(w.on_command(WorkerCommand::StopDataflow), WorkerAction::Stop(StopMode::Graceful)));
    assert!(!w.running && !w.dispatching && w.started_at_ms.is_none());
    let mut w = started_worker(100);
    assert!(matches!(
        w.on_command(WorkerCommand::StopDataflowWithGrace { grace_seconds: 3 }),
        WorkerAction::Stop(StopMode::Grace(3))
    ));
    let mut w = started_worker(100);
    assert!(matches!(w.on_command(WorkerCommand::ForceStopDataflow), WorkerAction::Stop(StopMode::Immediate)));
    assert!(!w.running);
    let mut idle = WorkerState::new(0);
    assert!(matches!(idle.on_command(WorkerCommand::StopDataflow), WorkerAction::Stop(StopMode::Graceful)));
}

#[test]
fn start_is_left_to_the_caller() {
    let mut w = WorkerState::new(7);
    assert!(matches!(w.on_command(WorkerCommand::StartDataflow), WorkerAction::Start));
    assert!(!w.running && !w.dispatching);
}

#[test]
fn no_status_check_during_the_startup_grace_period() {
    assert_eq!(STARTUP_GRACE_MS, 10_000);
    assert_eq!(STATUS_CHECK_INTERVAL_MS, 2_000);
    let mut w = started_worker(1_000);
    assert!(!w.status_check_due(5_000));
    assert!(!w.begin_status_check(10_999));
    assert_eq!(w.last_check_ms, 0);
    assert!(w.status_check_due(11_000));
    assert!(w.begin_status_check(11_000));
    assert_eq!(w.last_check_ms, 11_000);
    assert!(!w.status_check_due(12_999));
    assert!(w.status_check_due(13_000));
}

#[test]
fn status_checks_are_spaced_without_a_start() {
    let mut w = WorkerState::new(0);
    assert!(!w.status_check_due(1_999));
    assert!(w.status_check_due(2_000));
    // Due, but with no dispatcher there is nobody to ask.
    assert!(!w.begin_status_check(2_000));
    assert_eq!(w.last_check_ms, 2_000);
    assert!(!w.status_check_due(3_000));
}

#[test]
fn an_unexpected_stop_is_reported_once() {
    let mut w = started_worker(0);
    assert!(!w.on_status(true));
    assert!(w.running);
    assert!(w.on_status(false));
    assert!(!w.running && w.started_at_ms.is_none());
    assert!(w.dispatching);
    assert!(!w.on_status(false));
}
