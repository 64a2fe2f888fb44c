use mofa_studio::dora_integration::{
    default_voice_name, CastAction, CastCommand, CastWorker, ScriptSegment, SendOutcome, SegmentPayload, SegmentQueue, VoiceConfig, VoiceMapping,
    NORMAL_SPEED_BITS,
};

fn seg(speaker: &str, text: &str, index: usize, voice: &str) -> ScriptSegment {
    ScriptSegment {
        speaker: speaker.to_string(),
        text: text.to_string(),
        segment_index: index,
        voice_name: voice.to_string(),
        speed_bits: 1.0f32.to_bits(),
    }
}

#[test]
fn default_voices_follow_speaker_names() {
    assert_eq!(default_voice_name("Host"), "Luo Xiang");
    assert_eq!(default_voice_name("主持人"), "Luo Xiang");
    assert_eq!(default_voice_name("GUEST1"), "Ma Yun");
    assert_eq!(default_voice_name("嘉宾2"), "Ma Baoguo");
    assert_eq!(default_voice_name("guest3"), "Ma Yun");
    assert_eq!(default_voice_name("Narrator"), "Luo Xiang");
    assert_eq!(NORMAL_SPEED_BITS, 1.0f32.to_bits());
}

#[test]
fn mapping_from_speakers() {
    let speakers = vec!["host".to_string(), "guest2".to_string()];
    let m = VoiceMapping::from_speakers(&speakers);
    assert_eq!(m.voices.len(), 2);
    assert_eq!(m.voices[1].speaker, "guest2");
    assert_eq!(m.voices[1].voice_name, "Ma Baoguo");
    assert_eq!(f32::from_bits(m.voices[0].speed_bits), 1.0);
}

#[test]
fn set_voice_then_get_finds_it() {
    let mut m = VoiceMapping::new();
    assert!(m.get_voice_for_speaker("host").is_none());
    m.set_voice(VoiceConfig::new("host".to_string(), "Luo Xiang".to_string(), NORMAL_SPEED_BITS));
    m.set_voice(VoiceConfig::new("guest1".to_string(), "Ma Yun".to_string(), NORMAL_SPEED_BITS));
    m.set_voice(VoiceConfig::new("host".to_string(), "Yang Mi".to_string(), 1.5f32.to_bits()));
    assert_eq!(m.voices.len(), 2);
    let host = m.get_voice_for_speaker("host").unwrap();
    assert_eq!(host.voice_name, "Yang Mi");
    assert_eq!(f32::from_bits(host.speed_bits), 1.5);
    assert_eq!(m.get_voice_for_speaker("guest1").unwrap().voice_name, "Ma Yun");
    assert_eq!(m.voices[1].speaker, "host");
}

#[test]
fn segments_are_sent_one_at_a_time_in_order() {
    let mut q = SegmentQueue::new();
    let first = q
        .queue(vec![seg("host", "Hello", 0, "Luo Xiang"), seg("guest1", "Hi", 1, "Luo Xiang"), seg("host", "Bye", 2, "Luo Xiang")])
        .unwrap();
    assert_eq!(first.segment_index, 0);
    assert_eq!(first.total, 3);
    assert_eq!(first.speaker, "host");
    match first.payload {
        SegmentPayload::Plain(t) => assert_eq!(t, "host\nHello"),
        _ => panic!("one voice sends plain text"),
    }
    let second = q.on_audio().unwrap();
    assert_eq!(second.segment_index, 1);
    assert_eq!(q.current_segment_index, 1);
    let third = q.on_audio().unwrap();
    assert_eq!(third.speaker, "host");
    assert!(q.on_audio().is_none());
    assert!(q.pending_segments.is_empty());
    assert_eq!(q.current_segment_index, 3);
    assert!(q.on_audio().is_none());
}

#[test]
fn several_voices_send_routed_segments() {
    let mut q = SegmentQueue::new();
    let first = q.queue(vec![seg("host", "Hello", 4, "Luo Xiang"), seg("guest1", "Hi", 5, "Ma Yun")]).unwrap();
    match first.payload {
        SegmentPayload::Routed { speaker, text, voice_name, speed_bits } => {
            assert_eq!(speaker, "host");
            assert_eq!(text, "Hello");
            assert_eq!(voice_name, "Luo Xiang");
            assert_eq!(f32::from_bits(speed_bits), 1.0);
        }
        _ => panic!("several voices send routed segments"),
    }
    q.on_send_failed();
    assert!(q.pending_segments.is_empty());
    assert!(q.on_audio().is_none());
    assert!(q.queue(Vec::new()).is_none());
    assert_eq!(q.total_segments, 0);
}

#[test]
fn cast_worker_needs_a_running_dataflow_for_segments() {
    let mut w = CastWorker::new();
    match w.on_command(CastCommand::SendScriptSegments { segments: vec![seg("A", "hi", 0, "v")] }) {
        CastAction::Error(m) => assert_eq!(m, "Dataflow not running"),
        other => panic!("unexpected {:?}", other),
    }
    assert!(w.queue.pending_segments.is_empty());
    assert!(matches!(w.on_command(CastCommand::StartDataflow), CastAction::Start));
    assert!(!w.dataflow_running);
}

#[test]
fn cast_worker_queues_and_hands_out_the_first_segment() {
    let mut w = CastWorker::new();
    w.on_started("df-1".to_string());
    assert!(w.dataflow_running && w.dispatching);
    assert_eq!(w.dataflow_id.as_deref(), Some("df-1"));
    let segs = vec![seg("A", "one", 0, "v"), seg("B", "two", 1, "v")];
    match w.on_command(CastCommand::SendScriptSegments { segments: segs }) {
        CastAction::Send { first, log } => {
            assert_eq!(log, "Queued 2 segments, will send sequentially");
            let first = first.expect("a first segment");
            assert_eq!(first.segment_index, 0);
            assert_eq!(first.total, 2);
            assert!(matches!(first.payload, SegmentPayload::Plain(ref t) if t == "A\none"));
        }
        other => panic!("unexpected {:?}", other),
    }
    assert_eq!(w.queue.total_segments, 2);
    match w.on_command(CastCommand::SendScriptSegments { segments: vec![] }) {
        CastAction::Send { first, log } => {
            assert!(first.is_none());
            assert_eq!(log, "Queued 0 segments, will send sequentially");
        }
        other => panic!("unexpected {:?}", other),
    }
}

#[test]
fn cast_worker_stop_and_voices() {
    let mut w = CastWorker::new();
    w.on_started("df".to_string());
    let mut m = VoiceMapping::new();
    m.set_voice(VoiceConfig::new("host".to_string(), "Luo Xiang".to_string(), NORMAL_SPEED_BITS));
    match w.on_command(CastCommand::SetVoiceMapping { voice_mapping: m }) {
        CastAction::Log(msg) => assert_eq!(msg, "Voice mapping updated for 1 speakers"),
        other => panic!("unexpected {:?}", other),
    }
    assert_eq!(w.voice_mapping.voices.len(), 1);
    assert!(matches!(w.on_command(CastCommand::StopDataflow), CastAction::Stop));
    assert!(!w.dataflow_running && !w.dispatching && w.dataflow_id.is_none());
    assert_eq!(w.voice_mapping.voices.len(), 1);
}

#[test]
fn only_the_first_segment_reports_send_problems() {
    let mut w = CastWorker::new();
    w.on_started("df".to_string());
    let _ = w.on_command(CastCommand::SendScriptSegments {
        segments: vec![seg("A", "one", 0, "v"), seg("B", "two", 1, "v")],
    });
    assert_eq!(
        w.on_send_outcome(true, SendOutcome::BridgeMissing).as_deref(),
        Some("mofa-cast-controller bridge not available")
    );
    assert_eq!(w.queue.pending_segments.len(), 2);
    assert_eq!(w.on_send_outcome(false, SendOutcome::BridgeMissing), None);
    assert_eq!(w.on_send_outcome(true, SendOutcome::Sent), None);
    assert_eq!(w.on_send_outcome(false, SendOutcome::Failed("x".to_string())), None);
    assert!(w.queue.pending_segments.is_empty());
    let _ = w.on_command(CastCommand::SendScriptSegments { segments: vec![seg("A", "one", 0, "v")] });
    assert_eq!(
        w.on_send_outcome(true, SendOutcome::Failed("closed".to_string())).as_deref(),
        Some("Failed to send first segment: closed")
    );
    assert!(w.queue.pending_segments.is_empty());
}
