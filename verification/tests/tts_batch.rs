use mofa_studio::tts_batch::{
    segment_file_name, truncate_text, KokoroBackend, MockTtsEngine, ScriptSegmenter, TtsConfig,
    TtsError, TtsFactory,
};

#[test]
fn test_script_segmentation() {
    let segmenter = ScriptSegmenter::new().unwrap();

    let script = r#"[Host]: Welcome to our podcast today.
[Guest]: Thank you for having me.
[Host]: Let's get started."#;

    let segments = segmenter.segment_script(script).unwrap();

    assert_eq!(segments.len(), 3);
    assert_eq!(segments[0].speaker, "Host");
    assert_eq!(segments[1].speaker, "Guest");
    assert_eq!(segments[2].speaker, "Host");
}

#[test]
fn segmentation_skips_headers_and_blank_lines_and_keeps_line_numbers() {
    let segmenter = ScriptSegmenter::new().unwrap();
    let script = "# Episode 1\n\n@host: Hello there\nnot a line of dialogue\n主持人: 你好\nguest-1 :  Hi  ";
    let segments = segmenter.segment_script(script).unwrap();
    assert_eq!(segments.len(), 3);
    assert_eq!(segments[0].index, 2);
    assert_eq!(segments[0].speaker, "host");
    assert_eq!(segments[0].text, "Hello there");
    assert_eq!(segments[0].word_count, 2);
    assert_eq!(segments[1].index, 4);
    assert_eq!(segments[1].speaker, "主持人");
    assert_eq!(segments[2].speaker, "guest-1");
    assert_eq!(segments[2].text, "Hi");
    assert!(segments.iter().all(|s| s.audio_path.is_none()));
}

#[test]
fn segmentation_without_dialogue_fails() {
    let segmenter = ScriptSegmenter::new().unwrap();
    assert!(matches!(segmenter.segment_script("# title\n\nplain prose"), Err(TtsError::NoSegments)));
    assert_eq!(TtsError::NoSegments.describe(), "No segments to synthesize");
    assert_eq!(TtsError::Other("x".to_string()).describe(), "Error: x");
}

#[test]
fn word_count_counts_whitespace_separated_words() {
    let segmenter = ScriptSegmenter::new().unwrap();
    assert_eq!(segmenter.word_count("This is a test sentence with ten words here."), 9);
    assert_eq!(segmenter.word_count("  one\ttwo\n three  "), 3);
    assert_eq!(segmenter.word_count(""), 0);
}

#[test]
fn voices_are_assigned_and_looked_up() {
    let mut config = TtsConfig::default();
    assert_eq!(config.output_dir, "./output/audio");
    assert_eq!(config.sample_rate, 22050);
    assert_eq!(config.voice_for("Host"), "default_voice");
    assert_eq!(config.voice_for("Guest"), "default_voice");
    config.assign_voice("Guest".to_string(), "Ma Yun".to_string());
    config.assign_voice("Host".to_string(), "Luo Xiang".to_string());
    assert_eq!(config.voice_for("Guest"), "Ma Yun");
    assert_eq!(config.voice_for("Host"), "Luo Xiang");
    assert_eq!(config.voice_assignments.len(), 2);
    assert_eq!(config.voice_assignments[0], ("Host".to_string(), "Luo Xiang".to_string()));
}

#[test]
fn file_names_and_previews() {
    assert_eq!(segment_file_name(7), "segment_0007.wav");
    assert_eq!(segment_file_name(12345), "segment_12345.wav");
    assert_eq!(truncate_text("short", 50), "short");
    assert_eq!(truncate_text("abcdefgh", 3), "abc...");
    assert_eq!(truncate_text("héllo", 3), "hé...");
}

#[test]
fn engines_and_backends() {
    let engine: MockTtsEngine = TtsFactory::create_mock_engine();
    assert_eq!(engine.engine_name(), "mock-tts");
    assert_eq!(MockTtsEngine::delay_ms(11), 22);
    assert_eq!(MockTtsEngine::delay_ms(1000), 400);
    assert_eq!(KokoroBackend::Auto.as_env_value(), "auto");
    assert_eq!(KokoroBackend::Mlx.as_env_value(), "mlx");
    assert_eq!(KokoroBackend::Cpu.as_env_value(), "cpu");
}
