use mofa_studio::audio_mixer::{ExportFormat, Mp3Bitrate};
use mofa_studio::cast_screen::{
    dora_segments, export_format_for, export_metadata, file_info_text,
    format_transcript_for_display, import_format, mp3_bitrate_for, normalize_speaker_name,
    received_segment_file_name, recent_files_summary, segment_speakers, speakers_summary,
    template_file_name, template_for_id,
};
use mofa_studio::dora_integration::{VoiceConfig, VoiceMapping, NORMAL_SPEED_BITS};
use mofa_studio::recent_files::RecentFile;
use mofa_studio::script_templates::TemplateType;
use mofa_studio::transcript::TranscriptFormat;
use mofa_studio::transcript_parser::PlainTextParser;
use mofa_studio::tts_batch::ScriptSegmenter;

#[test]
fn speaker_names_are_normalized() {
    assert_eq!(normalize_speaker_name("主持人"), "host");
    assert_eq!(normalize_speaker_name("[主持]"), "host");
    assert_eq!(normalize_speaker_name("HOST"), "host");
    assert_eq!(normalize_speaker_name("Guest1"), "guest1");
    assert_eq!(normalize_speaker_name("GUEST2"), "guest2");
    assert_eq!(normalize_speaker_name("Guest"), "guest1");
    assert_eq!(normalize_speaker_name("hOST"), "hOST");
    assert_eq!(normalize_speaker_name("[Narrator]"), "Narrator");
    assert_eq!(normalize_speaker_name("[]"), "");
    assert_eq!(normalize_speaker_name("["), "[");
}

#[test]
fn dataflow_segments_use_the_mapped_voices() {
    let segments = ScriptSegmenter::new().unwrap().segment_script("Host: Hello\nguest1: Hi\nBob: Yo").unwrap();
    let speakers = segment_speakers(&segments);
    assert_eq!(speakers, vec!["Host".to_string(), "guest1".to_string(), "Bob".to_string()]);
    let mut mapping = VoiceMapping::from_speakers(&speakers);
    mapping.set_voice(VoiceConfig::new("Bob".to_string(), "Yang Mi".to_string(), 2.0f32.to_bits()));
    let out = dora_segments(&segments, &mapping);
    assert_eq!(out.len(), 3);
    // "Host" normalizes to "host", which the mapping (made from raw names) lacks
    assert_eq!(out[0].speaker, "host");
    assert_eq!(out[0].voice_name, "Luo Xiang");
    assert_eq!(out[0].speed_bits, NORMAL_SPEED_BITS);
    assert_eq!(out[1].voice_name, "Ma Yun");
    assert_eq!(out[2].voice_name, "Yang Mi");
    assert_eq!(f32::from_bits(out[2].speed_bits), 2.0);
    assert_eq!(out[2].segment_index, 2);
    assert_eq!(out[2].text, "Yo");
}

#[test]
fn texts_of_the_screen() {
    let t = PlainTextParser::new().parse("Alice: one\nBob: two\nAlice: three").unwrap();
    assert_eq!(format_transcript_for_display(&t.messages), "Alice: one\nBob: two\nAlice: three\n");
    assert_eq!(file_info_text("/x/ep.md", 3, 2), "ep.md\n3 messages • 2 speakers");
    assert_eq!(file_info_text("/", 0, 0), "Unknown file\n0 messages • 0 speakers");
    assert_eq!(speakers_summary(&t.get_speakers()), "Alice (2 msgs)\nBob (1 msgs)");
    assert_eq!(speakers_summary(&Vec::new()), "No speakers found");
    assert_eq!(received_segment_file_name(7, "host"), "segment_007_host.wav");
}

#[test]
fn recent_files_line() {
    let f = |n: &str| RecentFile { path: n.to_string(), name: n.to_string(), message_count: 0, speaker_count: 0, last_opened: 0 };
    assert_eq!(recent_files_summary(&[]), "No recent files");
    assert_eq!(recent_files_summary(&[f("a.txt")]), "1 recent file:\na.txt");
    assert_eq!(recent_files_summary(&[f("b.txt"), f("a.txt")]), "2 recent files:\nb.txt");
}

#[test]
fn dropdown_choices() {
    assert_eq!(import_format(0), None);
    assert_eq!(import_format(2), Some(TranscriptFormat::Json));
    assert_eq!(import_format(9), Some(TranscriptFormat::PlainText));
    assert_eq!(template_for_id(1), (TemplateType::ThreePersonDiscussion, true));
    assert_eq!(template_for_id(5), (TemplateType::TwoPersonInterview, false));
    assert_eq!(export_format_for(1), ExportFormat::Mp3);
    assert_eq!(export_format_for(3), ExportFormat::Wav);
    assert_eq!(mp3_bitrate_for(2), Mp3Bitrate::Kbps256);
    assert_eq!(mp3_bitrate_for(8), Mp3Bitrate::Kbps192);
}

#[test]
fn template_temp_files_and_export_metadata() {
    assert_eq!(template_file_name("Narrative / Storytelling"), "mofa_cast_template_narrative_/_storytelling.txt");
    assert_eq!(template_file_name("2-Person Interview"), "mofa_cast_template_2-person_interview.txt");
    let m = export_metadata(Some("/scripts/episode.one.txt"), "2025".to_string(), 12);
    assert_eq!(m.title.as_deref(), Some("episode.one"));
    assert_eq!(m.artist.as_deref(), Some("MoFA Cast"));
    assert_eq!(m.album.as_deref(), Some("Generated by MoFA Cast"));
    assert_eq!(m.year.as_deref(), Some("2025"));
    assert_eq!(m.comment.as_deref(), Some("Created with MoFA Cast v0.6.2 - 12 segments"));
    assert_eq!(export_metadata(None, "2025".to_string(), 0).title.as_deref(), Some("Podcast"));
}

#[test]
fn displayed_script_parses_back() {
    let t = PlainTextParser::new().parse("Dr. Smith: Hello there, all.\nguest_2: Hi!\nDr. Smith: Bye").unwrap();
    let shown = format_transcript_for_display(&t.messages);
    let back = PlainTextParser::new().parse(&shown).unwrap();
    let pairs = |m: &Vec<mofa_studio::transcript::Message>| {
        m.iter().map(|x| (x.speaker.clone(), x.text.clone())).collect::<Vec<_>>()
    };
    assert_eq!(pairs(&back.messages), pairs(&t.messages));
    assert_eq!(back.messages.len(), 3);
    assert!(back.messages.iter().all(|m| m.timestamp.is_none()));
}
