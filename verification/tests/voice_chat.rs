use mofa_studio::voice_chat::{
    chat_clipboard_text, chat_display_text, filter_logs, format_bridge_name, format_timestamp,
    log_clipboard_text, log_display_text, merge_chat_messages, prompt_or_default,
    push_chat_message, track_bridges, bridge_event_line, ChatMessageEntry, MAX_CHAT_MESSAGES,
    option_index, api_key_env_vars,
};

fn logs() -> Vec<String> {
    vec![
        "[INFO] [ASR] started".to_string(),
        "[DEBUG] [TTS] chunk 3".to_string(),
        "[WARN] [App] Dataflow not running".to_string(),
        "[ERROR] [Bridge] lost mofa-audio-player".to_string(),
        "[INFO] llm ready".to_string(),
    ]
}

fn msg(sender: &str, content: &str, ts: u64) -> ChatMessageEntry {
    ChatMessageEntry::new(sender.to_string(), content.to_string(), ts)
}

#[test]
fn log_filters() {
    let l = logs();
    assert_eq!(filter_logs(&l, 0, 0, ""), l);
    assert_eq!(filter_logs(&l, 2, 0, ""), vec![l[0].clone(), l[4].clone()]);
    assert_eq!(filter_logs(&l, 0, 3, ""), vec![l[4].clone()]);
    assert_eq!(filter_logs(&l, 0, 6, ""), vec![l[2].clone()]);
    assert_eq!(filter_logs(&l, 0, 0, "DATAFLOW"), vec![l[2].clone()]);
    assert_eq!(filter_logs(&l, 4, 4, "audio"), vec![l[3].clone()]);
    assert_eq!(filter_logs(&l, 9, 9, ""), l);
}

#[test]
fn log_texts() {
    let shown = vec!["a".to_string(), "b".to_string()];
    assert_eq!(log_display_text(&shown), "a\n\nb");
    assert_eq!(log_clipboard_text(&shown), "a\nb");
    assert_eq!(log_display_text(&Vec::new()), "*No log entries*");
    assert_eq!(log_clipboard_text(&Vec::new()), "No log entries");
}

#[test]
fn timestamps_and_bridge_names() {
    assert_eq!(format_timestamp(0), "00:00:00");
    assert_eq!(format_timestamp(86_399_999), "23:59:59");
    assert_eq!(format_timestamp(1_700_000_123_456), "22:15:23");
    assert_eq!(format_bridge_name("mofa-audio-player"), "Audio Player");
    assert_eq!(format_bridge_name("mofa-system-log"), "System Log");
    assert_eq!(format_bridge_name("prompt-input"), "Prompt Input");
    assert_eq!(format_bridge_name("mofa-a--b-"), "A  B ");
    assert_eq!(format_bridge_name("ßtraße"), "SStraße");
    assert_eq!(format_bridge_name(""), "");
    assert_eq!(
        bridge_event_line("mofa-mic-input", true),
        "[INFO] [Bridge] Mic Input connected to dora dataflow"
    );
    assert_eq!(
        bridge_event_line("mofa-mic-input", false),
        "[WARN] [Bridge] Mic Input disconnected from dora dataflow"
    );
}

#[test]
fn chat_texts() {
    let mut streaming = msg("Tutor", "thinking", 3_600_000);
    streaming.is_streaming = true;
    let finished = vec![msg("You", "hi", 0)];
    assert_eq!(
        chat_display_text(&finished, &vec![streaming]),
        "**You** (00:00:00):  \nhi\n\n---\n\n**Tutor** ⌛ (01:00:00):  \nthinking"
    );
    assert_eq!(chat_display_text(&Vec::new(), &Vec::new()), "Waiting for conversation...");
    assert_eq!(chat_clipboard_text(&vec![msg("You", "hi", 0), msg("A", "yo", 1)]), "[You] hi\n\n[A] yo");
    assert_eq!(chat_clipboard_text(&Vec::new()), "No chat messages");
}

#[test]
fn prompts_and_bounded_chat() {
    assert_eq!(prompt_or_default(String::new()), "开始吧");
    assert_eq!(prompt_or_default("go".to_string()), "go");
    let mut chat = Vec::new();
    for i in 0..(MAX_CHAT_MESSAGES as u64 + 3) {
        push_chat_message(&mut chat, msg("You", &i.to_string(), i));
    }
    assert_eq!(chat.len(), MAX_CHAT_MESSAGES);
    assert_eq!(chat[0].content, "3");
}

#[test]
fn merged_chat_is_ordered_by_time_and_stable() {
    let current = vec![msg("You", "q1", 5), msg("Tutor", "old", 6), msg("You", "q2", 20)];
    let arrived = vec![msg("Tutor", "a1", 10), msg("Student", "a0", 5), msg("Tutor", "a2", 30)];
    let merged = merge_chat_messages(current, arrived);
    let got: Vec<(&str, u64)> = merged.iter().map(|m| (m.content.as_str(), m.timestamp)).collect();
    assert_eq!(got, vec![("a0", 5), ("q1", 5), ("a1", 10), ("q2", 20), ("a2", 30)]);
}

#[test]
fn bridges_are_tracked() {
    let known = vec!["mofa-a".to_string(), "mofa-b".to_string()];
    let active = vec!["mofa-b".to_string(), "mofa-c".to_string(), "mofa-c".to_string()];
    let ch = track_bridges(&known, &active);
    assert_eq!(ch.connected, vec!["mofa-c".to_string()]);
    assert_eq!(ch.disconnected, vec!["mofa-a".to_string()]);
    assert_eq!(ch.known, vec!["mofa-b".to_string(), "mofa-c".to_string()]);
}

#[test]
fn dropdown_index_of_a_setting() {
    let models = vec!["gpt-4o".to_string(), "deepseek-chat".to_string(), "gpt-4o".to_string()];
    assert_eq!(option_index(&models, "deepseek-chat"), 1);
    assert_eq!(option_index(&models, "gpt-4o"), 0);
    assert_eq!(option_index(&models, "qwen"), 0);
    assert_eq!(option_index(&Vec::new(), "x"), 0);
}

#[test]
fn api_keys_become_environment_variables() {
    let vars = api_key_env_vars(Some("sk-1".to_string()), Some(String::new()), Some("ds-2".to_string()));
    assert_eq!(
        vars,
        vec![
            ("OPENAI_API_KEY".to_string(), "sk-1".to_string()),
            ("DASHSCOPE_API_KEY".to_string(), "ds-2".to_string()),
        ]
    );
    assert!(api_key_env_vars(None, None, None).is_empty());
}
