use mofa_studio::transcript::{Timestamp, TranscriptFormat};
use mofa_studio::transcript_parser::{
    JsonMessage, JsonParser, MarkdownParser, ParseError, ParserFactory, PlainTextParser,
    TranscriptParser,
};

/// Reads a JSON array of chat records the way serde's derive would.
fn decode_records(content: &str) -> Result<Vec<JsonMessage>, String> {
    let value: serde_json::Value = serde_json::from_str(content).map_err(|e| e.to_string())?;
    let items = value.as_array().ok_or_else(|| "expected an array".to_string())?;
    let mut out = Vec::new();
    for item in items {
        let role = item.get("role").and_then(|v| v.as_str()).ok_or("missing field `role`")?;
        let content = item.get("content").and_then(|v| v.as_str()).ok_or("missing field `content`")?;
        let timestamp = item.get("timestamp").and_then(|v| v.as_str()).map(|s| s.to_string());
        out.push(JsonMessage { role: role.to_string(), content: content.to_string(), timestamp });
    }
    Ok(out)
}

#[test]
fn test_plain_text_parser() {
    let parser = PlainTextParser::new();
    let content = r#"Alice: Hello, how are you?
Bob: I'm doing great!
Alice: That's wonderful to hear."#;

    let result = parser.parse(content);
    assert!(result.is_ok());

    let transcript = result.unwrap();
    assert_eq!(transcript.messages.len(), 3);
    assert_eq!(transcript.messages[0].speaker, "Alice");
    assert_eq!(transcript.messages[1].speaker, "Bob");
    assert_eq!(transcript.metadata.format, TranscriptFormat::PlainText);
}

#[test]
fn test_json_parser() {
    let parser = JsonParser::new();
    let content = r#"[
            {"role": "user", "content": "Hello"},
            {"role": "assistant", "content": "Hi there!"}
        ]"#;

    let result = parser.parse_decoded(decode_records(content));
    assert!(result.is_ok());

    let transcript = result.unwrap();
    assert_eq!(transcript.messages.len(), 2);
    assert_eq!(transcript.messages[0].speaker, "user");
    assert_eq!(transcript.metadata.format, TranscriptFormat::Json);
}

#[test]
fn test_markdown_parser() {
    let parser = MarkdownParser::new();
    let content = r#"### @alice
Hello, how are you?

### @bob
I'm doing great!"#;

    let result = parser.parse(content);
    assert!(result.is_ok());

    let transcript = result.unwrap();
    assert_eq!(transcript.messages.len(), 2);
    assert_eq!(transcript.messages[0].speaker, "alice");
    assert_eq!(transcript.metadata.format, TranscriptFormat::Markdown);
}

#[test]
fn test_auto_detection() {
    let factory = ParserFactory::new();

    // Plain text
    let plain = "Alice: Hello\nBob: Hi";
    assert_eq!(factory.detect_format(plain), TranscriptFormat::PlainText);

    // JSON
    let json = r#"[{"role": "user", "content": "Hi"}]"#;
    assert_eq!(factory.detect_format(json), TranscriptFormat::Json);

    // Markdown - check if parser can parse it
    let md_parser = MarkdownParser::new();
    let md = r#"### @alice
Hello, how are you?

### @bob
I'm doing great!"#;

    assert!(md_parser.can_parse(md), "MarkdownParser should be able to parse this");
    assert_eq!(factory.detect_format(md), TranscriptFormat::Markdown);
}

#[test]
fn test_get_speakers() {
    let parser = PlainTextParser::new();
    let content = r#"Alice: First message
Bob: Second message
Alice: Third message"#;

    let transcript = parser.parse(content).unwrap();
    let speakers = transcript.get_speakers();

    assert_eq!(speakers.len(), 2);
    assert_eq!(speakers[0].name, "Alice");
    assert_eq!(speakers[0].message_count, 2);
    assert_eq!(speakers[1].name, "Bob");
    assert_eq!(speakers[1].message_count, 1);
}

#[test]
fn plain_parser_keeps_text_and_lists_participants_sorted() {
    let parser = PlainTextParser::new();
    let t = parser.parse("Zoe: last\nadam:  first word  \nZoe: again").unwrap();
    assert_eq!(t.messages.len(), 3);
    assert_eq!(t.messages[1].speaker, "adam");
    assert_eq!(t.messages[1].text, "first word");
    assert_eq!(t.metadata.participants, vec!["Zoe".to_string(), "adam".to_string()]);
    assert_eq!(t.message_count(), 3);
    assert_eq!(t.total_characters(), "last".len() + "first word".len() + "again".len());
    let zoe = t.filter_by_speaker("Zoe");
    assert_eq!(zoe.len(), 2);
    assert_eq!(zoe[1].text, "again");
}

#[test]
fn plain_parser_rejects_text_without_messages() {
    let parser = PlainTextParser::new();
    assert!(matches!(parser.parse("no speakers here\n\n"), Err(ParseError::NoMessagesFound)));
    assert!(!parser.can_parse("just prose\nmore prose\nand more"));
}

#[test]
fn json_parser_reports_errors() {
    let parser = JsonParser::new();
    assert!(matches!(parser.parse_decoded(Ok(Vec::new())), Err(ParseError::NoMessagesFound)));
    match parser.parse_decoded(Err("bad".to_string())) {
        Err(ParseError::InvalidJson(m)) => assert_eq!(m, "bad"),
        other => panic!("unexpected {:?}", other),
    }
    let recs = decode_records(r#"[{"role": "a", "content": "x", "timestamp": "yesterday"}]"#);
    match parser.parse_decoded(recs) {
        Err(ParseError::InvalidTimestamp(m)) => assert_eq!(m, "yesterday"),
        other => panic!("unexpected {:?}", other),
    }
    let blank = decode_records(r#"[{"role": "a", "content": "   "}]"#);
    assert!(matches!(parser.parse_decoded(blank), Err(ParseError::NoMessagesFound)));
}

#[test]
fn json_parser_reads_timestamps() {
    let parser = JsonParser::new();
    assert_eq!(parser.parse_timestamp("1970-01-01T00:00:10Z").unwrap(), Timestamp { secs: 10, nanos: 0 });
    assert_eq!(parser.parse_timestamp("1970-01-01T00:00:10.5+01:00").unwrap(), Timestamp { secs: -3590, nanos: 500_000_000 });
    // chrono's parse_from_str needs an offset in the text, so the offset-less
    // formats reject these
    match parser.parse_timestamp("1970-01-01 00:01:00") {
        Err(ParseError::InvalidTimestamp(m)) => assert_eq!(m, "1970-01-01 00:01:00"),
        other => panic!("unexpected {:?}", other),
    }
    let recs = decode_records(r#"[{"role": "u", "content": " hi ", "timestamp": "2024-01-01T00:00:00+00:00"}]"#);
    let t = parser.parse_decoded(recs).unwrap();
    assert_eq!(t.messages[0].text, "hi");
    assert_eq!(t.messages[0].timestamp, Some(Timestamp { secs: 1704067200, nanos: 0 }));
}

#[test]
fn factory_parses_by_detected_or_given_format() {
    let factory = ParserFactory::new();
    let t = factory.parse_auto("A: one\nB: two", decode_records("")).unwrap();
    assert_eq!(t.metadata.format, TranscriptFormat::PlainText);
    let json = r#"[{"role": "user", "content": "Hi"}]"#;
    let t = factory.parse_auto(json, decode_records(json)).unwrap();
    assert_eq!(t.metadata.format, TranscriptFormat::Json);
    match factory.parse_auto("nothing to see", decode_records("")) {
        Err(ParseError::InvalidFormat(m)) => assert_eq!(m, "Unable to auto-detect transcript format"),
        other => panic!("unexpected {:?}", other),
    }
    match factory.parse_with_format("A: b", TranscriptFormat::Unknown, decode_records("")) {
        Err(e) => assert_eq!(e.describe(), "Invalid format: No parser available for format: Unknown"),
        Ok(_) => panic!("expected an error"),
    }
    assert_eq!(ParseError::NoMessagesFound.describe(), "No messages found in transcript");
}

#[test]
fn speaker_statistics_add_up_to_the_transcript() {
    let t = PlainTextParser::new()
        .parse("Ann: héllo\nBo: hi there\nAnn: bye\nCy: ok")
        .unwrap();
    let speakers = t.get_speakers();
    let names: Vec<&str> = speakers.iter().map(|s| s.name.as_str()).collect();
    assert_eq!(names, vec!["Ann", "Bo", "Cy"]);
    assert_eq!(speakers.iter().map(|s| s.message_count).sum::<usize>(), t.message_count());
    assert_eq!(speakers.iter().map(|s| s.total_characters).sum::<usize>(), t.total_characters());
    assert_eq!(speakers[0].total_characters, "héllo".chars().count() + "bye".chars().count());
    assert_eq!(speakers[0].total_characters, 8);
    for s in &speakers {
        assert!(s.message_count >= 1);
        assert_eq!(s.message_count, t.filter_by_speaker(&s.name).len());
    }
}

#[test]
fn total_characters_counts_characters() {
    let t = PlainTextParser::new().parse("A: héllo").unwrap();
    assert_eq!(t.total_characters(), 5);
    assert_eq!(t.get_speakers()[0].total_characters, 5);
}

#[test]
fn each_parser_names_its_format() {
    let parsers: Vec<Box<dyn TranscriptParser>> =
        vec![Box::new(JsonParser::new()), Box::new(MarkdownParser::new()), Box::new(PlainTextParser::new())];
    let formats: Vec<TranscriptFormat> = parsers.iter().map(|p| p.format()).collect();
    assert_eq!(formats, vec![TranscriptFormat::Json, TranscriptFormat::Markdown, TranscriptFormat::PlainText]);
    let accepting: Vec<bool> = parsers.iter().map(|p| p.can_parse("[{\"role\": \"a\"}]")).collect();
    assert_eq!(accepting, vec![true, false, false]);
}
