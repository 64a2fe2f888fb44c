//! The decisions and texts of the cast screen: speaker names, the segments
//! handed to the TTS dataflow, summaries, and the choices of its dropdowns.
use vstd::prelude::*;
use crate::audio_mixer::{AudioMetadata, ExportFormat, Mp3Bitrate};
use crate::dora_integration::{
    first_voice_index, ScriptSegment, VoiceMapping, NORMAL_SPEED_BITS,
};
use crate::recent_files::{file_name_of, file_stem_of, path_file_name, path_file_stem, RecentFile};
use crate::script_templates::TemplateType;
use crate::text::{
    all_ascii, ascii_lowercase, first_non_ws, is_ws, last_non_ws_end, lemma_index_of_from, lines, trim, chars_equal, chars_of, contains, contains_str, decimal, decimal_chars, lowercase, push_all,
    push_str, slice_chars, string_from_chars, to_lowercase, zero_pad, zero_padded,
};
use crate::transcript::{message_pairs, untimed, Message, Speaker, Transcript, TranscriptFormat};
use crate::transcript_parser::{
    is_ascii_alnum, lemma_run_end_bounds, plain_line_parts, plain_message, plain_messages, plain_parse_result,
    plain_speaker_class, ParseError,
};
use crate::tts_batch::AudioSegment;

verus! {

// ============================================================================
// SPEAKER NAMES
// ============================================================================

/// The speaker name the dataflow uses: the Chinese host names and the
/// capitalized host and guest names map to `host`, `guest1` and `guest2`,
/// brackets around a name are removed, other names stay.
pub open spec fn normalized_speaker(s: Seq<char>) -> Seq<char> {
    if contains(s, "主持人"@) || contains(s, "主持"@) {
        "host"@
    } else if s == "Host"@ || s == "HOST"@ {
        "host"@
    } else if s == "Guest1"@ || s == "GUEST1"@ {
        "guest1"@
    } else if s == "Guest2"@ || s == "GUEST2"@ {
        "guest2"@
    } else if s == "Guest"@ || s == "GUEST"@ {
        "guest1"@
    } else if s.len() >= 2 && s[0] == '[' && s.last() == ']' {
        s.subrange(1, s.len() - 1)
    } else {
        s
    }
}

fn is_one_of(v: &Vec<char>, a: &str, b: &str) -> (r: bool)
    ensures
        r == (v@ == a@ || v@ == b@),
{
    let x = chars_of(a);
    let y = chars_of(b);
    chars_equal(v, &x) || chars_equal(v, &y)
}

/// Normalize a speaker name (merges the host names into `host`).
pub fn normalize_speaker_name(speaker: &str) -> (r: String)
    ensures
        r@ == normalized_speaker(speaker@),
{
    let s = chars_of(speaker);
    if contains_str(&s, "主持人") || contains_str(&s, "主持") {
        "host".to_owned()
    } else if is_one_of(&s, "Host", "HOST") {
        "host".to_owned()
    } else if is_one_of(&s, "Guest1", "GUEST1") {
        "guest1".to_owned()
    } else if is_one_of(&s, "Guest2", "GUEST2") {
        "guest2".to_owned()
    } else if is_one_of(&s, "Guest", "GUEST") {
        "guest1".to_owned()
    } else if s.len() >= 2 && s[0] == '[' && s[s.len() - 1] == ']' {
        let inner = slice_chars(&s, 1, s.len() - 1);
        string_from_chars(&inner)
    } else {
        speaker.to_owned()
    }
}

// ============================================================================
// SEGMENTS FOR THE DATAFLOW
// ============================================================================

/// The speakers of the segments, in order (what the voice mapping is made
/// from).
pub fn segment_speakers(segments: &Vec<AudioSegment>) -> (r: Vec<String>)
    ensures
        r.len() == segments.len(),
        forall|i: int| 0 <= i < r.len() ==> (#[trigger] r[i])@ == segments[i].speaker@,
{
    let mut r: Vec<String> = Vec::new();
    let mut i: usize = 0;
    while i < segments.len()
        invariant
            0 <= i <= segments.len(),
            r.len() == i,
            forall|k: int| 0 <= k < i ==> (#[trigger] r[k])@ == segments[k].speaker@,
        decreases segments.len() - i,
    {
        r.push(segments[i].speaker.clone());
        i = i + 1;
    }
    r
}

/// Segment `idx` as sent to the dataflow: the normalized speaker, and the
/// voice mapped to it (Luo Xiang at normal speed when it has none).
pub open spec fn dora_segment(seg: AudioSegment, idx: int, voices: Seq<crate::dora_integration::VoiceConfig>, r: ScriptSegment) -> bool {
    let name = normalized_speaker(seg.speaker@);
    let k = first_voice_index(voices, name);
    &&& r.speaker@ == name
    &&& r.text@ == seg.text@
    &&& r.segment_index == idx
    &&& if k >= 0 {
        r.voice_name@ == voices[k].voice_name@ && r.speed_bits == voices[k].speed_bits
    } else {
        r.voice_name@ == "Luo Xiang"@ && r.speed_bits == NORMAL_SPEED_BITS
    }
}

/// The script segments sent to the dataflow for the segments of a script.
pub fn dora_segments(segments: &Vec<AudioSegment>, mapping: &VoiceMapping) -> (r: Vec<ScriptSegment>)
    ensures
        r.len() == segments.len(),
        forall|i: int|
            0 <= i < r.len() ==> dora_segment(segments[i], i, mapping.voices@, #[trigger] r[i]),
{
    let mut r: Vec<ScriptSegment> = Vec::new();
    let mut i: usize = 0;
    while i < segments.len()
        invariant
            0 <= i <= segments.len(),
            r.len() == i,
            forall|k: int|
                0 <= k < i ==> dora_segment(segments[k], k, mapping.voices@, #[trigger] r[k]),
        decreases segments.len() - i,
    {
        let speaker = normalize_speaker_name(segments[i].speaker.as_str());
        let (voice_name, speed_bits) = match mapping.get_voice_for_speaker(speaker.as_str()) {
            Some(c) => (c.voice_name.clone(), c.speed_bits),
            None => ("Luo Xiang".to_owned(), NORMAL_SPEED_BITS),
        };
        r.push(
            ScriptSegment {
                speaker,
                text: segments[i].text.clone(),
                segment_index: i,
                voice_name,
                speed_bits,
            },
        );
        i = i + 1;
    }
    r
}

/// The file of a received audio segment: `segment_NNN_<speaker>.wav`.
pub fn received_segment_file_name(received: usize, speaker: &str) -> (r: String)
    ensures
        r@ == "segment_"@ + zero_pad(decimal(received as nat), 3) + "_"@ + speaker@ + ".wav"@,
{
    let mut v = chars_of("segment_");
    let n = zero_padded(received as u64, 3);
    push_all(&mut v, &n);
    push_str(&mut v, "_");
    push_str(&mut v, speaker);
    push_str(&mut v, ".wav");
    string_from_chars(&v)
}

// ============================================================================
// TEXTS
// ============================================================================

/// The display name of an imported file: its file name, or `Unknown file`.
pub open spec fn imported_file_name(path: Seq<char>) -> Seq<char> {
    match path_file_name(path) {
        Some(n) => n,
        None => "Unknown file"@,
    }
}

/// The file info of an imported transcript:
/// "`name`\n`messages` messages • `speakers` speakers".
pub fn file_info_text(file_path: &str, message_count: usize, speaker_count: usize) -> (r: String)
    ensures
        r@ == imported_file_name(file_path@) + "\n"@ + decimal(message_count as nat)
            + " messages • "@ + decimal(speaker_count as nat) + " speakers"@,
{
    let mut v = match file_name_of(file_path) {
        Some(n) => chars_of(n.as_str()),
        None => chars_of("Unknown file"),
    };
    push_str(&mut v, "\n");
    let m = decimal_chars(message_count as u64);
    push_all(&mut v, &m);
    push_str(&mut v, " messages • ");
    let k = decimal_chars(speaker_count as u64);
    push_all(&mut v, &k);
    push_str(&mut v, " speakers");
    string_from_chars(&v)
}

/// One line per message: "`speaker`: `text`\n".
pub open spec fn display_lines(msgs: Seq<Message>) -> Seq<char>
    decreases msgs.len(),
{
    if msgs.len() == 0 {
        Seq::empty()
    } else {
        display_lines(msgs.drop_last()) + msgs.last().speaker@ + ": "@ + msgs.last().text@ + "\n"@
    }
}

/// A message that its display line gives back: a non-empty speaker of
/// letters, digits, spaces, `_` and `.` that neither starts nor ends with
/// whitespace, and a non-empty text on one line that neither starts nor ends
/// with whitespace.
pub open spec fn displayable(m: Message) -> bool {
    let sp = m.speaker@;
    let tx = m.text@;
    &&& sp.len() > 0
    &&& forall|i: int|
        0 <= i < sp.len() ==> is_ascii_alnum(#[trigger] sp[i]) || sp[i] == ' ' || sp[i] == '_'
            || sp[i] == '.'
    &&& !is_ws(sp[0])
    &&& !is_ws(sp.last())
    &&& tx.len() > 0
    &&& forall|i: int| 0 <= i < tx.len() ==> #[trigger] tx[i] != '\n'
    &&& !is_ws(tx[0])
    &&& !is_ws(tx.last())
}

/// "`speaker`: `text`", the display line of a message without its newline.
pub open spec fn display_line(m: Message) -> Seq<char> {
    m.speaker@ + ": "@ + m.text@
}

proof fn lemma_display_front(msgs: Seq<Message>)
    requires
        msgs.len() > 0,
    ensures
        display_lines(msgs) == display_line(msgs[0]) + "\n"@ + display_lines(msgs.skip(1)),
    decreases msgs.len(),
{
    let d = msgs.drop_last();
    if msgs.len() == 1 {
        assert(d.len() == 0);
        assert(msgs.skip(1).len() == 0);
        assert(display_lines(msgs) =~= display_line(msgs[0]) + "\n"@ + display_lines(msgs.skip(1)));
    } else {
        lemma_display_front(d);
        let m = msgs.last();
        assert(msgs.skip(1).drop_last() =~= d.skip(1));
        assert(msgs.skip(1).last() == m);
        assert(d[0] == msgs[0]);
        assert(display_lines(msgs.skip(1)) == display_lines(d.skip(1)) + m.speaker@ + ": "@
            + m.text@ + "\n"@);
        assert(display_lines(msgs) == display_lines(d) + m.speaker@ + ": "@ + m.text@ + "\n"@);
        assert(display_lines(msgs) =~= display_line(msgs[0]) + "\n"@ + display_lines(msgs.skip(1)));
    }
}

proof fn lemma_trim_unpadded(s: Seq<char>)
    requires
        s.len() > 0,
        !is_ws(s[0]),
        !is_ws(s.last()),
    ensures
        trim(s) == s,
{
    assert(first_non_ws(s, 0) == 0);
    assert(last_non_ws_end(s, s.len() as int) == s.len());
    assert(s.subrange(0, s.len() as int) =~= s);
}

proof fn lemma_line_message(m: Message)
    requires
        displayable(m),
    ensures
        plain_message(display_line(m)) == Some((m.speaker@, m.text@)),
{
    reveal_strlit(": ");
    let sp = m.speaker@;
    let tx = m.text@;
    let l = display_line(m);
    let k = sp.len() as int;
    assert(l.len() == k + 2 + tx.len());
    assert(l[k] == ':');
    assert(l[k + 1] == ' ');
    assert(l[0] == sp[0]);
    assert(l.last() == tx.last());
    lemma_trim_unpadded(l);
    let class = plain_speaker_class();
    lemma_run_end_bounds(l, 0, class);
    let r = crate::transcript_parser::run_end(l, 0, class);
    assert forall|i: int| 0 <= i < k implies class(#[trigger] l[i]) by {
        assert(l[i] == sp[i]);
    }
    assert(!class(l[k]));
    if r < k {
        assert(class(l[r]));
    }
    if r > k {
        assert(class(l[k]));
    }
    assert(r == k);
    assert(l.take(k) =~= sp);
    let rest = l.skip(k + 1);
    assert(rest =~= seq![' '] + tx);
    assert(plain_line_parts(l) == Some((sp, rest)));
    assert(first_non_ws(rest, 0) == first_non_ws(rest, 1));
    assert(first_non_ws(rest, 1) == 1);
    assert(last_non_ws_end(rest, rest.len() as int) == rest.len());
    assert(rest.subrange(1, rest.len() as int) =~= tx);
    assert(trim(rest) == tx);
    lemma_trim_unpadded(sp);
}

proof fn lemma_display_lines_split(msgs: Seq<Message>)
    requires
        forall|i: int| 0 <= i < msgs.len() ==> displayable(#[trigger] msgs[i]),
    ensures
        lines(display_lines(msgs)) == Seq::new(msgs.len(), |i: int| display_line(msgs[i])),
    decreases msgs.len(),
{
    reveal_strlit(": ");
    reveal_strlit("\n");
    if msgs.len() == 0 {
        assert(lines(display_lines(msgs)) =~= Seq::new(msgs.len(), |i: int| display_line(msgs[i])));
    } else {
        let t = msgs.skip(1);
        assert forall|i: int| 0 <= i < t.len() implies displayable(#[trigger] t[i]) by {
            assert(t[i] == msgs[i + 1]);
        }
        lemma_display_lines_split(t);
        lemma_display_front(msgs);
        let l = display_line(msgs[0]);
        let rest = display_lines(t);
        let s = display_lines(msgs);
        assert(s =~= l + seq!['\n'] + rest);
        let sp = msgs[0].speaker@;
        let tx = msgs[0].text@;
        assert forall|k: int| 0 <= k < l.len() implies l[k] != '\n' by {
            if k < sp.len() {
                assert(l[k] == sp[k]);
            } else if k >= sp.len() + 2 {
                assert(l[k] == tx[k - sp.len() - 2]);
            } else {
                assert(l[k] == ": "@[k - sp.len()]);
            }
        }
        lemma_index_of_from(s, '\n', 0);
        let idx = crate::text::index_of_from(s, '\n', 0);
        if idx < l.len() {
            assert(s[idx] == l[idx]);
        }
        if idx > l.len() {
            assert(s[l.len() as int] == '\n');
        }
        assert(idx == l.len());
        assert(s.take(idx) =~= l);
        assert(s.skip(idx + 1) =~= rest);
        assert(l.last() == tx.last());
        assert(crate::text::strip_cr(l) == l);
        assert(lines(s) == seq![l] + lines(rest));
        assert(lines(s) =~= Seq::new(msgs.len(), |i: int| display_line(msgs[i])));
    }
}

proof fn lemma_messages_of_lines(msgs: Seq<Message>)
    requires
        forall|i: int| 0 <= i < msgs.len() ==> displayable(#[trigger] msgs[i]),
    ensures
        plain_messages(Seq::new(msgs.len(), |i: int| display_line(msgs[i]))) == message_pairs(msgs),
    decreases msgs.len(),
{
    let ls = Seq::new(msgs.len(), |i: int| display_line(msgs[i]));
    if msgs.len() == 0 {
        assert(message_pairs(msgs) =~= Seq::<(Seq<char>, Seq<char>)>::empty());
    } else {
        let d = msgs.drop_last();
        assert forall|i: int| 0 <= i < d.len() implies displayable(#[trigger] d[i]) by {
            assert(d[i] == msgs[i]);
        }
        lemma_messages_of_lines(d);
        assert(ls.drop_last() =~= Seq::new(d.len(), |i: int| display_line(d[i])));
        lemma_line_message(msgs.last());
        assert(ls.last() == display_line(msgs.last()));
        assert(message_pairs(msgs) =~= message_pairs(d).push(
            (msgs.last().speaker@, msgs.last().text@),
        ));
    }
}

/// The displayed script of a transcript reads back: parsing it as plain text
/// gives the same (speaker, text) messages in the same order, without
/// timestamps, when each message is displayable; it fails only when there
/// are no messages.
pub proof fn lemma_display_parses_back(msgs: Seq<Message>)
    requires
        forall|i: int| 0 <= i < msgs.len() ==> displayable(#[trigger] msgs[i]),
    ensures
        plain_messages(lines(display_lines(msgs))) == message_pairs(msgs),
        forall|r: Result<Transcript, ParseError>|
            #[trigger] plain_parse_result(display_lines(msgs), r) ==> {
                &&& (r is Ok <==> msgs.len() > 0)
                &&& r matches Ok(t) ==> message_pairs(t.messages@) == message_pairs(msgs)
                    && untimed(t.messages@)
            },
{
    lemma_display_lines_split(msgs);
    lemma_messages_of_lines(msgs);
    assert(message_pairs(msgs).len() == msgs.len());
}

/// Format the messages of a transcript as human-readable text.
pub fn format_transcript_for_display(messages: &Vec<Message>) -> (r: String)
    ensures
        r@ == display_lines(messages@),
{
    let mut v: Vec<char> = Vec::new();
    let mut i: usize = 0;
    while i < messages.len()
        invariant
            0 <= i <= messages.len(),
            v@ == display_lines(messages@.take(i as int)),
        decreases messages.len() - i,
    {
        push_str(&mut v, messages[i].speaker.as_str());
        push_str(&mut v, ": ");
        push_str(&mut v, messages[i].text.as_str());
        push_str(&mut v, "\n");
        assert(messages@.take(i + 1).drop_last() =~= messages@.take(i as int));
        i = i + 1;
    }
    assert(messages@.take(i as int) =~= messages@);
    string_from_chars(&v)
}

/// "`name` (`count` msgs)" for each speaker, one per line.
pub open spec fn speaker_lines(speakers: Seq<Speaker>) -> Seq<char>
    decreases speakers.len(),
{
    if speakers.len() == 0 {
        Seq::empty()
    } else {
        let s = speakers.last();
        let line = s.name@ + " ("@ + decimal(s.message_count as nat) + " msgs)"@;
        if speakers.len() == 1 {
            line
        } else {
            speaker_lines(speakers.drop_last()) + "\n"@ + line
        }
    }
}

/// The speakers list: "No speakers found", or a line per speaker.
pub fn speakers_summary(speakers: &Vec<Speaker>) -> (r: String)
    ensures
        speakers.len() == 0 ==> r@ == "No speakers found"@,
        speakers.len() > 0 ==> r@ == speaker_lines(speakers@),
{
    if speakers.len() == 0 {
        return "No speakers found".to_owned();
    }
    let mut v: Vec<char> = Vec::new();
    let mut i: usize = 0;
    while i < speakers.len()
        invariant
            0 <= i <= speakers.len(),
            v@ == speaker_lines(speakers@.take(i as int)),
        decreases speakers.len() - i,
    {
        if i > 0 {
            push_str(&mut v, "\n");
        }
        push_str(&mut v, speakers[i].name.as_str());
        push_str(&mut v, " (");
        let c = decimal_chars(speakers[i].message_count as u64);
        push_all(&mut v, &c);
        push_str(&mut v, " msgs)");
        assert(speakers@.take(i + 1).drop_last() =~= speakers@.take(i as int));
        i = i + 1;
    }
    assert(speakers@.take(i as int) =~= speakers@);
    string_from_chars(&v)
}

/// The recent files line: "No recent files", or the count and the most
/// recent file's name.
pub fn recent_files_summary(files: &[RecentFile]) -> (r: String)
    ensures
        files@.len() == 0 ==> r@ == "No recent files"@,
        files@.len() == 1 ==> r@ == "1 recent file:\n"@ + files@[0].name@,
        files@.len() > 1 ==> r@ == decimal(files@.len()) + " recent files:\n"@
            + files@[0].name@,
{
    if files.len() == 0 {
        return "No recent files".to_owned();
    }
    let mut v = if files.len() == 1 {
        chars_of("1 recent file:\n")
    } else {
        let mut c = decimal_chars(files.len() as u64);
        push_str(&mut c, " recent files:\n");
        c
    };
    push_str(&mut v, files[0].name.as_str());
    string_from_chars(&v)
}

// ============================================================================
// CHOICES
// ============================================================================

/// The import format of the format dropdown: `None` detects it.
pub fn import_format(format_id: usize) -> (r: Option<TranscriptFormat>)
    ensures
        format_id == 0 ==> r is None,
        format_id == 1 ==> r == Some(TranscriptFormat::PlainText),
        format_id == 2 ==> r == Some(TranscriptFormat::Json),
        format_id == 3 ==> r == Some(TranscriptFormat::Markdown),
        format_id > 3 ==> r == Some(TranscriptFormat::PlainText),
{
    match format_id {
        0 => None,
        1 => Some(TranscriptFormat::PlainText),
        2 => Some(TranscriptFormat::Json),
        3 => Some(TranscriptFormat::Markdown),
        _ => Some(TranscriptFormat::PlainText),
    }
}

/// The template of the template dropdown, and whether the id was valid (an
/// invalid id gives the two-person interview).
pub fn template_for_id(template_id: usize) -> (r: (TemplateType, bool))
    ensures
        template_id == 0 ==> r == (TemplateType::TwoPersonInterview, true),
        template_id == 1 ==> r == (TemplateType::ThreePersonDiscussion, true),
        template_id == 2 ==> r == (TemplateType::Narrative, true),
        template_id > 2 ==> r == (TemplateType::TwoPersonInterview, false),
{
    match template_id {
        0 => (TemplateType::TwoPersonInterview, true),
        1 => (TemplateType::ThreePersonDiscussion, true),
        2 => (TemplateType::Narrative, true),
        _ => (TemplateType::TwoPersonInterview, false),
    }
}

/// The export format of the export dropdown (WAV unless MP3 is chosen).
pub fn export_format_for(format_id: usize) -> (r: ExportFormat)
    ensures
        r == (if format_id == 1 { ExportFormat::Mp3 } else { ExportFormat::Wav }),
{
    if format_id == 1 {
        ExportFormat::Mp3
    } else {
        ExportFormat::Wav
    }
}

/// The MP3 bitrate of the bitrate dropdown (192 kbps by default).
pub fn mp3_bitrate_for(bitrate_id: usize) -> (r: Mp3Bitrate)
    ensures
        bitrate_id == 0 ==> r == Mp3Bitrate::Kbps128,
        bitrate_id == 1 ==> r == Mp3Bitrate::Kbps192,
        bitrate_id == 2 ==> r == Mp3Bitrate::Kbps256,
        bitrate_id == 3 ==> r == Mp3Bitrate::Kbps320,
        bitrate_id > 3 ==> r == Mp3Bitrate::Kbps192,
{
    match bitrate_id {
        0 => Mp3Bitrate::Kbps128,
        1 => Mp3Bitrate::Kbps192,
        2 => Mp3Bitrate::Kbps256,
        3 => Mp3Bitrate::Kbps320,
        _ => Mp3Bitrate::Kbps192,
    }
}

/// `s` with every space replaced by an underscore.
pub open spec fn spaces_to_underscores(s: Seq<char>) -> Seq<char> {
    Seq::new(s.len(), |i: int| if s[i] == ' ' { '_' } else { s[i] })
}

/// The temporary file a template is written to for external editing:
/// `mofa_cast_template_<name>.txt`, the name lowercased with underscores for
/// spaces.
pub fn template_file_name(template_name: &str) -> (r: String)
    ensures
        r@ == "mofa_cast_template_"@ + spaces_to_underscores(lowercase(template_name@)) + ".txt"@,
        all_ascii(template_name@) ==> r@ == "mofa_cast_template_"@ + spaces_to_underscores(
            ascii_lowercase(template_name@),
        ) + ".txt"@,
{
    let lower = to_lowercase(template_name);
    let l = chars_of(lower.as_str());
    let mut v = chars_of("mofa_cast_template_");
    let ghost start = v@;
    let mut i: usize = 0;
    while i < l.len()
        invariant
            0 <= i <= l.len(),
            v@ == start + spaces_to_underscores(l@).take(i as int),
        decreases l.len() - i,
    {
        if l[i] == ' ' {
            v.push('_');
        } else {
            v.push(l[i]);
        }
        i = i + 1;
        assert(spaces_to_underscores(l@).take(i as int) =~= spaces_to_underscores(l@).take(
            i - 1,
        ).push(spaces_to_underscores(l@)[i - 1]));
    }
    assert(spaces_to_underscores(l@).take(i as int) =~= spaces_to_underscores(l@));
    push_str(&mut v, ".txt");
    string_from_chars(&v)
}

/// The title of an export: the script file's stem, or `Podcast`.
pub open spec fn export_title(script_path: Option<Seq<char>>) -> Seq<char> {
    match script_path {
        Some(p) => match path_file_stem(p) {
            Some(stem) => stem,
            None => "Podcast"@,
        },
        None => "Podcast"@,
    }
}

/// The metadata of an exported podcast.
pub fn export_metadata(script_path: Option<&str>, year: String, segment_count: usize) -> (r: AudioMetadata)
    ensures
        r.title matches Some(t) && t@ == export_title(
            match script_path {
                Some(p) => Some(p@),
                None => None,
            },
        ),
        r.artist matches Some(a) && a@ == "MoFA Cast"@,
        r.album matches Some(a) && a@ == "Generated by MoFA Cast"@,
        r.year matches Some(y) && y@ == year@,
        r.comment matches Some(c) && c@ == "Created with MoFA Cast v0.6.2 - "@ + decimal(
            segment_count as nat,
        ) + " segments"@,
{
    let title = match script_path {
        Some(p) => match file_stem_of(p) {
            Some(stem) => stem,
            None => "Podcast".to_owned(),
        },
        None => "Podcast".to_owned(),
    };
    let mut c = chars_of("Created with MoFA Cast v0.6.2 - ");
    let n = decimal_chars(segment_count as u64);
    push_all(&mut c, &n);
    push_str(&mut c, " segments");
    AudioMetadata {
        title: Some(title),
        artist: Some("MoFA Cast".to_owned()),
        album: Some("Generated by MoFA Cast".to_owned()),
        year: Some(year),
        comment: Some(string_from_chars(&c)),
    }
}

} // verus!
