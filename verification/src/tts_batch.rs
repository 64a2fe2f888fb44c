//! Script segmentation and the bookkeeping of batch TTS synthesis.
use vstd::prelude::*;
use vstd::utf8::{decode_utf8, encode_utf8};
use vstd::string::StringSliceAdditionalSpecFns;
use crate::text::{
    char_lines, chars_of, count_words, first_non_ws, is_whitespace, is_ws,
    lines, lines_of, push_all, push_str, string_from_chars, trim,
    trim_chars, word_count, decimal, zero_pad, zero_padded, chars_equal,
};
use crate::transcript_parser::{is_ascii_alnum, lemma_run_end_bounds, run_end};

verus! {

// ---------------------------------------------------------------------------
// Data model
// ---------------------------------------------------------------------------

/// Audio segment in a podcast script. The spoken length is estimated from
/// `word_count` (about 150 words a minute).
#[derive(Debug)]
pub struct AudioSegment {
    /// Segment index in the full script (its line number)
    pub index: usize,
    /// Speaker name
    pub speaker: String,
    /// Text content to synthesize
    pub text: String,
    /// Number of whitespace-separated words of `text`
    pub word_count: usize,
    /// Path to generated audio file (after synthesis)
    pub audio_path: Option<String>,
}

/// Errors that can occur during TTS synthesis.
#[derive(Debug)]
pub enum TtsError {
    /// No segments to synthesize
    NoSegments,
    /// Output directory creation failed
    OutputDirectoryError(String),
    /// TTS engine error
    TtsEngineError(String),
    /// File write error
    FileWriteError(String),
    /// Invalid voice assignment
    InvalidVoice(String),
    /// Synthesis timeout
    Timeout,
    /// Other error
    Other(String),
}

impl TtsError {
    /// The message the error shows.
    pub fn describe(&self) -> (r: String)
        ensures
            r@ == match self {
                TtsError::NoSegments => "No segments to synthesize"@,
                TtsError::OutputDirectoryError(m) => "Output directory error: "@ + m@,
                TtsError::TtsEngineError(m) => "TTS engine error: "@ + m@,
                TtsError::FileWriteError(m) => "File write error: "@ + m@,
                TtsError::InvalidVoice(m) => "Invalid voice: "@ + m@,
                TtsError::Timeout => "Synthesis timed out"@,
                TtsError::Other(m) => "Error: "@ + m@,
            },
    {
        let mut v = match self {
            TtsError::NoSegments => chars_of("No segments to synthesize"),
            TtsError::OutputDirectoryError(_) => chars_of("Output directory error: "),
            TtsError::TtsEngineError(_) => chars_of("TTS engine error: "),
            TtsError::FileWriteError(_) => chars_of("File write error: "),
            TtsError::InvalidVoice(_) => chars_of("Invalid voice: "),
            TtsError::Timeout => chars_of("Synthesis timed out"),
            TtsError::Other(_) => chars_of("Error: "),
        };
        match self {
            TtsError::OutputDirectoryError(m) => push_str(&mut v, m.as_str()),
            TtsError::TtsEngineError(m) => push_str(&mut v, m.as_str()),
            TtsError::FileWriteError(m) => push_str(&mut v, m.as_str()),
            TtsError::InvalidVoice(m) => push_str(&mut v, m.as_str()),
            TtsError::Other(m) => push_str(&mut v, m.as_str()),
            _ => {},
        }
        string_from_chars(&v)
    }
}

// ---------------------------------------------------------------------------
// Script segmentation
// ---------------------------------------------------------------------------

/// Speaker characters of a script line: ASCII letters and digits, `_`, `-`,
/// whitespace and CJK unified ideographs (U+4E00..U+9FFF).
pub open spec fn script_speaker_class() -> spec_fn(char) -> bool {
    |c: char|
        is_ascii_alnum(c) || c == '_' || c == '-' || is_ws(c) || ('\u{4e00}' <= c && c
            <= '\u{9fff}')
}

fn is_script_speaker_char(c: char) -> (r: bool)
    ensures
        r == (script_speaker_class())(c),
{
    ('A' <= c && c <= 'Z') || ('a' <= c && c <= 'z') || ('0' <= c && c <= '9') || c == '_' || c
        == '-' || is_whitespace(c) || ('\u{4e00}' <= c && c <= '\u{9fff}')
}

fn script_speaker_run(s: &Vec<char>, i: usize) -> (r: usize)
    requires
        i <= s.len(),
    ensures
        r == run_end(s@, i as int, script_speaker_class()),
{
    let mut k = i;
    while k < s.len() && is_script_speaker_char(s[k])
        invariant
            i <= k <= s.len(),
            run_end(s@, i as int, script_speaker_class()) == run_end(
                s@,
                k as int,
                script_speaker_class(),
            ),
        decreases s.len() - k,
    {
        k = k + 1;
    }
    k
}

/// A script line `[Speaker]: text`, `@Speaker: text` or `Speaker: text`: an
/// optional `@` or `[`, a non-empty run of speaker characters, an optional
/// `]` followed by optional whitespace, a `:`, and at least one character.
/// Gives the raw speaker and everything after the colon.
pub open spec fn script_line_parts(line: Seq<char>) -> Option<(Seq<char>, Seq<char>)> {
    let p: int = if line.len() > 0 && (line[0] == '@' || line[0] == '[') {
        1
    } else {
        0
    };
    let m = run_end(line, p, script_speaker_class());
    if m == p || m >= line.len() {
        None
    } else if line[m] == ':' {
        if m + 1 < line.len() {
            Some((line.subrange(p, m), line.skip(m + 1)))
        } else {
            None
        }
    } else if line[m] == ']' {
        let k = first_non_ws(line, m + 1);
        if k < line.len() && line[k] == ':' && k + 1 < line.len() {
            Some((line.subrange(p, m), line.skip(k + 1)))
        } else {
            None
        }
    } else {
        None
    }
}

/// The (speaker, text) a script line yields: blank lines and lines starting
/// with `#` yield nothing; otherwise both parts of a speaker line, trimmed,
/// when the text is not empty.
pub open spec fn script_line(raw: Seq<char>) -> Option<(Seq<char>, Seq<char>)> {
    let l = trim(raw);
    if l.len() == 0 || l[0] == '#' {
        None
    } else {
        match script_line_parts(l) {
            Some((speaker, rest)) => if trim(rest).len() > 0 {
                Some((trim(speaker), trim(rest)))
            } else {
                None
            },
            None => None,
        }
    }
}

/// (line index, speaker, text) of each segment of the script lines.
pub open spec fn script_segments(ls: Seq<Seq<char>>) -> Seq<(int, Seq<char>, Seq<char>)>
    decreases ls.len(),
{
    if ls.len() == 0 {
        Seq::empty()
    } else {
        let prev = script_segments(ls.drop_last());
        match script_line(ls.last()) {
            Some((sp, tx)) => prev.push((ls.len() - 1, sp, tx)),
            None => prev,
        }
    }
}

/// A script line is a segment once its (speaker, text) is found: the
/// segments keep the line's index.
proof fn lemma_line_in_segments(ls: Seq<Seq<char>>, j: int, sp: Seq<char>, tx: Seq<char>)
    requires
        0 <= j < ls.len(),
        script_line(ls[j]) == Some((sp, tx)),
    ensures
        script_segments(ls).contains((j, sp, tx)),
    decreases ls.len(),
{
    let d = ls.drop_last();
    if j < ls.len() - 1 {
        assert(d[j] == ls[j]);
        lemma_line_in_segments(d, j, sp, tx);
        let prev = script_segments(d);
        let w = choose|w: int| 0 <= w < prev.len() && prev[w] == (j, sp, tx);
        match script_line(ls.last()) {
            Some((a, b)) => assert(script_segments(ls)[w] == prev[w]),
            None => assert(script_segments(ls)[w] == prev[w]),
        }
    } else {
        assert(ls.last() == ls[j]);
        let r = script_segments(ls);
        assert(r[r.len() - 1] == (j, sp, tx));
    }
}

/// Every dialogue line `Speaker: text` (a non-empty run of speaker
/// characters, a colon, then text that is not blank) yields a segment at its
/// line index, whose speaker is the trimmed name and whose text is the
/// trimmed remainder after the first colon, whatever that remainder holds,
/// colons included.
pub proof fn lemma_dialogue_line_yields_segment(
    ls: Seq<Seq<char>>,
    j: int,
    speaker: Seq<char>,
    text: Seq<char>,
)
    requires
        0 <= j < ls.len(),
        trim(ls[j]) == speaker + seq![':'] + text,
        speaker.len() > 0,
        forall|i: int| 0 <= i < speaker.len() ==> (script_speaker_class())(#[trigger] speaker[i]),
        trim(text).len() > 0,
    ensures
        script_line(ls[j]) == Some((trim(speaker), trim(text))),
        script_segments(ls).contains((j, trim(speaker), trim(text))),
{
    let l = trim(ls[j]);
    let n = speaker.len() as int;
    assert(l[0] == speaker[0]);
    assert((script_speaker_class())(speaker[0]));
    assert(l[n] == ':');
    lemma_run_end_bounds(l, 0, script_speaker_class());
    let m = run_end(l, 0, script_speaker_class());
    if m < n {
        assert(l[m] == speaker[m]);
    }
    if m > n {
        assert((script_speaker_class())(l[n]));
    }
    assert(m == n);
    assert(text.len() > 0);
    assert(l.subrange(0, n) =~= speaker);
    assert(l.skip(n + 1) =~= text);
    lemma_line_in_segments(ls, j, trim(speaker), trim(text));
}

pub open spec fn segment_views(segs: Seq<AudioSegment>) -> Seq<(int, Seq<char>, Seq<char>)> {
    segs.map_values(|s: AudioSegment| (s.index as int, s.speaker@, s.text@))
}

/// Each segment carries the word count of its text and no audio yet.
pub open spec fn fresh_segments(segs: Seq<AudioSegment>) -> bool {
    forall|i: int|
        0 <= i < segs.len() ==> (#[trigger] segs[i]).word_count == word_count(segs[i].text@)
            && segs[i].audio_path is None
}

fn script_parts(line: &Vec<char>) -> (r: Option<(Vec<char>, Vec<char>)>)
    ensures
        match r {
            Some((a, b)) => script_line_parts(line@) == Some((a@, b@)),
            None => script_line_parts(line@) is None,
        },
{
    let p: usize = if line.len() > 0 && (line[0] == '@' || line[0] == '[') {
        1
    } else {
        0
    };
    proof {
        lemma_run_end_bounds(line@, p as int, script_speaker_class());
    }
    let m = script_speaker_run(line, p);
    if m == p || m >= line.len() {
        return None;
    }
    if line[m] == ':' {
        if m + 1 < line.len() {
            let a = crate::text::slice_chars(line, p, m);
            let b = crate::text::slice_chars(line, m + 1, line.len());
            assert(b@ =~= line@.skip(m + 1));
            return Some((a, b));
        }
        return None;
    }
    if line[m] == ']' {
        let k = crate::text::skip_ws_from(line, m + 1);
        if k < line.len() && line[k] == ':' && k + 1 < line.len() {
            let a = crate::text::slice_chars(line, p, m);
            let b = crate::text::slice_chars(line, k + 1, line.len());
            assert(b@ =~= line@.skip(k + 1));
            return Some((a, b));
        }
    }
    None
}

fn script_line_of(raw: &Vec<char>) -> (r: Option<(Vec<char>, Vec<char>)>)
    ensures
        match r {
            Some((a, b)) => script_line(raw@) == Some((a@, b@)),
            None => script_line(raw@) is None,
        },
{
    let l = trim_chars(raw);
    if l.len() == 0 || l[0] == '#' {
        return None;
    }
    match script_parts(&l) {
        Some((speaker, rest)) => {
            let text = trim_chars(&rest);
            if text.len() > 0 {
                Some((trim_chars(&speaker), text))
            } else {
                None
            }
        },
        None => None,
    }
}

/// Script segmenter: splits a script into audio segments.
pub struct ScriptSegmenter;

impl ScriptSegmenter {
    /// Create a new segmenter.
    pub fn new() -> (r: Result<Self, TtsError>)
        ensures
            r is Ok,
    {
        Ok(ScriptSegmenter)
    }

    /// Parse a script into audio segments, one per speaker line, in order.
    ///
    /// Expected format:
    /// ```text
    /// [Speaker Name]: Dialogue text here.
    /// Another Speaker: More dialogue here.
    /// ```
    pub fn segment_script(&self, script: &str) -> (r: Result<Vec<AudioSegment>, TtsError>)
        ensures
            match r {
                Ok(segs) => script_segments(lines(script@)).len() > 0 && segment_views(segs@)
                    == script_segments(lines(script@)) && fresh_segments(segs@),
                Err(e) => script_segments(lines(script@)).len() == 0 && e is NoSegments,
            },
    {
        let chars = chars_of(script);
        let ls = lines_of(&chars);
        let mut segs: Vec<AudioSegment> = Vec::new();
        let mut i: usize = 0;
        while i < ls.len()
            invariant
                0 <= i <= ls.len(),
                char_lines(ls@) == lines(script@),
                segment_views(segs@) == script_segments(char_lines(ls@).take(i as int)),
                fresh_segments(segs@),
            decreases ls.len() - i,
        {
            proof {
                assert(char_lines(ls@).take(i + 1).drop_last() =~= char_lines(ls@).take(i as int));
            }
            match script_line_of(&ls[i]) {
                Some((speaker, text)) => {
                    let words = count_words(&text);
                    let seg = AudioSegment {
                        index: i,
                        speaker: string_from_chars(&speaker),
                        text: string_from_chars(&text),
                        word_count: words,
                        audio_path: None,
                    };
                    let ghost before = segs@;
                    let ghost sv = (i as int, seg.speaker@, seg.text@);
                    segs.push(seg);
                    proof {
                        assert(segment_views(segs@) =~= segment_views(before).push(sv));
                    }
                },
                None => {},
            }
            i = i + 1;
        }
        assert(char_lines(ls@).take(i as int) =~= char_lines(ls@));
        if segs.len() == 0 {
            return Err(TtsError::NoSegments);
        }
        Ok(segs)
    }

    /// Number of whitespace-separated words of `text`, from which the spoken
    /// duration is estimated.
    pub fn word_count(&self, text: &str) -> (r: usize)
        ensures
            r == word_count(text@),
    {
        let chars = chars_of(text);
        count_words(&chars)
    }
}

// ---------------------------------------------------------------------------
// Synthesis configuration
// ---------------------------------------------------------------------------

/// TTS synthesis configuration.
#[derive(Debug)]
pub struct TtsConfig {
    /// Base directory for audio output
    pub output_dir: String,
    /// Audio sample rate (Hz)
    pub sample_rate: u32,
    /// Audio channels (1 = mono, 2 = stereo)
    pub channels: u16,
    /// Voice assignments per speaker (speaker name, voice id); `default`
    /// makes and `assign_voice` keeps each speaker at most once
    pub voice_assignments: Vec<(String, String)>,
    /// Maximum concurrent TTS tasks
    pub max_concurrent_tasks: usize,
}

pub open spec fn assignment_views(v: Seq<(String, String)>) -> Seq<(Seq<char>, Seq<char>)> {
    v.map_values(|p: (String, String)| (p.0@, p.1@))
}

/// Index of the assignment for `speaker`, if any.
pub open spec fn assignment_index(v: Seq<(Seq<char>, Seq<char>)>, speaker: Seq<char>) -> int
    decreases v.len(),
{
    if v.len() == 0 {
        -1
    } else if v.last().0 == speaker {
        v.len() - 1
    } else {
        assignment_index(v.drop_last(), speaker)
    }
}

pub proof fn lemma_assignment_index(v: Seq<(Seq<char>, Seq<char>)>, speaker: Seq<char>)
    ensures
        -1 <= assignment_index(v, speaker) < v.len(),
        assignment_index(v, speaker) >= 0 ==> v[assignment_index(v, speaker)].0 == speaker,
        assignment_index(v, speaker) == -1 ==> forall|k: int|
            0 <= k < v.len() ==> (#[trigger] v[k]).0 != speaker,
    decreases v.len(),
{
    if v.len() > 0 && v.last().0 != speaker {
        lemma_assignment_index(v.drop_last(), speaker);
        let d = v.drop_last();
        assert forall|k: int| 0 <= k < d.len() implies d[k] == v[k] by {}
    }
}

/// The voice assigned to `speaker`, or `default_voice`.
pub open spec fn assigned_voice(v: Seq<(Seq<char>, Seq<char>)>, speaker: Seq<char>) -> Seq<char> {
    if assignment_index(v, speaker) >= 0 {
        v[assignment_index(v, speaker)].1
    } else {
        "default_voice"@
    }
}

/// The assignments once `speaker` is given `voice`: an existing assignment is
/// replaced in place, a new one is added at the end.
pub open spec fn assign(
    v: Seq<(Seq<char>, Seq<char>)>,
    speaker: Seq<char>,
    voice: Seq<char>,
) -> Seq<(Seq<char>, Seq<char>)> {
    if assignment_index(v, speaker) >= 0 {
        v.update(assignment_index(v, speaker), (speaker, voice))
    } else {
        v.push((speaker, voice))
    }
}

/// No speaker is assigned twice.
pub open spec fn distinct_speakers(v: Seq<(Seq<char>, Seq<char>)>) -> bool {
    forall|i: int, j: int| 0 <= i < j < v.len() ==> (#[trigger] v[i]).0 != (#[trigger] v[j]).0
}

impl TtsConfig {
    /// The (speaker, voice) assignments.
    pub open spec fn assignments(&self) -> Seq<(Seq<char>, Seq<char>)> {
        assignment_views(self.voice_assignments@)
    }

    /// The default configuration: `./output/audio`, 22050 Hz mono, `Host`
    /// on `default_voice`, three concurrent tasks.
    pub fn default() -> (r: Self)
        ensures
            r.output_dir@ == "./output/audio"@,
            r.sample_rate == 22050,
            r.channels == 1,
            r.assignments() == seq![("Host"@, "default_voice"@)],
            distinct_speakers(r.assignments()),
            r.max_concurrent_tasks == 3,
    {
        let mut voice_assignments: Vec<(String, String)> = Vec::new();
        voice_assignments.push(("Host".to_owned(), "default_voice".to_owned()));
        assert(assignment_views(voice_assignments@) =~= seq![("Host"@, "default_voice"@)]);
        assert(distinct_speakers(seq![("Host"@, "default_voice"@)]));
        TtsConfig {
            output_dir: "./output/audio".to_owned(),
            sample_rate: 22050,
            channels: 1,
            voice_assignments,
            max_concurrent_tasks: 3,
        }
    }

    /// The voice used for a segment of `speaker`: its assigned voice, or
    /// `default_voice` when it has none.
    pub fn voice_for(&self, speaker: &str) -> (r: String)
        ensures
            r@ == assigned_voice(self.assignments(), speaker@),
    {
        let target = chars_of(speaker);
        let v = &self.voice_assignments;
        let ghost views = assignment_views(v@);
        let mut i = v.len();
        assert(views.take(i as int) =~= views);
        while i > 0
            invariant
                i <= v.len(),
                views == assignment_views(v@),
                views == assignment_views(self.voice_assignments@),
                target@ == speaker@,
                assignment_index(views, speaker@) == assignment_index(views.take(i as int), speaker@),
            decreases i,
        {
            let key = chars_of(v[i - 1].0.as_str());
            proof {
                assert(views.take(i as int).drop_last() =~= views.take(i - 1));
                assert(views.take(i as int).last() == views[i - 1]);
            }
            if chars_equal(&key, &target) {
                proof {
                    lemma_assignment_index(views, speaker@);
                    assert(assignment_index(views.take(i as int), speaker@) == i - 1);
                    assert(views[i - 1].1 == v@[i - 1].1@);
                }
                let r = v[i - 1].1.clone();
                assert(r@ == views[i - 1].1);
                return r;
            }
            i = i - 1;
        }
        "default_voice".to_owned()
    }

    /// Assigns `voice` to `speaker`, replacing an earlier assignment.
    pub fn assign_voice(&mut self, speaker: String, voice: String)
        ensures
            final(self).assignments() == assign(
                old(self).assignments(),
                speaker@,
                voice@,
            ),
            final(self).output_dir == old(self).output_dir,
            final(self).sample_rate == old(self).sample_rate,
            final(self).channels == old(self).channels,
            final(self).max_concurrent_tasks == old(self).max_concurrent_tasks,
            distinct_speakers(old(self).assignments()) ==> distinct_speakers(
                final(self).assignments(),
            ),
    {
        let target = chars_of(speaker.as_str());
        let ghost views = assignment_views(self.voice_assignments@);
        proof {
            if distinct_speakers(views) {
                lemma_assign_keeps_distinct(views, speaker@, voice@);
            }
        }
        let ghost sv = speaker@;
        let ghost vv = voice@;
        let mut i = self.voice_assignments.len();
        assert(views.take(i as int) =~= views);
        while i > 0
            invariant
                i <= self.voice_assignments.len(),
                self.voice_assignments == old(self).voice_assignments,
                self.output_dir == old(self).output_dir,
                self.sample_rate == old(self).sample_rate,
                self.channels == old(self).channels,
                self.max_concurrent_tasks == old(self).max_concurrent_tasks,
                views == assignment_views(self.voice_assignments@),
                target@ == sv,
                sv == speaker@,
                vv == voice@,
                assignment_index(views, sv) == assignment_index(views.take(i as int), sv),
            decreases i,
        {
            let key = chars_of(self.voice_assignments[i - 1].0.as_str());
            proof {
                assert(views.take(i as int).drop_last() =~= views.take(i - 1));
                assert(views.take(i as int).last() == views[i - 1]);
            }
            if chars_equal(&key, &target) {
                self.voice_assignments.set(i - 1, (speaker, voice));
                proof {
                    assert(assignment_views(self.voice_assignments@) =~= views.update(
                        i - 1,
                        (sv, vv),
                    ));
                }
                return;
            }
            i = i - 1;
        }
        assert(views.take(0) =~= Seq::<(Seq<char>, Seq<char>)>::empty());
        self.voice_assignments.push((speaker, voice));
        assert(assignment_views(self.voice_assignments@) =~= views.push((sv, vv)));
    }
}

/// A speaker keeps at most one assignment when voices are assigned.
pub proof fn lemma_assign_keeps_distinct(
    v: Seq<(Seq<char>, Seq<char>)>,
    speaker: Seq<char>,
    voice: Seq<char>,
)
    requires
        distinct_speakers(v),
    ensures
        distinct_speakers(assign(v, speaker, voice)),
{
    lemma_assignment_index(v, speaker);
    let n = assign(v, speaker, voice);
    let k = assignment_index(v, speaker);
    assert forall|i: int, j: int| 0 <= i < j < n.len() implies (#[trigger] n[i]).0 != (
    #[trigger] n[j]).0 by {
        if k >= 0 {
            if i != k && j != k {
                assert(n[i] == v[i] && n[j] == v[j]);
            } else if i == k {
                assert(n[j] == v[j]);
                assert(v[i].0 == speaker);
            } else {
                assert(n[i] == v[i]);
                assert(v[j].0 == speaker);
            }
        } else if j == v.len() {
            assert(n[i] == v[i]);
        } else {
            assert(n[i] == v[i] && n[j] == v[j]);
        }
    }
}

/// After `speaker` is assigned `voice`, its segments use `voice`, and every
/// other speaker keeps the voice it had.
pub proof fn lemma_assign_then_lookup(
    v: Seq<(Seq<char>, Seq<char>)>,
    speaker: Seq<char>,
    voice: Seq<char>,
    other: Seq<char>,
)
    requires
        distinct_speakers(v),
    ensures
        assigned_voice(assign(v, speaker, voice), speaker) == voice,
        other != speaker ==> assigned_voice(assign(v, speaker, voice), other) == assigned_voice(
            v,
            other,
        ),
{
    lemma_assign_keeps_distinct(v, speaker, voice);
    let n = assign(v, speaker, voice);
    lemma_assignment_index(v, speaker);
    lemma_assignment_index(n, speaker);
    lemma_assignment_index(v, other);
    lemma_assignment_index(n, other);
    lemma_index_unique(n, speaker);
    lemma_index_unique(n, other);
    lemma_index_unique(v, other);
    let k = assignment_index(v, speaker);
    if k >= 0 {
        assert(n[k].0 == speaker);
    } else {
        assert(n[v.len() as int].0 == speaker);
    }
    if other != speaker {
        let ko = assignment_index(v, other);
        if ko >= 0 {
            assert(n[ko] == v[ko]);
        } else {
            assert forall|j: int| 0 <= j < n.len() implies (#[trigger] n[j]).0 != other by {
                if k >= 0 && j == k {
                } else if k < 0 && j == v.len() {
                } else {
                    assert(n[j] == v[j]);
                }
            }
        }
    }
}

/// With distinct speakers, the assignment found for a speaker is the only
/// one it has.
proof fn lemma_index_unique(v: Seq<(Seq<char>, Seq<char>)>, speaker: Seq<char>)
    requires
        distinct_speakers(v),
    ensures
        forall|j: int|
            0 <= j < v.len() && (#[trigger] v[j]).0 == speaker ==> assignment_index(v, speaker)
                == j,
{
    lemma_assignment_index(v, speaker);
    assert forall|j: int| 0 <= j < v.len() && (#[trigger] v[j]).0 == speaker implies assignment_index(
        v,
        speaker,
    ) == j by {
        let k = assignment_index(v, speaker);
        if k != j {
            if k < j {
                assert(v[k].0 != v[j].0);
            } else {
                assert(v[j].0 != v[k].0);
            }
        }
    }
}

/// The file name of a synthesized segment: `segment_NNNN.wav`.
pub fn segment_file_name(index: usize) -> (r: String)
    ensures
        r@ == "segment_"@ + zero_pad(decimal(index as nat), 4) + ".wav"@,
{
    let mut v = chars_of("segment_");
    let digits = zero_padded(index as u64, 4);
    push_all(&mut v, &digits);
    push_str(&mut v, ".wav");
    string_from_chars(&v)
}

/// Truncates `text` to `max_len` bytes for a preview, adding `...` when it
/// was longer.
pub fn truncate_text(text: &str, max_len: usize) -> (r: String)
    requires
        byte_len_of(text@) <= usize::MAX,
        byte_len_of(text@) <= max_len || vstd::utf8::is_char_boundary(
            encode_utf8(text@),
            max_len as int,
        ),
    ensures
        byte_len_of(text@) <= max_len ==> r@ == text@,
        byte_len_of(text@) > max_len ==> r@ == decode_utf8(
            encode_utf8(text@).subrange(0, max_len as int),
        ) + "..."@,
{
    if text.len() <= max_len {
        text.to_owned()
    } else {
        let (head, _) = text.split_at(max_len);
        proof {
            vstd::utf8::encode_utf8_decode_utf8(head@);
            assert(head.spec_bytes() == encode_utf8(head@));
            assert(encode_utf8(head@) =~= encode_utf8(text@).subrange(0, max_len as int));
            assert(head@ == decode_utf8(encode_utf8(text@).subrange(0, max_len as int)));
        }
        let mut v = chars_of(head);
        push_str(&mut v, "...");
        assert(v@ == head@ + "..."@);
        let r = string_from_chars(&v);
        assert(r@ == decode_utf8(encode_utf8(text@).subrange(0, max_len as int)) + "..."@);
        r
    }
}

pub open spec fn byte_len_of(s: Seq<char>) -> nat {
    encode_utf8(s).len()
}

// ---------------------------------------------------------------------------
// Engines
// ---------------------------------------------------------------------------

/// Mock TTS engine for testing without actual TTS.
#[derive(Debug, Clone, Copy)]
pub struct MockTtsEngine;

impl MockTtsEngine {
    /// Engine name.
    pub fn engine_name(&self) -> (r: &'static str)
        ensures
            r@ == "mock-tts"@,
    {
        "mock-tts"
    }

    /// How long the mock engine takes for a text of `text_len` bytes:
    /// two milliseconds per byte, at most 400.
    pub fn delay_ms(text_len: usize) -> (r: u64)
        ensures
            r == 2 * (if text_len < 200 { text_len as int } else { 200 }),
    {
        let n: u64 = if text_len < 200 { text_len as u64 } else { 200 };
        n * 2
    }
}

/// Backend selection for Kokoro TTS.
#[derive(Debug, Clone, Copy, PartialEq, Eq, Structural)]
pub enum KokoroBackend {
    /// Auto-detect (MLX on macOS, CPU elsewhere)
    Auto,
    /// Force MLX backend (Apple Silicon only)
    Mlx,
    /// Force CPU backend (cross-platform)
    Cpu,
}

impl KokoroBackend {
    /// Environment variable value of the backend.
    pub fn as_env_value(&self) -> (r: &'static str)
        ensures
            r@ == match self {
                KokoroBackend::Auto => "auto"@,
                KokoroBackend::Mlx => "mlx"@,
                KokoroBackend::Cpu => "cpu"@,
            },
    {
        match self {
            KokoroBackend::Auto => "auto",
            KokoroBackend::Mlx => "mlx",
            KokoroBackend::Cpu => "cpu",
        }
    }
}

/// TTS engine factory.
pub struct TtsFactory;

impl TtsFactory {
    /// Create a mock TTS engine for testing.
    pub fn create_mock_engine() -> (r: MockTtsEngine) {
        MockTtsEngine
    }
}

} // verus!
