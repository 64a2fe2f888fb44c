//! Voices for speakers and the sequential queue of script segments sent to
//! the TTS dataflow.
use vstd::prelude::*;
use crate::text::{
    all_ascii, ascii_lowercase, chars_equal, chars_of, contains, contains_str, decimal, decimal_chars,
    lowercase, push_all, push_str, string_from_chars, to_lowercase,
};

verus! {

// ============================================================================
// VOICE CONFIGURATION
// ============================================================================

/// The bits of the speed factor 1.0 (normal speed) as an IEEE-754 single.
pub const NORMAL_SPEED_BITS: u32 = 0x3f80_0000;

/// The voice chosen for a speaker by the pattern of its lowercased name:
/// hosts get Luo Xiang, the first guest Ma Yun, the second Ma Baoguo, other
/// guests Ma Yun, everyone else Luo Xiang.
pub open spec fn default_voice(lower: Seq<char>) -> Seq<char> {
    if contains(lower, "host"@) || contains(lower, "主持"@) {
        "Luo Xiang"@
    } else if contains(lower, "guest1"@) || contains(lower, "嘉宾1"@) {
        "Ma Yun"@
    } else if contains(lower, "guest2"@) || contains(lower, "嘉宾2"@) {
        "Ma Baoguo"@
    } else if contains(lower, "guest"@) || contains(lower, "嘉宾"@) {
        "Ma Yun"@
    } else {
        "Luo Xiang"@
    }
}

/// A guest never gets the host's voice: a lowercased name that names a
/// guest (`guest` or `嘉宾`) and no host (`host` or `主持`) gets a guest voice,
/// `Ma Yun` unless it is the second guest (`guest2`, `嘉宾2`, `Ma Baoguo`);
/// a guest without a number gets `Ma Yun`.
pub proof fn lemma_guests_get_guest_voices(lower: Seq<char>)
    requires
        contains(lower, "guest"@) || contains(lower, "嘉宾"@),
        !contains(lower, "host"@),
        !contains(lower, "主持"@),
    ensures
        default_voice(lower) != "Luo Xiang"@,
        default_voice(lower) == "Ma Yun"@ || default_voice(lower) == "Ma Baoguo"@,
        !contains(lower, "guest1"@) && !contains(lower, "嘉宾1"@) && !contains(lower, "guest2"@)
            && !contains(lower, "嘉宾2"@) ==> default_voice(lower) == "Ma Yun"@,
{
    reveal_strlit("Luo Xiang");
    reveal_strlit("Ma Yun");
    reveal_strlit("Ma Baoguo");
    assert("Ma Yun"@[0] != "Luo Xiang"@[0]);
    assert("Ma Baoguo"@[0] != "Luo Xiang"@[0]);
}

/// The default voice of a speaker, chosen from its lowercased name.
pub fn default_voice_name(speaker: &str) -> (r: &'static str)
    ensures
        r@ == default_voice(lowercase(speaker@)),
        all_ascii(speaker@) ==> r@ == default_voice(ascii_lowercase(speaker@)),
{
    let lower = to_lowercase(speaker);
    let normalized = chars_of(lower.as_str());
    if contains_str(&normalized, "host") || contains_str(&normalized, "主持") {
        "Luo Xiang"
    } else if contains_str(&normalized, "guest1") || contains_str(&normalized, "嘉宾1") {
        "Ma Yun"
    } else if contains_str(&normalized, "guest2") || contains_str(&normalized, "嘉宾2") {
        "Ma Baoguo"
    } else if contains_str(&normalized, "guest") || contains_str(&normalized, "嘉宾") {
        "Ma Yun"
    } else {
        "Luo Xiang"
    }
}

/// Voice configuration for a speaker.
#[derive(Debug)]
pub struct VoiceConfig {
    /// Speaker name (e.g., "host", "guest1", "guest2")
    pub speaker: String,
    /// Voice name (e.g., "Luo Xiang", "Yang Mi", "Ma Yun")
    pub voice_name: String,
    /// Speed factor (0.5 - 2.0, 1.0 = normal), as the bits of an IEEE-754
    /// single; kept as given (the clamp to 0.5 - 2.0 is floating point and
    /// is done before a configuration is made)
    pub speed_bits: u32,
}

impl VoiceConfig {
    /// Create a new voice configuration. The speed's bits are stored as
    /// given, unchecked: the caller clamps the speed to 0.5 - 2.0 first.
    pub fn new(speaker: String, voice_name: String, speed_bits: u32) -> (r: Self)
        ensures
            r.speaker == speaker,
            r.voice_name == voice_name,
            r.speed_bits == speed_bits,
    {
        VoiceConfig { speaker, voice_name, speed_bits }
    }

    /// Default voice configurations for speakers, in order: the default
    /// voice of each name at normal speed.
    pub fn get_defaults(speakers: &Vec<String>) -> (r: Vec<Self>)
        ensures
            r.len() == speakers.len(),
            forall|i: int|
                0 <= i < r.len() ==> (#[trigger] r[i]).speaker@ == speakers[i]@ && r[i].voice_name@
                    == default_voice(lowercase(speakers[i]@)) && r[i].speed_bits
                    == NORMAL_SPEED_BITS,
    {
        let mut r: Vec<Self> = Vec::new();
        let mut i: usize = 0;
        while i < speakers.len()
            invariant
                0 <= i <= speakers.len(),
                r.len() == i,
                forall|k: int|
                    0 <= k < i ==> (#[trigger] r[k]).speaker@ == speakers[k]@ && r[k].voice_name@
                        == default_voice(lowercase(speakers[k]@)) && r[k].speed_bits
                        == NORMAL_SPEED_BITS,
            decreases speakers.len() - i,
        {
            let voice = default_voice_name(speakers[i].as_str());
            let speaker = speakers[i].clone();
            r.push(VoiceConfig::new(speaker, voice.to_owned(), NORMAL_SPEED_BITS));
            i = i + 1;
        }
        r
    }
}

/// Index of the first configuration of `speaker`, or -1.
pub open spec fn first_voice_index(v: Seq<VoiceConfig>, speaker: Seq<char>) -> int
    decreases v.len(),
{
    if v.len() == 0 {
        -1
    } else {
        let k = first_voice_index(v.drop_last(), speaker);
        if k >= 0 {
            k
        } else if v.last().speaker@ == speaker {
            v.len() - 1
        } else {
            -1
        }
    }
}

/// The configurations of speakers other than `speaker`, in order.
pub open spec fn without_speaker(v: Seq<VoiceConfig>, speaker: Seq<char>) -> Seq<VoiceConfig>
    decreases v.len(),
{
    if v.len() == 0 {
        Seq::empty()
    } else {
        let rest = without_speaker(v.drop_last(), speaker);
        if v.last().speaker@ == speaker {
            rest
        } else {
            rest.push(v.last())
        }
    }
}

/// The configurations after `c` is set: the earlier ones of its speaker
/// removed, `c` added at the end.
pub open spec fn after_set(v: Seq<VoiceConfig>, c: VoiceConfig) -> Seq<VoiceConfig> {
    without_speaker(v, c.speaker@).push(c)
}

/// No speaker has two configurations.
pub open spec fn distinct_voices(v: Seq<VoiceConfig>) -> bool {
    forall|i: int, j: int|
        0 <= i < j < v.len() ==> (#[trigger] v[i]).speaker@ != (#[trigger] v[j]).speaker@
}

pub proof fn lemma_first_voice_index(v: Seq<VoiceConfig>, speaker: Seq<char>)
    ensures
        -1 <= first_voice_index(v, speaker) < v.len(),
        first_voice_index(v, speaker) >= 0 ==> v[first_voice_index(v, speaker)].speaker@
            == speaker,
        forall|j: int|
            0 <= j < v.len() && (j < first_voice_index(v, speaker) || first_voice_index(
                v,
                speaker,
            ) == -1) ==> (#[trigger] v[j]).speaker@ != speaker,
    decreases v.len(),
{
    if v.len() > 0 {
        let d = v.drop_last();
        lemma_first_voice_index(d, speaker);
        assert forall|k: int| 0 <= k < d.len() implies d[k] == v[k] by {}
    }
}

proof fn lemma_first_voice_is(v: Seq<VoiceConfig>, speaker: Seq<char>, i: int)
    requires
        0 <= i < v.len(),
        v[i].speaker@ == speaker,
        forall|j: int| 0 <= j < i ==> (#[trigger] v[j]).speaker@ != speaker,
    ensures
        first_voice_index(v, speaker) == i,
{
    lemma_first_voice_index(v, speaker);
    let k = first_voice_index(v, speaker);
    if k == -1 {
        assert(v[i].speaker@ != speaker);
    } else if k < i {
        assert(v[k].speaker@ != speaker);
    } else if k > i {
        assert(v[i].speaker@ != speaker);
    }
}

/// Removing the configurations of one speaker keeps the others, in order,
/// and leaves none of that speaker.
pub proof fn lemma_without_speaker(v: Seq<VoiceConfig>, s: Seq<char>)
    ensures
        forall|k: int|
            0 <= k < without_speaker(v, s).len() ==> (#[trigger] without_speaker(v, s)[k]).speaker@
                != s && v.contains(without_speaker(v, s)[k]),
        first_voice_index(without_speaker(v, s), s) == -1,
        distinct_voices(v) ==> distinct_voices(without_speaker(v, s)),
        forall|other: Seq<char>|
            other != s ==> ((#[trigger] first_voice_index(without_speaker(v, s), other) >= 0)
                == (first_voice_index(v, other) >= 0)),
        forall|other: Seq<char>|
            other != s && first_voice_index(v, other) >= 0 ==> without_speaker(v, s)[
                #[trigger] first_voice_index(without_speaker(v, s), other)] == v[first_voice_index(
                v,
                other,
            )],
    decreases v.len(),
{
    let w = without_speaker(v, s);
    if v.len() > 0 {
        let d = v.drop_last();
        let x = v.last();
        let wd = without_speaker(d, s);
        lemma_without_speaker(d, s);
        assert forall|k: int| 0 <= k < w.len() implies v.contains(#[trigger] w[k]) by {
            if k < wd.len() {
                assert(d.contains(wd[k]));
                let j = choose|j: int| 0 <= j < d.len() && d[j] == wd[k];
                assert(v[j] == w[k]);
            } else {
                assert(v[v.len() - 1] == w[k]);
            }
        }
        if x.speaker@ != s {
            assert(w.drop_last() =~= wd);
            lemma_first_voice_index(wd, s);
            lemma_first_voice_index(w, s);
            if distinct_voices(v) {
                assert forall|i: int, j: int| 0 <= i < j < w.len() implies (#[trigger] w[i]).speaker@
                    != (#[trigger] w[j]).speaker@ by {
                    if j == w.len() - 1 {
                        assert(d.contains(wd[i]));
                        let a = choose|a: int| 0 <= a < d.len() && d[a] == wd[i];
                        assert(v[a] == w[i] && v[v.len() - 1] == w[j]);
                    } else {
                        assert(w[i] == wd[i] && w[j] == wd[j]);
                    }
                }
            }
        }
        assert forall|other: Seq<char>| other != s implies ((#[trigger] first_voice_index(
            w,
            other,
        ) >= 0) == (first_voice_index(v, other) >= 0)) && (first_voice_index(v, other) >= 0
            ==> w[first_voice_index(w, other)] == v[first_voice_index(v, other)]) by {
            lemma_first_voice_index(d, other);
            lemma_first_voice_index(wd, other);
            if x.speaker@ != s {
                assert(w.drop_last() =~= wd);
            }
        }
    }
}

/// After a configuration is set, looking up its speaker finds it; every
/// other speaker finds what it found before; each speaker keeps at most one
/// configuration.
pub proof fn lemma_set_then_get(v: Seq<VoiceConfig>, c: VoiceConfig, other: Seq<char>)
    ensures
        first_voice_index(after_set(v, c), c.speaker@) >= 0,
        after_set(v, c)[first_voice_index(after_set(v, c), c.speaker@)] == c,
        other != c.speaker@ ==> ((first_voice_index(after_set(v, c), other) >= 0) == (
        first_voice_index(v, other) >= 0)),
        other != c.speaker@ && first_voice_index(v, other) >= 0 ==> after_set(v, c)[
            first_voice_index(after_set(v, c), other)] == v[first_voice_index(v, other)],
        distinct_voices(v) ==> distinct_voices(after_set(v, c)),
{
    let s = c.speaker@;
    let w = without_speaker(v, s);
    let n = after_set(v, c);
    lemma_without_speaker(v, s);
    assert(n.drop_last() =~= w);
    lemma_first_voice_index(w, other);
    lemma_first_voice_index(n, other);
    assert(first_voice_index(w, other) >= 0 ==> n[first_voice_index(w, other)] == w[
        first_voice_index(w, other)]);
    if distinct_voices(v) {
        assert forall|i: int, j: int| 0 <= i < j < n.len() implies (#[trigger] n[i]).speaker@
            != (#[trigger] n[j]).speaker@ by {
            if j == n.len() - 1 {
                assert(n[i] == w[i]);
            } else {
                assert(n[i] == w[i] && n[j] == w[j]);
            }
        }
    }
}

/// Voice mapping configuration for all speakers.
#[derive(Debug)]
pub struct VoiceMapping {
    /// The voice configuration of each speaker
    pub voices: Vec<VoiceConfig>,
}

impl VoiceMapping {
    /// Create a new, empty voice mapping.
    pub fn new() -> (r: Self)
        ensures
            r.voices@ == Seq::<VoiceConfig>::empty(),
    {
        VoiceMapping { voices: Vec::new() }
    }

    /// Get the voice configuration of a speaker: the first one set for it.
    pub fn get_voice_for_speaker(&self, speaker: &str) -> (r: Option<&VoiceConfig>)
        ensures
            match r {
                Some(c) => first_voice_index(self.voices@, speaker@) >= 0 && *c
                    == self.voices@[first_voice_index(self.voices@, speaker@)],
                None => first_voice_index(self.voices@, speaker@) == -1,
            },
    {
        let target = chars_of(speaker);
        let v = &self.voices;
        let mut i: usize = 0;
        while i < v.len()
            invariant
                0 <= i <= v.len(),
                target@ == speaker@,
                v@ == self.voices@,
                forall|j: int| 0 <= j < i ==> (#[trigger] v@[j]).speaker@ != speaker@,
            decreases v.len() - i,
        {
            let name = chars_of(v[i].speaker.as_str());
            if chars_equal(&name, &target) {
                proof {
                    assert(v@[i as int].speaker@ == speaker@);
                    lemma_first_voice_is(v@, speaker@, i as int);
                }
                return Some(&v[i]);
            }
            i = i + 1;
        }
        proof {
            lemma_first_voice_index(v@, speaker@);
            let k = first_voice_index(v@, speaker@);
            if k >= 0 {
                assert(v@[k].speaker@ != speaker@);
            }
        }
        None
    }

    /// Add or update the voice configuration of a speaker: its earlier
    /// configurations are removed and `config` is added at the end.
    pub fn set_voice(&mut self, config: VoiceConfig)
        ensures
            final(self).voices@ == after_set(old(self).voices@, config),
    {
        let ghost orig = self.voices@;
        let total = self.voices.len();
        let target = chars_of(config.speaker.as_str());
        let mut rest: Vec<VoiceConfig> = Vec::new();
        std::mem::swap(&mut rest, &mut self.voices);
        let mut kept: Vec<VoiceConfig> = Vec::new();
        let mut consumed: usize = 0;
        while rest.len() > 0
            invariant
                consumed + rest@.len() == orig.len(),
                orig.len() == total,
                rest@ == orig.skip(consumed as int),
                kept@ == without_speaker(orig.take(consumed as int), config.speaker@),
                target@ == config.speaker@,
            decreases rest.len(),
        {
            let f = rest.remove(0);
            assert(f == orig[consumed as int]);
            assert(orig.take(consumed + 1).drop_last() =~= orig.take(consumed as int));
            assert(orig.take(consumed + 1).last() == orig[consumed as int]);
            let name = chars_of(f.speaker.as_str());
            if !chars_equal(&name, &target) {
                kept.push(f);
            }
            consumed = consumed + 1;
            assert(rest@ =~= orig.skip(consumed as int));
        }
        assert(orig.take(consumed as int) =~= orig);
        kept.push(config);
        self.voices = kept;
    }

    /// The default voice mapping of speakers.
    pub fn from_speakers(speakers: &Vec<String>) -> (r: Self)
        ensures
            r.voices.len() == speakers.len(),
            forall|i: int|
                0 <= i < r.voices.len() ==> (#[trigger] r.voices[i]).speaker@ == speakers[i]@
                    && r.voices[i].voice_name@ == default_voice(lowercase(speakers[i]@))
                    && r.voices[i].speed_bits == NORMAL_SPEED_BITS,
    {
        VoiceMapping { voices: VoiceConfig::get_defaults(speakers) }
    }
}

// ============================================================================
// SEQUENTIAL SEGMENT QUEUE
// ============================================================================

/// Script segment for TTS synthesis.
#[derive(Debug)]
pub struct ScriptSegment {
    /// Speaker name
    pub speaker: String,
    /// Text content to synthesize
    pub text: String,
    /// Segment index in the script
    pub segment_index: usize,
    /// Voice name to use for this segment
    pub voice_name: String,
    /// Speed factor for this segment, as the bits of an IEEE-754 single
    pub speed_bits: u32,
}

/// What is sent to the controller for one segment.
#[derive(Debug)]
pub enum SegmentPayload {
    /// `speaker` and `text` on two lines, when all queued segments use one
    /// voice
    Plain(String),
    /// The segment with its voice routing, sent as a JSON object with the
    /// keys `speaker`, `text`, `voice_name` and `speed`
    Routed { speaker: String, text: String, voice_name: String, speed_bits: u32 },
}

/// One segment to send now, with the progress it reports.
#[derive(Debug)]
pub struct SegmentSend {
    /// What the controller receives
    pub payload: SegmentPayload,
    /// The segment's index in the script
    pub segment_index: usize,
    /// Total segments queued
    pub total: usize,
    /// The segment's speaker
    pub speaker: String,
}

/// All segments use the voice of the first.
pub open spec fn single_voice(segs: Seq<ScriptSegment>) -> bool {
    forall|i: int| 0 <= i < segs.len() ==> (#[trigger] segs[i]).voice_name@ == segs[0].voice_name@
}

/// `send` sends segment `k` of `segs`, reporting `total`.
pub open spec fn sends(send: SegmentSend, segs: Seq<ScriptSegment>, k: int, total: int) -> bool {
    let seg = segs[k];
    &&& send.segment_index == seg.segment_index
    &&& send.total == total
    &&& send.speaker@ == seg.speaker@
    &&& if single_voice(segs) {
        send.payload matches SegmentPayload::Plain(t) && t@ == seg.speaker@ + "\n"@ + seg.text@
    } else {
        send.payload matches SegmentPayload::Routed { speaker, text, voice_name, speed_bits }
            && speaker@ == seg.speaker@ && text@ == seg.text@ && voice_name@ == seg.voice_name@
            && speed_bits == seg.speed_bits
    }
}

/// How a segment is sent depends on the voices of all queued segments: when
/// every queued segment has the first one's voice, it goes as plain
/// `speaker` and `text` on two lines; as soon as any queued segment's voice
/// differs from the first, it goes routed with its own speaker, text, voice
/// and speed.
pub proof fn lemma_send_routing(send: SegmentSend, segs: Seq<ScriptSegment>, k: int, total: int)
    requires
        0 <= k < segs.len(),
        sends(send, segs, k, total),
    ensures
        (send.payload is Plain) ==> forall|i: int|
            0 <= i < segs.len() ==> (#[trigger] segs[i]).voice_name@ == segs[0].voice_name@,
        (forall|i: int| 0 <= i < segs.len() ==> (#[trigger] segs[i]).voice_name@ == segs[0].voice_name@)
            ==> (send.payload matches SegmentPayload::Plain(t) && t@ == segs[k].speaker@ + "\n"@
            + segs[k].text@),
        (exists|j: int| 0 <= j < segs.len() && (#[trigger] segs[j]).voice_name@ != segs[0].voice_name@)
            ==> (send.payload matches SegmentPayload::Routed { speaker, text, voice_name, speed_bits }
            && speaker@ == segs[k].speaker@ && text@ == segs[k].text@ && voice_name@
            == segs[k].voice_name@ && speed_bits == segs[k].speed_bits),
{
}

/// The pending segments and current index after one audio segment arrives:
/// the index moves on, and the queue empties once the last segment was sent.
pub open spec fn after_audio(pending: Seq<ScriptSegment>, current: int) -> (Seq<ScriptSegment>, int) {
    if current + 1 < pending.len() {
        (pending, current + 1)
    } else {
        (Seq::empty(), current + 1)
    }
}

/// The state after `k` audio segments arrive.
pub open spec fn after_audios(pending: Seq<ScriptSegment>, current: int, k: nat) -> (
    Seq<ScriptSegment>,
    int,
)
    decreases k,
{
    if k == 0 {
        (pending, current)
    } else {
        let p = after_audios(pending, current, (k - 1) as nat);
        after_audio(p.0, p.1)
    }
}

/// Once `n` segments are queued, the `k`-th audio segment to arrive moves
/// the queue to segment `k` while `k < n`, and the queue is empty from then
/// on: segments go out one at a time, in order.
pub proof fn lemma_segments_go_in_order(segs: Seq<ScriptSegment>, k: nat)
    ensures
        k < segs.len() ==> after_audios(segs, 0, k) == (segs, k as int),
        k >= segs.len() && k >= 1 ==> after_audios(segs, 0, k) == (
            Seq::<ScriptSegment>::empty(),
            k as int,
        ),
    decreases k,
{
    if k > 0 {
        let j = (k - 1) as nat;
        lemma_segments_go_in_order(segs, j);
        let p = after_audios(segs, 0, j);
        assert(after_audios(segs, 0, k) == after_audio(p.0, p.1));
        if j < segs.len() {
            assert(p == (segs, j as int));
        } else if j >= 1 {
            assert(p == (Seq::<ScriptSegment>::empty(), j as int));
        } else {
            assert(p == (segs, 0int));
            assert(segs.len() == 0);
        }
    }
}

fn all_same_voice(segs: &Vec<ScriptSegment>) -> (r: bool)
    ensures
        r == single_voice(segs@),
{
    if segs.len() == 0 {
        return true;
    }
    let first = chars_of(segs[0].voice_name.as_str());
    let mut i: usize = 0;
    while i < segs.len()
        invariant
            0 <= i <= segs.len(),
            segs.len() > 0,
            first@ == segs@[0].voice_name@,
            forall|j: int| 0 <= j < i ==> (#[trigger] segs@[j]).voice_name@ == segs@[0].voice_name@,
        decreases segs.len() - i,
    {
        let v = chars_of(segs[i].voice_name.as_str());
        if !chars_equal(&v, &first) {
            return false;
        }
        i = i + 1;
    }
    true
}

fn send_of(segs: &Vec<ScriptSegment>, k: usize, total: usize) -> (r: SegmentSend)
    requires
        k < segs.len(),
    ensures
        sends(r, segs@, k as int, total as int),
{
    let seg = &segs[k];
    let payload = if all_same_voice(segs) {
        let mut t = chars_of(seg.speaker.as_str());
        t.push('\n');
        let body = chars_of(seg.text.as_str());
        crate::text::push_all(&mut t, &body);
        proof {
            reveal_strlit("\n");
            assert(t@ =~= seg.speaker@ + "\n"@ + seg.text@);
        }
        SegmentPayload::Plain(crate::text::string_from_chars(&t))
    } else {
        SegmentPayload::Routed {
            speaker: seg.speaker.clone(),
            text: seg.text.clone(),
            voice_name: seg.voice_name.clone(),
            speed_bits: seg.speed_bits,
        }
    };
    SegmentSend { payload, segment_index: seg.segment_index, total, speaker: seg.speaker.clone() }
}

/// The segments waiting to be synthesized, sent one at a time: the next is
/// sent only once the audio of the previous one has arrived.
#[derive(Debug)]
pub struct SegmentQueue {
    /// Pending script segments
    pub pending_segments: Vec<ScriptSegment>,
    /// Index of the segment being processed
    pub current_segment_index: usize,
    /// Total segments to process
    pub total_segments: usize,
}

impl SegmentQueue {
    /// An empty queue.
    pub fn new() -> (r: Self)
        ensures
            r.pending_segments@ == Seq::<ScriptSegment>::empty(),
            r.current_segment_index == 0,
            r.total_segments == 0,
    {
        SegmentQueue { pending_segments: Vec::new(), current_segment_index: 0, total_segments: 0 }
    }

    /// Queue `segments` for sequential processing and give the first one to
    /// send, if any.
    pub fn queue(&mut self, segments: Vec<ScriptSegment>) -> (r: Option<SegmentSend>)
        ensures
            final(self).pending_segments@ == segments@,
            final(self).total_segments == segments.len(),
            final(self).current_segment_index == 0,
            r is Some <==> segments.len() > 0,
            r matches Some(sd) ==> sends(sd, segments@, 0, segments.len() as int),
    {
        let total = segments.len();
        self.pending_segments = segments;
        self.total_segments = total;
        self.current_segment_index = 0;
        if total > 0 {
            Some(send_of(&self.pending_segments, 0, total))
        } else {
            None
        }
    }

    /// The audio of the current segment arrived: move to the next segment
    /// and give it to send, or empty the queue when none is left.
    pub fn on_audio(&mut self) -> (r: Option<SegmentSend>)
        requires
            old(self).current_segment_index < usize::MAX,
        ensures
            (final(self).pending_segments@, final(self).current_segment_index as int) == after_audio(
                old(self).pending_segments@,
                old(self).current_segment_index as int,
            ),
            final(self).total_segments == old(self).total_segments,
            r is Some <==> old(self).current_segment_index + 1 < old(self).pending_segments.len(),
            r matches Some(sd) ==> sends(
                sd,
                old(self).pending_segments@,
                old(self).current_segment_index + 1,
                old(self).total_segments as int,
            ),
    {
        let current_idx = self.current_segment_index;
        self.current_segment_index = current_idx + 1;
        if current_idx + 1 < self.pending_segments.len() {
            Some(send_of(&self.pending_segments, current_idx + 1, self.total_segments))
        } else {
            self.pending_segments.clear();
            None
        }
    }

    /// Sending a segment failed: the remaining segments are dropped.
    pub fn on_send_failed(&mut self)
        ensures
            final(self).pending_segments@ == Seq::<ScriptSegment>::empty(),
            final(self).current_segment_index == old(self).current_segment_index,
            final(self).total_segments == old(self).total_segments,
    {
        self.pending_segments.clear();
    }
}

// ============================================================================
// THE WORKER'S DECISIONS
// ============================================================================

/// A command from the UI to the cast worker. The dataflow's path and
/// environment stay with the caller.
#[derive(Debug)]
pub enum CastCommand {
    StartDataflow,
    StopDataflow,
    SendScriptSegments { segments: Vec<ScriptSegment> },
    SetVoiceMapping { voice_mapping: VoiceMapping },
}

/// What the cast worker does for a command.
#[derive(Debug)]
pub enum CastAction {
    /// Start the dataflow (and the dora processes if they are down); report
    /// success with [`CastWorker::on_started`].
    Start,
    /// Stop the dispatcher, if there is one, and report the dataflow stopped.
    Stop,
    /// Send `first` (when there is one) to the controller bridge, then log
    /// `log`.
    Send { first: Option<SegmentSend>, log: String },
    /// Log a message.
    Log(String),
    /// Report an error.
    Error(String),
}

/// How sending a segment to the controller bridge went.
#[derive(Debug)]
pub enum SendOutcome {
    /// The controller bridge is not there.
    BridgeMissing,
    /// The send failed with this error text.
    Failed(String),
    /// The segment went out.
    Sent,
}

/// The cast worker's state: whether the dataflow runs and under which id,
/// whether a dispatcher is held, the segment queue and the voices.
#[derive(Debug)]
pub struct CastWorker {
    pub dataflow_running: bool,
    pub dataflow_id: Option<String>,
    pub dispatching: bool,
    pub queue: SegmentQueue,
    pub voice_mapping: VoiceMapping,
}

/// `Voice mapping updated for <n> speakers`.
pub open spec fn mapping_log(n: nat) -> Seq<char> {
    "Voice mapping updated for "@ + decimal(n) + " speakers"@
}

/// `Queued <n> segments, will send sequentially`.
pub open spec fn queued_log(n: nat) -> Seq<char> {
    "Queued "@ + decimal(n) + " segments, will send sequentially"@
}

fn counted_text(before: &str, n: usize, after: &str) -> (r: String)
    ensures
        r@ == before@ + decimal(n as nat) + after@,
{
    let mut v = chars_of(before);
    let d = decimal_chars(n as u64);
    push_all(&mut v, &d);
    push_str(&mut v, after);
    string_from_chars(&v)
}

impl CastWorker {
    /// A worker with nothing running, an empty queue and no voices.
    pub fn new() -> (r: Self)
        ensures
            !r.dataflow_running,
            r.dataflow_id is None,
            !r.dispatching,
            r.queue.pending_segments@ == Seq::<ScriptSegment>::empty(),
            r.queue.current_segment_index == 0,
            r.queue.total_segments == 0,
            r.voice_mapping.voices@ == Seq::<VoiceConfig>::empty(),
    {
        CastWorker {
            dataflow_running: false,
            dataflow_id: None,
            dispatching: false,
            queue: SegmentQueue::new(),
            voice_mapping: VoiceMapping::new(),
        }
    }

    /// What the worker does for `cmd`. A stop clears the running state and
    /// the id and drops the dispatcher; new voices replace the old ones;
    /// segments are queued only while a dispatcher is held, and the first is
    /// handed back to send; without one the answer is `Dataflow not running`.
    pub fn on_command(&mut self, cmd: CastCommand) -> (r: CastAction)
        ensures
            (cmd is StartDataflow) ==> (r is Start && *final(self) == *old(self)),
            (cmd is StopDataflow) ==> {
                &&& r is Stop
                &&& !final(self).dataflow_running
                &&& final(self).dataflow_id is None
                &&& !final(self).dispatching
                &&& final(self).queue == old(self).queue
                &&& final(self).voice_mapping == old(self).voice_mapping
            },
            cmd matches CastCommand::SetVoiceMapping { voice_mapping } ==> {
                &&& r matches CastAction::Log(m) && m@ == mapping_log(voice_mapping.voices.len() as nat)
                &&& final(self).voice_mapping == voice_mapping
                &&& final(self).dataflow_running == old(self).dataflow_running
                &&& final(self).dataflow_id == old(self).dataflow_id
                &&& final(self).dispatching == old(self).dispatching
                &&& final(self).queue == old(self).queue
            },
            cmd matches CastCommand::SendScriptSegments { segments } ==> {
                &&& !old(self).dispatching ==> *final(self) == *old(self)
                &&& !old(self).dispatching ==> (r matches CastAction::Error(m) && m@
                    == "Dataflow not running"@)
                &&& old(self).dispatching ==> {
                    &&& final(self).queue.pending_segments@ == segments@
                    &&& final(self).queue.total_segments == segments.len()
                    &&& final(self).queue.current_segment_index == 0
                    &&& final(self).dataflow_running == old(self).dataflow_running
                    &&& final(self).dataflow_id == old(self).dataflow_id
                    &&& final(self).dispatching
                    &&& final(self).voice_mapping == old(self).voice_mapping
                    &&& r matches CastAction::Send { first, log } && log@ == queued_log(
                        segments.len() as nat,
                    ) && (first is Some <==> segments.len() > 0) && (first matches Some(sd)
                        ==> sends(sd, segments@, 0, segments.len() as int))
                }
            },
    {
        match cmd {
            CastCommand::StartDataflow => CastAction::Start,
            CastCommand::StopDataflow => {
                self.dataflow_running = false;
                self.dataflow_id = None;
                self.dispatching = false;
                CastAction::Stop
            },
            CastCommand::SetVoiceMapping { voice_mapping } => {
                let n = voice_mapping.voices.len();
                self.voice_mapping = voice_mapping;
                CastAction::Log(counted_text("Voice mapping updated for ", n, " speakers"))
            },
            CastCommand::SendScriptSegments { segments } => {
                if !self.dispatching {
                    return CastAction::Error("Dataflow not running".to_owned());
                }
                let n = segments.len();
                let first = self.queue.queue(segments);
                CastAction::Send {
                    first,
                    log: counted_text("Queued ", n, " segments, will send sequentially"),
                }
            },
        }
    }

    /// The dataflow started under `dataflow_id`: it runs and a dispatcher is
    /// held.
    pub fn on_started(&mut self, dataflow_id: String)
        ensures
            final(self).dataflow_running,
            final(self).dataflow_id == Some(dataflow_id),
            final(self).dispatching,
            final(self).queue == old(self).queue,
            final(self).voice_mapping == old(self).voice_mapping,
    {
        self.dataflow_running = true;
        self.dataflow_id = Some(dataflow_id);
        self.dispatching = true;
    }

    /// How sending a segment went, `first` when it was the first of its
    /// queue. A failed send drops the rest of the queue. Only the first
    /// segment reports a missing bridge (`mofa-cast-controller bridge not
    /// available`) or a failed send (`Failed to send first segment: <error>`);
    /// the result is the error to report.
    pub fn on_send_outcome(&mut self, first: bool, outcome: SendOutcome) -> (r: Option<String>)
        ensures
            outcome is Failed ==> final(self).queue.pending_segments@ == Seq::<ScriptSegment>::empty(),
            final(self).queue.current_segment_index == old(self).queue.current_segment_index,
            final(self).queue.total_segments == old(self).queue.total_segments,
            !(outcome is Failed) ==> *final(self) == *old(self),
            final(self).dataflow_running == old(self).dataflow_running,
            final(self).dataflow_id == old(self).dataflow_id,
            final(self).dispatching == old(self).dispatching,
            final(self).voice_mapping == old(self).voice_mapping,
            !first ==> r is None,
            outcome is Sent ==> r is None,
            first && outcome is BridgeMissing ==> (r matches Some(m) && m@
                == "mofa-cast-controller bridge not available"@),
            first ==> (outcome matches SendOutcome::Failed(e) ==> (r matches Some(m) && m@
                == "Failed to send first segment: "@ + e@)),
    {
        match outcome {
            SendOutcome::BridgeMissing => {
                if first {
                    Some("mofa-cast-controller bridge not available".to_owned())
                } else {
                    None
                }
            },
            SendOutcome::Failed(e) => {
                self.queue.on_send_failed();
                if first {
                    let mut v = chars_of("Failed to send first segment: ");
                    push_str(&mut v, e.as_str());
                    Some(string_from_chars(&v))
                } else {
                    None
                }
            },
            SendOutcome::Sent => None,
        }
    }
}

} // verus!
