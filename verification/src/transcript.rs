//! The transcript model shared by the parsers: messages, metadata, speakers.
use vstd::prelude::*;
use crate::text::{
    string_views, char_lines, chars_equal, chars_of, lemma_lex_asymmetric, lemma_lex_irreflexive, lemma_lex_total,
    lemma_lex_transitive, lex_less, lex_lt, string_from_chars,
};

verus! {

/// An instant in UTC: whole seconds since the Unix epoch and the nanoseconds
/// within that second.
#[derive(Clone, Copy, Debug, PartialEq, Eq, Structural)]
pub struct Timestamp {
    pub secs: i64,
    pub nanos: u32,
}

/// Individual message in the conversation.
#[derive(Debug)]
pub struct Message {
    pub speaker: String,
    pub text: String,
    pub timestamp: Option<Timestamp>,
}

/// Supported transcript formats.
#[derive(Clone, Copy, Debug, PartialEq, Eq, Structural)]
pub enum TranscriptFormat {
    PlainText,
    Json,
    Markdown,
    Unknown,
}

/// Metadata about the transcript.
#[derive(Debug)]
pub struct Metadata {
    pub title: Option<String>,
    pub date: Option<Timestamp>,
    pub participants: Vec<String>,
    pub format: TranscriptFormat,
}

/// Complete transcript with metadata.
#[derive(Debug)]
pub struct Transcript {
    pub messages: Vec<Message>,
    pub metadata: Metadata,
}

/// Speaker information for TTS.
#[derive(Debug)]
pub struct Speaker {
    pub name: String,
    pub message_count: usize,
    pub total_characters: usize,
}

// ---------------------------------------------------------------------------
// Spec model
// ---------------------------------------------------------------------------

/// (speaker, text) of each message.
pub open spec fn message_pairs(msgs: Seq<Message>) -> Seq<(Seq<char>, Seq<char>)> {
    msgs.map_values(|m: Message| (m.speaker@, m.text@))
}

/// The speaker of each message.
pub open spec fn speakers_of(msgs: Seq<Message>) -> Seq<Seq<char>> {
    msgs.map_values(|m: Message| m.speaker@)
}

/// No message carries a timestamp.
pub open spec fn untimed(msgs: Seq<Message>) -> bool {
    forall|i: int| 0 <= i < msgs.len() ==> (#[trigger] msgs[i]).timestamp is None
}

/// `r` lists the distinct elements of `xs` in strictly increasing order.
pub open spec fn sorted_distinct_of(r: Seq<Seq<char>>, xs: Seq<Seq<char>>) -> bool {
    &&& forall|i: int, j: int| 0 <= i < j < r.len() ==> lex_lt(#[trigger] r[i], #[trigger] r[j])
    &&& r.to_set() == xs.to_set()
}

/// The number of characters of `s` (what `str::chars().count()` gives).
pub open spec fn char_count(s: Seq<char>) -> nat {
    s.len()
}

/// Number of messages spoken by `name`.
pub open spec fn speaker_message_count(msgs: Seq<Message>, name: Seq<char>) -> nat
    decreases msgs.len(),
{
    if msgs.len() == 0 {
        0
    } else {
        speaker_message_count(msgs.drop_last(), name) + if msgs.last().speaker@ == name {
            1nat
        } else {
            0nat
        }
    }
}

/// Total characters of the texts spoken by `name`.
pub open spec fn speaker_text_chars(msgs: Seq<Message>, name: Seq<char>) -> nat
    decreases msgs.len(),
{
    if msgs.len() == 0 {
        0
    } else {
        speaker_text_chars(msgs.drop_last(), name) + if msgs.last().speaker@ == name {
            char_count(msgs.last().text@)
        } else {
            0nat
        }
    }
}

/// Total characters of all message texts.
pub open spec fn total_text_chars(msgs: Seq<Message>) -> nat
    decreases msgs.len(),
{
    if msgs.len() == 0 {
        0
    } else {
        total_text_chars(msgs.drop_last()) + char_count(msgs.last().text@)
    }
}

/// The participants of a transcript are the distinct speakers of its
/// messages, sorted.
pub open spec fn participants_listed(participants: Seq<String>, msgs: Seq<Message>) -> bool {
    sorted_distinct_of(string_views(participants), speakers_of(msgs))
}

/// A transcript built by a parser: the given (speaker, text) messages without
/// timestamps, the sorted distinct speakers as participants, no title or date.
pub open spec fn built_transcript(
    t: Transcript,
    pairs: Seq<(Seq<char>, Seq<char>)>,
    format: TranscriptFormat,
) -> bool {
    &&& message_pairs(t.messages@) == pairs
    &&& untimed(t.messages@)
    &&& participants_listed(t.metadata.participants@, t.messages@)
    &&& t.metadata.title is None
    &&& t.metadata.date is None
    &&& t.metadata.format == format
}

// ---------------------------------------------------------------------------
// Sorted speaker lists
// ---------------------------------------------------------------------------

/// The character vectors are in strictly increasing order.
pub open spec fn strictly_sorted(keys: Seq<Vec<char>>) -> bool {
    forall|i: int, j: int| 0 <= i < j < keys.len() ==> lex_lt(#[trigger] keys[i]@, #[trigger] keys[j]@)
}

/// Position at which `x` belongs in the strictly sorted `keys`: the first key
/// that is not below `x`.
fn sorted_position(keys: &Vec<Vec<char>>, x: &Vec<char>) -> (p: usize)
    requires
        strictly_sorted(keys@),
    ensures
        p <= keys.len(),
        forall|i: int| 0 <= i < p ==> lex_lt(#[trigger] keys@[i]@, x@),
        p < keys.len() ==> !lex_lt(keys@[p as int]@, x@),
{
    let mut p: usize = 0;
    while p < keys.len() && lex_less(&keys[p], x)
        invariant
            p <= keys.len(),
            forall|i: int| 0 <= i < p ==> lex_lt(#[trigger] keys@[i]@, x@),
        decreases keys.len() - p,
    {
        p = p + 1;
    }
    p
}

/// Inserts `x` into the strictly sorted `keys` unless it is there already.
/// Returns the position of `x` and whether it was inserted.
fn insert_sorted(keys: &mut Vec<Vec<char>>, x: Vec<char>) -> (res: (usize, bool))
    requires
        strictly_sorted(old(keys)@),
    ensures
        strictly_sorted(final(keys)@),
        res.0 < final(keys).len(),
        res.0 <= old(keys).len(),
        res.1 ==> final(keys).len() == old(keys).len() + 1,
        final(keys)@[res.0 as int]@ == x@,
        res.1 ==> final(keys)@ == old(keys)@.insert(res.0 as int, x),
        !res.1 ==> final(keys)@ == old(keys)@,
        char_lines(final(keys)@).to_set() == char_lines(old(keys)@).to_set().insert(x@),
{
    let ghost xv = x@;
    let p = sorted_position(keys, &x);
    let ghost old_keys = keys@;
    if p < keys.len() && chars_equal(&keys[p], &x) {
        proof {
            assert(char_lines(keys@)[p as int] == x@);
            assert(char_lines(keys@).contains(x@));
            assert(char_lines(keys@).to_set() =~= char_lines(keys@).to_set().insert(x@));
        }
        return (p, false);
    }
    proof {
        if p < keys.len() {
            lemma_lex_total(keys@[p as int]@, x@);
        }
    }
    keys.insert(p, x);
    proof {
        assert forall|i: int, j: int| 0 <= i < j < keys.len() implies lex_lt(#[trigger] keys@[i]@, #[trigger] keys@[j]@) by {
            if j == p {
                assert(keys@[i] == old_keys[i]);
            } else if i == p {
                assert(keys@[j] == old_keys[j - 1]);
                if j - 1 > p {
                    lemma_lex_transitive(xv, old_keys[p as int]@, old_keys[j - 1]@);
                }
            } else if i < p && j > p {
                assert(keys@[j] == old_keys[j - 1]);
                assert(keys@[i] == old_keys[i]);
            } else if i > p {
                assert(keys@[j] == old_keys[j - 1]);
                assert(keys@[i] == old_keys[i - 1]);
            } else {
                assert(keys@[j] == old_keys[j]);
                assert(keys@[i] == old_keys[i]);
            }
        }
        assert(char_lines(keys@) =~= char_lines(old_keys).insert(p as int, xv));
        lemma_insert_to_set(char_lines(old_keys), p as int, xv);
    }
    (p, true)
}

/// Inserting an element into a sequence adds it to the sequence's set.
pub proof fn lemma_insert_to_set<A>(s: Seq<A>, p: int, x: A)
    requires
        0 <= p <= s.len(),
    ensures
        s.insert(p, x).to_set() == s.to_set().insert(x),
{
    let n = s.insert(p, x);
    assert forall|y: A| n.to_set().contains(y) <==> s.to_set().insert(x).contains(y) by {
        if n.contains(y) {
            let k = choose|k: int| 0 <= k < n.len() && n[k] == y;
            if k < p {
                assert(s[k] == y);
                assert(s.contains(y));
            } else if k > p {
                assert(s[k - 1] == y);
                assert(s.contains(y));
            }
        }
        if s.contains(y) {
            let k = choose|k: int| 0 <= k < s.len() && s[k] == y;
            if k < p {
                assert(n[k] == y);
            } else {
                assert(n[k + 1] == y);
            }
            assert(n.contains(y));
        }
        if y == x {
            assert(n[p] == y);
            assert(n.contains(y));
        }
    }
    assert(n.to_set() =~= s.to_set().insert(x));
}

/// Converts character vectors to strings.
fn strings_from(keys: &Vec<Vec<char>>) -> (r: Vec<String>)
    ensures
        string_views(r@) == char_lines(keys@),
{
    let mut r: Vec<String> = Vec::new();
    let mut i: usize = 0;
    while i < keys.len()
        invariant
            0 <= i <= keys.len(),
            string_views(r@) == char_lines(keys@).take(i as int),
        decreases keys.len() - i,
    {
        let s = string_from_chars(&keys[i]);
        let ghost before = r@;
        r.push(s);
        proof {
            assert(string_views(r@) =~= string_views(before).push(s@));
            assert(char_lines(keys@).take(i + 1) =~= char_lines(keys@).take(i as int).push(
                keys@[i as int]@,
            ));
        }
        i = i + 1;
    }
    assert(char_lines(keys@).take(i as int) =~= char_lines(keys@));
    r
}

/// The distinct speakers of `messages`, sorted.
pub fn sorted_speakers(messages: &Vec<Message>) -> (r: Vec<String>)
    ensures
        participants_listed(r@, messages@),
{
    let mut keys: Vec<Vec<char>> = Vec::new();
    let mut i: usize = 0;
    while i < messages.len()
        invariant
            0 <= i <= messages.len(),
            strictly_sorted(keys@),
            char_lines(keys@).to_set() == speakers_of(messages@).take(i as int).to_set(),
        decreases messages.len() - i,
    {
        let name = chars_of(messages[i].speaker.as_str());
        let ghost before = char_lines(keys@);
        let ghost name_v = name@;
        insert_sorted(&mut keys, name);
        proof {
            let s = speakers_of(messages@);
            let t1 = s.take(i + 1);
            let t0 = s.take(i as int);
            assert(t1 =~= t0.push(messages@[i as int].speaker@));
            t0.lemma_push_to_set_commute(name_v);
        }
        i = i + 1;
    }
    assert(speakers_of(messages@).take(i as int) =~= speakers_of(messages@));
    let r = strings_from(&keys);
    r
}

// ---------------------------------------------------------------------------
// Transcript statistics
// ---------------------------------------------------------------------------

/// The messages spoken by `name`, in order.
pub open spec fn messages_by(msgs: Seq<Message>, name: Seq<char>) -> Seq<Message>
    decreases msgs.len(),
{
    if msgs.len() == 0 {
        Seq::empty()
    } else if msgs.last().speaker@ == name {
        messages_by(msgs.drop_last(), name).push(msgs.last())
    } else {
        messages_by(msgs.drop_last(), name)
    }
}

proof fn lemma_absent_speaker(msgs: Seq<Message>, name: Seq<char>)
    requires
        !speakers_of(msgs).contains(name),
    ensures
        speaker_message_count(msgs, name) == 0,
        speaker_text_chars(msgs, name) == 0,
    decreases msgs.len(),
{
    if msgs.len() > 0 {
        let d = msgs.drop_last();
        assert(speakers_of(msgs)[msgs.len() - 1] == msgs.last().speaker@);
        assert forall|k: int| 0 <= k < d.len() implies speakers_of(d)[k] != name by {
            assert(speakers_of(msgs)[k] == speakers_of(d)[k]);
        }
        lemma_absent_speaker(d, name);
    }
}

proof fn lemma_speaker_bounds(msgs: Seq<Message>, name: Seq<char>)
    ensures
        speaker_message_count(msgs, name) <= msgs.len(),
        speaker_text_chars(msgs, name) <= total_text_chars(msgs),
    decreases msgs.len(),
{
    if msgs.len() > 0 {
        lemma_speaker_bounds(msgs.drop_last(), name);
    }
}

proof fn lemma_total_prefix(msgs: Seq<Message>, i: int)
    requires
        0 <= i <= msgs.len(),
    ensures
        total_text_chars(msgs.take(i)) <= total_text_chars(msgs),
    decreases msgs.len() - i,
{
    if i < msgs.len() {
        lemma_total_prefix(msgs, i + 1);
        assert(msgs.take(i + 1).drop_last() =~= msgs.take(i));
    } else {
        assert(msgs.take(i) =~= msgs);
    }
}

impl Transcript {
    /// All distinct speakers, sorted by name, with the number of messages and
    /// the total characters of text of each.
    pub fn get_speakers(&self) -> (r: Vec<Speaker>)
        requires
            total_text_chars(self.messages@) <= usize::MAX,
        ensures
            sorted_distinct_of(r@.map_values(|s: Speaker| s.name@), speakers_of(self.messages@)),
            forall|k: int|
                0 <= k < r.len() ==> (#[trigger] r@[k]).message_count == speaker_message_count(
                    self.messages@,
                    r@[k].name@,
                ) && r@[k].total_characters == speaker_text_chars(self.messages@, r@[k].name@),
    {
        let msgs = &self.messages;
        let ghost m = msgs@;
        let mut keys: Vec<Vec<char>> = Vec::new();
        let mut counts: Vec<usize> = Vec::new();
        let mut chars: Vec<usize> = Vec::new();
        let mut i: usize = 0;
        while i < msgs.len()
            invariant
                0 <= i <= msgs.len(),
                m == msgs@,
                total_text_chars(m) <= usize::MAX,
                strictly_sorted(keys@),
                char_lines(keys@).to_set() == speakers_of(m.take(i as int)).to_set(),
                counts.len() == keys.len(),
                chars.len() == keys.len(),
                forall|k: int|
                    #![trigger keys@[k]]
                    0 <= k < keys.len() ==> counts@[k] == speaker_message_count(m.take(i as int), keys@[k]@)
                        && chars@[k] == speaker_text_chars(m.take(i as int), keys@[k]@),
            decreases msgs.len() - i,
        {
            let name = chars_of(msgs[i].speaker.as_str());
            let len = chars_of(msgs[i].text.as_str()).len();
            let ghost name_v = name@;
            let ghost t0 = m.take(i as int);
            let ghost t1 = m.take(i + 1);
            proof {
                assert(t1.drop_last() =~= t0);
                assert(t1.last() == m[i as int]);
                assert(speakers_of(t1) =~= speakers_of(t0).push(name_v));
                speakers_of(t0).lemma_push_to_set_commute(name_v);
                lemma_speaker_bounds(t1, name_v);
                lemma_speaker_bounds(t0, name_v);
                lemma_total_prefix(m, i + 1);
            }
            let ghost old_keys = keys@;
            let ghost old_counts = counts@;
            let ghost old_chars = chars@;
            let (p, inserted) = insert_sorted(&mut keys, name);
            if inserted {
                proof {
                    if speakers_of(t0).contains(name_v) {
                        assert(speakers_of(t0).to_set().contains(name_v));
                        assert(char_lines(old_keys).contains(name_v));
                        let k = choose|k: int|
                            0 <= k < old_keys.len() && char_lines(old_keys)[k] == name_v;
                        lemma_lex_irreflexive(name_v);
                        if k < p {
                            assert(keys@[k] == old_keys[k]);
                        } else {
                            assert(keys@[k + 1] == old_keys[k]);
                        }
                    }
                    lemma_absent_speaker(t0, name_v);
                }
                counts.insert(p, 1);
                chars.insert(p, len);
                proof {
                    assert forall|k: int|
                        #![trigger keys@[k]]
                        0 <= k < keys.len() implies counts@[k] == speaker_message_count(t1, keys@[k]@)
                            && chars@[k] == speaker_text_chars(t1, keys@[k]@) by {
                        if k < p {
                            assert(keys@[k] == old_keys[k]);
                            assert(counts@[k] == old_counts[k]);
                            lemma_lex_asymmetric(keys@[k]@, name_v);
                        } else if k > p {
                            assert(keys@[k] == old_keys[k - 1]);
                            assert(counts@[k] == old_counts[k - 1]);
                            lemma_lex_asymmetric(name_v, keys@[k]@);
                        }
                    }
                }
            } else {
                let c = counts[p];
                let b = chars[p];
                proof {
                    assert(keys@[p as int]@ == name_v);
                }
                counts.set(p, c + 1);
                chars.set(p, b + len);
                proof {
                    assert forall|k: int|
                        #![trigger keys@[k]]
                        0 <= k < keys.len() implies counts@[k] == speaker_message_count(t1, keys@[k]@)
                            && chars@[k] == speaker_text_chars(t1, keys@[k]@) by {
                        assert(old_counts[k] == speaker_message_count(t0, old_keys[k]@));
                        assert(old_chars[k] == speaker_text_chars(t0, old_keys[k]@));
                        assert(keys@[k] == old_keys[k]);
                        if k != p {
                            if k < p {
                                lemma_lex_asymmetric(keys@[k]@, keys@[p as int]@);
                            } else {
                                lemma_lex_asymmetric(keys@[p as int]@, keys@[k]@);
                            }
                            assert(counts@[k] == old_counts[k]);
                            assert(chars@[k] == old_chars[k]);
                        }
                    }
                }
            }
            i = i + 1;
            assert(m.take(i as int) == t1);
        }
        proof {
            assert(m.take(i as int) =~= m);
        }
        let mut r: Vec<Speaker> = Vec::new();
        let mut j: usize = 0;
        while j < keys.len()
            invariant
                0 <= j <= keys.len(),
                counts.len() == keys.len(),
                chars.len() == keys.len(),
                r.len() == j,
                forall|k: int|
                    0 <= k < j ==> (#[trigger] r@[k]).name@ == keys@[k]@ && r@[k].message_count
                        == counts@[k] && r@[k].total_characters == chars@[k],
            decreases keys.len() - j,
        {
            let name = string_from_chars(&keys[j]);
            r.push(Speaker { name, message_count: counts[j], total_characters: chars[j] });
            j = j + 1;
        }
        proof {
            let names = r@.map_values(|s: Speaker| s.name@);
            assert(names =~= char_lines(keys@));
        }
        r
    }

    /// Total characters of all message texts.
    pub fn total_characters(&self) -> (r: usize)
        requires
            total_text_chars(self.messages@) <= usize::MAX,
        ensures
            r == total_text_chars(self.messages@),
    {
        let msgs = &self.messages;
        let mut total: usize = 0;
        let mut i: usize = 0;
        while i < msgs.len()
            invariant
                0 <= i <= msgs.len(),
                total_text_chars(msgs@) <= usize::MAX,
                total == total_text_chars(msgs@.take(i as int)),
            decreases msgs.len() - i,
        {
            proof {
                assert(msgs@.take(i + 1).drop_last() =~= msgs@.take(i as int));
                lemma_total_prefix(msgs@, i + 1);
            }
            total = total + chars_of(msgs[i].text.as_str()).len();
            i = i + 1;
        }
        assert(msgs@.take(i as int) =~= msgs@);
        total
    }

    /// Number of messages.
    pub fn message_count(&self) -> (r: usize)
        ensures
            r == self.messages.len(),
    {
        self.messages.len()
    }

    /// The messages spoken by `speaker`, in order.
    pub fn filter_by_speaker(&self, speaker: &str) -> (r: Vec<&Message>)
        ensures
            r@.map_values(|m: &Message| *m) == messages_by(self.messages@, speaker@),
    {
        let msgs = &self.messages;
        let target = chars_of(speaker);
        let mut r: Vec<&Message> = Vec::new();
        let mut i: usize = 0;
        while i < msgs.len()
            invariant
                0 <= i <= msgs.len(),
                target@ == speaker@,
                r@.map_values(|m: &Message| *m) == messages_by(msgs@.take(i as int), speaker@),
            decreases msgs.len() - i,
        {
            let name = chars_of(msgs[i].speaker.as_str());
            assert(msgs@.take(i + 1).drop_last() =~= msgs@.take(i as int));
            let ghost before = r@;
            if chars_equal(&name, &target) {
                r.push(&msgs[i]);
                assert(r@.map_values(|m: &Message| *m) =~= before.map_values(|m: &Message| *m).push(msgs@[i as int]));
            }
            i = i + 1;
        }
        assert(msgs@.take(i as int) =~= msgs@);
        r
    }
}

// ---------------------------------------------------------------------------
// Speaker totals
// ---------------------------------------------------------------------------

/// The message counts of the named speakers, added up.
pub open spec fn count_sum(msgs: Seq<Message>, names: Seq<Seq<char>>) -> nat
    decreases names.len(),
{
    if names.len() == 0 {
        0
    } else {
        count_sum(msgs, names.drop_last()) + speaker_message_count(msgs, names.last())
    }
}

/// The text characters of the named speakers, added up.
pub open spec fn chars_sum(msgs: Seq<Message>, names: Seq<Seq<char>>) -> nat
    decreases names.len(),
{
    if names.len() == 0 {
        0
    } else {
        chars_sum(msgs, names.drop_last()) + speaker_text_chars(msgs, names.last())
    }
}

/// How often `x` occurs in `names`.
pub open spec fn occurrences(names: Seq<Seq<char>>, x: Seq<char>) -> nat
    decreases names.len(),
{
    if names.len() == 0 {
        0
    } else {
        occurrences(names.drop_last(), x) + if names.last() == x {
            1nat
        } else {
            0nat
        }
    }
}

proof fn lemma_occurrences_once(names: Seq<Seq<char>>, x: Seq<char>)
    requires
        names.no_duplicates(),
    ensures
        occurrences(names, x) == if names.contains(x) {
            1nat
        } else {
            0nat
        },
    decreases names.len(),
{
    broadcast use vstd::seq_lib::lemma_seq_contains_after_push;

    if names.len() > 0 {
        let d = names.drop_last();
        assert(names =~= d.push(names.last()));
        assert(d.no_duplicates()) by {
            assert forall|i: int, j: int| 0 <= i < d.len() && 0 <= j < d.len() && i != j implies d[i]
                != d[j] by {
                assert(d[i] == names[i] && d[j] == names[j]);
            }
        }
        if d.contains(names.last()) {
            let i = choose|i: int| 0 <= i < d.len() && d[i] == names.last();
            assert(names[i] == names[names.len() - 1]);
        }
        lemma_occurrences_once(d, x);
    }
}

proof fn lemma_sums_step(msgs: Seq<Message>, names: Seq<Seq<char>>)
    requires
        msgs.len() > 0,
    ensures
        count_sum(msgs, names) == count_sum(msgs.drop_last(), names) + occurrences(
            names,
            msgs.last().speaker@,
        ),
        chars_sum(msgs, names) == chars_sum(msgs.drop_last(), names) + occurrences(
            names,
            msgs.last().speaker@,
        ) * char_count(msgs.last().text@),
    decreases names.len(),
{
    let x = msgs.last().speaker@;
    let b = char_count(msgs.last().text@);
    if names.len() > 0 {
        let nd = names.drop_last();
        lemma_sums_step(msgs, nd);
        let o = occurrences(nd, x);
        assert(chars_sum(msgs, nd) == chars_sum(msgs.drop_last(), nd) + o * b);
        if names.last() == x {
            assert(occurrences(names, x) == o + 1);
            assert(speaker_text_chars(msgs, names.last()) == speaker_text_chars(
                msgs.drop_last(),
                names.last(),
            ) + b);
            assert((o + 1) * b == o * b + b) by (nonlinear_arith);
        } else {
            assert(occurrences(names, x) == o);
            assert(speaker_text_chars(msgs, names.last()) == speaker_text_chars(
                msgs.drop_last(),
                names.last(),
            ));
        }
    } else {
        assert(occurrences(names, x) == 0);
        assert(0 * b == 0) by (nonlinear_arith);
    }
}

proof fn lemma_totals_over(msgs: Seq<Message>, names: Seq<Seq<char>>)
    requires
        names.no_duplicates(),
        forall|i: int| 0 <= i < msgs.len() ==> names.contains(#[trigger] msgs[i].speaker@),
    ensures
        count_sum(msgs, names) == msgs.len(),
        chars_sum(msgs, names) == total_text_chars(msgs),
    decreases msgs.len(),
{
    if msgs.len() == 0 {
        lemma_empty_sums(msgs, names);
    } else {
        let d = msgs.drop_last();
        assert forall|i: int| 0 <= i < d.len() implies names.contains(#[trigger] d[i].speaker@) by {
            assert(d[i] == msgs[i]);
        }
        lemma_totals_over(d, names);
        lemma_sums_step(msgs, names);
        assert(names.contains(msgs[msgs.len() - 1].speaker@));
        lemma_occurrences_once(names, msgs.last().speaker@);
        let b = char_count(msgs.last().text@);
        assert(1 * b == b);
    }
}

proof fn lemma_empty_sums(msgs: Seq<Message>, names: Seq<Seq<char>>)
    requires
        msgs.len() == 0,
    ensures
        count_sum(msgs, names) == 0,
        chars_sum(msgs, names) == 0,
    decreases names.len(),
{
    if names.len() > 0 {
        lemma_empty_sums(msgs, names.drop_last());
    }
}

proof fn lemma_count_is_filtered(msgs: Seq<Message>, name: Seq<char>)
    ensures
        speaker_message_count(msgs, name) == messages_by(msgs, name).len(),
        speakers_of(msgs).contains(name) ==> speaker_message_count(msgs, name) >= 1,
    decreases msgs.len(),
{
    if msgs.len() > 0 {
        let d = msgs.drop_last();
        lemma_count_is_filtered(d, name);
        if speakers_of(msgs).contains(name) && msgs.last().speaker@ != name {
            let k = choose|k: int| 0 <= k < msgs.len() && speakers_of(msgs)[k] == name;
            assert(k != msgs.len() - 1);
            assert(speakers_of(d)[k] == name);
        }
    }
}

/// The speakers that `get_speakers` lists account for every message: each
/// has as many messages as `filter_by_speaker` gives for it, at least one;
/// their message counts add up to the number of messages, and their
/// character counts to the transcript's total characters.
pub proof fn lemma_speaker_totals(msgs: Seq<Message>, names: Seq<Seq<char>>)
    requires
        sorted_distinct_of(names, speakers_of(msgs)),
    ensures
        forall|k: int|
            0 <= k < names.len() ==> speaker_message_count(msgs, #[trigger] names[k])
                == messages_by(msgs, names[k]).len() && speaker_message_count(msgs, names[k]) >= 1,
        count_sum(msgs, names) == msgs.len(),
        chars_sum(msgs, names) == total_text_chars(msgs),
{
    assert forall|k: int| 0 <= k < names.len() implies speaker_message_count(
        msgs,
        #[trigger] names[k],
    ) == messages_by(msgs, names[k]).len() && speaker_message_count(msgs, names[k]) >= 1 by {
        assert(names.to_set().contains(names[k]));
        assert(speakers_of(msgs).to_set().contains(names[k]));
        lemma_count_is_filtered(msgs, names[k]);
    }
    assert(names.no_duplicates()) by {
        assert forall|i: int, j: int| 0 <= i < names.len() && 0 <= j < names.len() && i != j implies names[i]
            != names[j] by {
            lemma_lex_irreflexive(names[i]);
            if i < j {
                assert(lex_lt(names[i], names[j]));
            } else {
                assert(lex_lt(names[j], names[i]));
            }
        }
    }
    assert forall|i: int| 0 <= i < msgs.len() implies names.contains(#[trigger] msgs[i].speaker@) by {
        let sp = speakers_of(msgs);
        assert(sp[i] == msgs[i].speaker@);
        assert(sp.to_set().contains(msgs[i].speaker@));
        assert(names.to_set().contains(msgs[i].speaker@));
    }
    lemma_totals_over(msgs, names);
}

} // verus!
