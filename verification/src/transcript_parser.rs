//! Transcript parsers: plain text (`speaker: message`), JSON chat records and
//! Markdown discussions (`### @speaker` headers).
use vstd::prelude::*;
use crate::text::{
    all_ws, char_lines, chars_of, first_non_ws, is_whitespace, is_ws, join, last_non_ws_end,
    lemma_first_non_ws_bounds, lines, lines_of, push_str, string_from_chars, trim, trim_chars,
};
use crate::transcript::{
    built_transcript, participants_listed, sorted_speakers, Message, Metadata, Timestamp,
    Transcript, TranscriptFormat,
};

verus! {

// ---------------------------------------------------------------------------
// Character classes and runs
// ---------------------------------------------------------------------------

pub open spec fn is_ascii_alnum(c: char) -> bool {
    ('A' <= c && c <= 'Z') || ('a' <= c && c <= 'z') || ('0' <= c && c <= '9')
}

/// End (exclusive) of the longest run of `class` characters starting at `i`.
pub open spec fn run_end(s: Seq<char>, i: int, class: spec_fn(char) -> bool) -> int
    decreases s.len() - i,
{
    if i >= s.len() {
        s.len() as int
    } else if class(s[i]) {
        run_end(s, i + 1, class)
    } else {
        i
    }
}

pub proof fn lemma_run_end_bounds(s: Seq<char>, i: int, class: spec_fn(char) -> bool)
    requires
        0 <= i <= s.len(),
    ensures
        i <= run_end(s, i, class) <= s.len(),
        forall|k: int| i <= k < run_end(s, i, class) ==> class(#[trigger] s[k]),
        run_end(s, i, class) < s.len() ==> !class(s[run_end(s, i, class)]),
    decreases s.len() - i,
{
    if i < s.len() && class(s[i]) {
        lemma_run_end_bounds(s, i + 1, class);
    }
}

/// Speaker characters of a plain-text line: ASCII letters and digits, `_`,
/// `.` and whitespace.
pub open spec fn plain_speaker_class() -> spec_fn(char) -> bool {
    |c: char| is_ascii_alnum(c) || c == '_' || c == '.' || is_ws(c)
}

fn is_ascii_alnum_char(c: char) -> (r: bool)
    ensures
        r == is_ascii_alnum(c),
{
    ('A' <= c && c <= 'Z') || ('a' <= c && c <= 'z') || ('0' <= c && c <= '9')
}

fn is_plain_speaker_char(c: char) -> (r: bool)
    ensures
        r == (plain_speaker_class())(c),
{
    is_ascii_alnum_char(c) || c == '_' || c == '.' || is_whitespace(c)
}

fn plain_speaker_run(s: &Vec<char>, i: usize) -> (r: usize)
    requires
        i <= s.len(),
    ensures
        r == run_end(s@, i as int, plain_speaker_class()),
{
    let mut k = i;
    while k < s.len() && is_plain_speaker_char(s[k])
        invariant
            i <= k <= s.len(),
            run_end(s@, i as int, plain_speaker_class()) == run_end(
                s@,
                k as int,
                plain_speaker_class(),
            ),
        decreases s.len() - k,
    {
        k = k + 1;
    }
    k
}

// ---------------------------------------------------------------------------
// Errors
// ---------------------------------------------------------------------------

/// Errors that can occur during parsing.
#[derive(Debug)]
pub enum ParseError {
    InvalidFormat(String),
    NoMessagesFound,
    InvalidJson(String),
    InvalidTimestamp(String),
    Other(String),
}

// ---------------------------------------------------------------------------
// Plain text
// ---------------------------------------------------------------------------

/// A line of the form `speaker: message`: a non-empty run of speaker
/// characters from the start, a `:`, and at least one character after it.
/// Gives the raw speaker and everything after the colon.
pub open spec fn plain_line_parts(line: Seq<char>) -> Option<(Seq<char>, Seq<char>)> {
    let k = run_end(line, 0, plain_speaker_class());
    if 1 <= k && k < line.len() && k + 1 < line.len() && line[k] == ':' {
        Some((line.take(k), line.skip(k + 1)))
    } else {
        None
    }
}

/// The message a plain-text line yields: the trimmed line split at its colon,
/// both parts trimmed, kept when the text is not empty.
pub open spec fn plain_message(raw: Seq<char>) -> Option<(Seq<char>, Seq<char>)> {
    match plain_line_parts(trim(raw)) {
        Some((speaker, rest)) => if trim(rest).len() > 0 {
            Some((trim(speaker), trim(rest)))
        } else {
            None
        },
        None => None,
    }
}

/// The messages of the given lines, in order.
pub open spec fn plain_messages(ls: Seq<Seq<char>>) -> Seq<(Seq<char>, Seq<char>)>
    decreases ls.len(),
{
    if ls.len() == 0 {
        Seq::empty()
    } else {
        let prev = plain_messages(ls.drop_last());
        match plain_message(ls.last()) {
            Some(m) => prev.push(m),
            None => prev,
        }
    }
}

/// (non-blank lines, non-blank lines of the `speaker: message` form).
pub open spec fn plain_line_scores(ls: Seq<Seq<char>>) -> (nat, nat)
    decreases ls.len(),
{
    if ls.len() == 0 {
        (0, 0)
    } else {
        let (n, m) = plain_line_scores(ls.drop_last());
        let l = ls.last();
        if trim(l).len() == 0 {
            (n, m)
        } else if plain_line_parts(l) is Some {
            (n + 1, m + 1)
        } else {
            (n + 1, m)
        }
    }
}

/// Plain text is recognised when at least 30% of the non-blank lines have
/// the `speaker: message` form.
pub open spec fn plain_can_parse(content: Seq<char>) -> bool {
    let (n, m) = plain_line_scores(lines(content));
    n > 0 && 10 * m >= 3 * n
}

fn plain_parts(line: &Vec<char>) -> (r: Option<(Vec<char>, Vec<char>)>)
    ensures
        match r {
            Some((a, b)) => plain_line_parts(line@) == Some((a@, b@)),
            None => plain_line_parts(line@) is None,
        },
{
    let k = plain_speaker_run(line, 0);
    if 1 <= k && k < line.len() && k + 1 < line.len() && line[k] == ':' {
        let a = crate::text::slice_chars(line, 0, k);
        let b = crate::text::slice_chars(line, k + 1, line.len());
        assert(a@ =~= line@.take(k as int));
        assert(b@ =~= line@.skip(k + 1));
        Some((a, b))
    } else {
        None
    }
}

fn plain_message_of(raw: &Vec<char>) -> (r: Option<(Vec<char>, Vec<char>)>)
    ensures
        match r {
            Some((a, b)) => plain_message(raw@) == Some((a@, b@)),
            None => plain_message(raw@) is None,
        },
{
    let line = trim_chars(raw);
    match plain_parts(&line) {
        Some((speaker, rest)) => {
            let text = trim_chars(&rest);
            if text.len() > 0 {
                Some((trim_chars(&speaker), text))
            } else {
                None
            }
        },
        None => None,
    }
}

/// Builds the messages of a parser from (speaker, text) character vectors.
fn messages_from(pairs: &Vec<(Vec<char>, Vec<char>)>) -> (r: Vec<Message>)
    ensures
        crate::transcript::message_pairs(r@) == pair_views(pairs@),
        crate::transcript::untimed(r@),
{
    let mut r: Vec<Message> = Vec::new();
    let mut i: usize = 0;
    while i < pairs.len()
        invariant
            0 <= i <= pairs.len(),
            crate::transcript::message_pairs(r@) == pair_views(pairs@).take(i as int),
            crate::transcript::untimed(r@),
        decreases pairs.len() - i,
    {
        let speaker = string_from_chars(&pairs[i].0);
        let text = string_from_chars(&pairs[i].1);
        let ghost before = r@;
        r.push(Message { speaker, text, timestamp: None });
        proof {
            assert(crate::transcript::message_pairs(r@) =~= crate::transcript::message_pairs(
                before,
            ).push((pairs@[i as int].0@, pairs@[i as int].1@)));
            assert(pair_views(pairs@).take(i + 1) =~= pair_views(pairs@).take(i as int).push(
                (pairs@[i as int].0@, pairs@[i as int].1@),
            ));
        }
        i = i + 1;
    }
    assert(pair_views(pairs@).take(i as int) =~= pair_views(pairs@));
    r
}

/// The character sequences of (speaker, text) vector pairs.
pub open spec fn pair_views(p: Seq<(Vec<char>, Vec<char>)>) -> Seq<(Seq<char>, Seq<char>)> {
    p.map_values(|x: (Vec<char>, Vec<char>)| (x.0@, x.1@))
}

/// Builds the transcript a parser gives for its messages.
fn transcript_from(pairs: &Vec<(Vec<char>, Vec<char>)>, format: TranscriptFormat) -> (r:
    Transcript)
    ensures
        built_transcript(r, pair_views(pairs@), format),
{
    let messages = messages_from(pairs);
    let participants = sorted_speakers(&messages);
    Transcript {
        messages,
        metadata: Metadata { title: None, date: None, participants, format },
    }
}

/// What parsing `content` as plain text gives: its messages, or
/// `NoMessagesFound` when there are none.
pub open spec fn plain_parse_result(content: Seq<char>, r: Result<Transcript, ParseError>) -> bool {
    match r {
        Ok(t) => plain_messages(lines(content)).len() > 0 && built_transcript(
            t,
            plain_messages(lines(content)),
            TranscriptFormat::PlainText,
        ),
        Err(e) => plain_messages(lines(content)).len() == 0 && e is NoMessagesFound,
    }
}

/// A reader of one transcript format: whether it takes a text, and which
/// format it reads. Parsing itself is a method of each parser: the JSON
/// parser takes the text already read as chat records.
pub trait TranscriptParser {
    /// Whether this parser handles `content`.
    fn can_parse(&self, content: &str) -> bool;

    /// The format this parser reads.
    fn format(&self) -> TranscriptFormat;
}

/// Parser for plain text format (speaker: message).
///
/// Example:
/// ```text
/// Alice: Hello, how are you?
/// Bob: I'm doing great!
/// Alice: That's wonderful to hear.
/// ```
pub struct PlainTextParser;

impl PlainTextParser {
    pub fn new() -> (r: Self) {
        PlainTextParser
    }

    /// Parses each line of the form `speaker: message`; other lines are
    /// skipped. Fails with `NoMessagesFound` when no line yields a message.
    pub fn parse(&self, content: &str) -> (r: Result<Transcript, ParseError>)
        ensures
            plain_parse_result(content@, r),
    {
        let chars = chars_of(content);
        let ls = lines_of(&chars);
        let mut pairs: Vec<(Vec<char>, Vec<char>)> = Vec::new();
        let mut i: usize = 0;
        while i < ls.len()
            invariant
                0 <= i <= ls.len(),
                char_lines(ls@) == lines(content@),
                pair_views(pairs@) == plain_messages(char_lines(ls@).take(i as int)),
            decreases ls.len() - i,
        {
            let ghost before = pairs@;
            proof {
                assert(char_lines(ls@).take(i + 1).drop_last() =~= char_lines(ls@).take(i as int));
            }
            match plain_message_of(&ls[i]) {
                Some(m) => {
                    let ghost mv = (m.0@, m.1@);
                    pairs.push(m);
                    proof {
                        assert(pair_views(pairs@) =~= pair_views(before).push(mv));
                    }
                },
                None => {},
            }
            i = i + 1;
        }
        assert(char_lines(ls@).take(i as int) =~= char_lines(ls@));
        if pairs.len() == 0 {
            return Err(ParseError::NoMessagesFound);
        }
        Ok(transcript_from(&pairs, TranscriptFormat::PlainText))
    }
}

impl TranscriptParser for PlainTextParser {
    /// Whether at least 30% of the non-blank lines have the
    /// `speaker: message` form.
    fn can_parse(&self, content: &str) -> (r: bool)
        ensures
            r == plain_can_parse(content@),
    {
        let chars = chars_of(content);
        let ls = lines_of(&chars);
        let mut n: usize = 0;
        let mut m: usize = 0;
        let mut i: usize = 0;
        while i < ls.len()
            invariant
                0 <= i <= ls.len(),
                char_lines(ls@) == lines(content@),
                (n as nat, m as nat) == plain_line_scores(char_lines(ls@).take(i as int)),
                m <= n <= i,
            decreases ls.len() - i,
        {
            proof {
                assert(char_lines(ls@).take(i + 1).drop_last() =~= char_lines(ls@).take(i as int));
            }
            let t = trim_chars(&ls[i]);
            if t.len() > 0 {
                n = n + 1;
                if plain_parts(&ls[i]).is_some() {
                    m = m + 1;
                }
            }
            i = i + 1;
        }
        assert(char_lines(ls@).take(i as int) =~= char_lines(ls@));
        n > 0 && (m as u128) * 10 >= (n as u128) * 3
    }

    fn format(&self) -> (r: TranscriptFormat)
        ensures
            r == TranscriptFormat::PlainText,
    {
        TranscriptFormat::PlainText
    }
}

// ---------------------------------------------------------------------------
// Markdown
// ---------------------------------------------------------------------------

pub open spec fn hash_class() -> spec_fn(char) -> bool {
    |c: char| c == '#'
}

/// Name characters of a Markdown speaker header: ASCII letters and digits,
/// `_` and `-`.
pub open spec fn name_class() -> spec_fn(char) -> bool {
    |c: char| is_ascii_alnum(c) || c == '_' || c == '-'
}

fn hash_run(s: &Vec<char>, i: usize) -> (r: usize)
    requires
        i <= s.len(),
    ensures
        r == run_end(s@, i as int, hash_class()),
{
    let mut k = i;
    while k < s.len() && s[k] == '#'
        invariant
            i <= k <= s.len(),
            run_end(s@, i as int, hash_class()) == run_end(s@, k as int, hash_class()),
        decreases s.len() - k,
    {
        k = k + 1;
    }
    k
}

fn is_name_char(c: char) -> (r: bool)
    ensures
        r == (name_class())(c),
{
    is_ascii_alnum_char(c) || c == '_' || c == '-'
}

fn name_run(s: &Vec<char>, i: usize) -> (r: usize)
    requires
        i <= s.len(),
    ensures
        r == run_end(s@, i as int, name_class()),
{
    let mut k = i;
    while k < s.len() && is_name_char(s[k])
        invariant
            i <= k <= s.len(),
            run_end(s@, i as int, name_class()) == run_end(s@, k as int, name_class()),
        decreases s.len() - k,
    {
        k = k + 1;
    }
    k
}

fn skip_ws(s: &Vec<char>, i: usize) -> (r: usize)
    requires
        i <= s.len(),
    ensures
        r == first_non_ws(s@, i as int),
{
    let mut k = i;
    while k < s.len() && is_whitespace(s[k])
        invariant
            i <= k <= s.len(),
            first_non_ws(s@, i as int) == first_non_ws(s@, k as int),
        decreases s.len() - k,
    {
        k = k + 1;
    }
    k
}

/// Where the name of a header starting at `i` begins: after the `#` run, the
/// whitespace that follows it and an optional `@`.
pub open spec fn header_name_start(t: Seq<char>, i: int) -> int {
    let h = run_end(t, i, hash_class());
    let w = first_non_ws(t, h);
    if w < t.len() && t[w] == '@' {
        w + 1
    } else {
        w
    }
}

/// The speaker a Markdown line names: `#`s, optional whitespace, an optional
/// `@`, a non-empty name, and nothing but whitespace after it.
pub open spec fn header_name(line: Seq<char>) -> Option<Seq<char>> {
    if line.len() == 0 || line[0] != '#' {
        None
    } else {
        let a = header_name_start(line, 0);
        let n = run_end(line, a, name_class());
        if n > a && all_ws(line.skip(n)) {
            Some(line.subrange(a, n))
        } else {
            None
        }
    }
}

/// Markdown reading state: messages so far, current speaker, its text.
pub type MdState = (Seq<(Seq<char>, Seq<char>)>, Option<Seq<char>>, Seq<char>);

/// The messages once the current speaker's text is closed.
pub open spec fn md_flush(st: MdState) -> Seq<(Seq<char>, Seq<char>)> {
    match st.1 {
        Some(sp) => if trim(st.2).len() > 0 {
            st.0.push((sp, trim(st.2)))
        } else {
            st.0
        },
        None => st.0,
    }
}

/// One line of Markdown: a header closes the previous message and starts a
/// new speaker; any other non-empty line that does not start with `#` is
/// added, space-separated, to the current speaker's text.
pub open spec fn md_step(st: MdState, raw: Seq<char>) -> MdState {
    let l = trim(raw);
    match header_name(l) {
        Some(name) => (md_flush(st), Some(name), Seq::empty()),
        None => if st.1 is Some && l.len() > 0 && l[0] != '#' {
            (st.0, st.1, if st.2.len() > 0 {
                st.2.push(' ') + l
            } else {
                l
            })
        } else {
            st
        },
    }
}

pub open spec fn md_fold(ls: Seq<Seq<char>>) -> MdState
    decreases ls.len(),
{
    if ls.len() == 0 {
        (Seq::empty(), None, Seq::empty())
    } else {
        md_step(md_fold(ls.drop_last()), ls.last())
    }
}

/// The messages of a Markdown discussion.
pub open spec fn markdown_messages(content: Seq<char>) -> Seq<(Seq<char>, Seq<char>)> {
    md_flush(md_fold(lines(content)))
}

proof fn lemma_last_non_ws_end(s: Seq<char>, j: int)
    requires
        0 <= j <= s.len(),
    ensures
        0 <= last_non_ws_end(s, j) <= j,
        last_non_ws_end(s, j) > 0 ==> !is_ws(s[last_non_ws_end(s, j) - 1]),
    decreases j,
{
    if j > 0 && is_ws(s[j - 1]) {
        lemma_last_non_ws_end(s, j - 1);
    }
}

/// A trimmed text that is not empty starts and ends with a non-whitespace
/// character, and trimming it again changes nothing.
proof fn lemma_trimmed_ends(x: Seq<char>)
    requires
        trim(x).len() > 0,
    ensures
        !is_ws(trim(x)[0]),
        !is_ws(trim(x).last()),
{
    lemma_first_non_ws_bounds(x, 0);
    lemma_last_non_ws_end(x, x.len() as int);
}

proof fn lemma_unpadded_trim(s: Seq<char>)
    requires
        s.len() > 0,
        !is_ws(s[0]),
        !is_ws(s.last()),
    ensures
        trim(s) == s,
{
    assert(first_non_ws(s, 0) == 0);
    assert(last_non_ws_end(s, s.len() as int) == s.len());
    assert(s.subrange(0, s.len() as int) =~= s);
}

proof fn lemma_join_ends(parts: Seq<Seq<char>>, sep: Seq<char>)
    requires
        parts.len() > 0,
        forall|i: int| 0 <= i < parts.len() ==> (#[trigger] parts[i]).len() > 0,
    ensures
        join(parts, sep).len() > 0,
        join(parts, sep)[0] == parts[0][0],
        join(parts, sep).last() == parts.last().last(),
    decreases parts.len(),
{
    if parts.len() > 1 {
        let d = parts.drop_last();
        assert forall|i: int| 0 <= i < d.len() implies (#[trigger] d[i]).len() > 0 by {
            assert(d[i] == parts[i]);
        }
        lemma_join_ends(d, sep);
        assert(d[0] == parts[0]);
    }
}

proof fn lemma_md_body(header: Seq<char>, body: Seq<Seq<char>>, name: Seq<char>, k: int)
    requires
        header_name(trim(header)) == Some(name),
        0 <= k <= body.len(),
        forall|i: int|
            0 <= i < body.len() ==> trim(#[trigger] body[i]).len() > 0 && trim(body[i])[0] != '#',
    ensures
        md_fold((seq![header] + body).take(k + 1)) == (
            Seq::<(Seq<char>, Seq<char>)>::empty(),
            Some(name),
            join(body.take(k).map_values(|l: Seq<char>| trim(l)), " "@),
        ),
    decreases k,
{
    let all = seq![header] + body;
    let tb = body.take(k).map_values(|l: Seq<char>| trim(l));
    if k == 0 {
        let st0: MdState = (Seq::empty(), None, Seq::empty());
        assert(all.take(1).drop_last() =~= Seq::<Seq<char>>::empty());
        assert(md_fold(all.take(1).drop_last()) == st0);
        assert(all.take(1).last() == header);
        assert(md_fold(all.take(1)) == md_step(st0, header));
        assert(md_flush(st0) == Seq::<(Seq<char>, Seq<char>)>::empty());
        assert(tb =~= Seq::<Seq<char>>::empty());
        assert(join(tb, " "@) == Seq::<char>::empty());
    } else {
        lemma_md_body(header, body, name, k - 1);
        let prev = body.take(k - 1).map_values(|l: Seq<char>| trim(l));
        assert(all.take(k + 1).drop_last() =~= all.take(k));
        assert(all.take(k + 1).last() == body[k - 1]);
        let l = trim(body[k - 1]);
        assert(header_name(l) is None);
        assert(tb.drop_last() =~= prev);
        assert(tb.last() == l);
        if k > 1 {
            assert forall|i: int| 0 <= i < prev.len() implies (#[trigger] prev[i]).len() > 0 by {
                assert(prev[i] == trim(body[i]));
            }
            lemma_join_ends(prev, " "@);
            reveal_strlit(" ");
            assert(join(prev, " "@).push(' ') + l =~= join(prev, " "@) + " "@ + l);
            assert(join(tb, " "@) == join(prev, " "@) + " "@ + l);
        } else {
            assert(prev =~= Seq::<Seq<char>>::empty());
            assert(join(prev, " "@) == Seq::<char>::empty());
            assert(tb =~= seq![l]);
            assert(join(tb, " "@) == l);
        }
        assert(md_fold(all.take(k + 1)) == md_step(md_fold(all.take(k)), body[k - 1]));
    }
}

/// A Markdown speaker's text is its lines joined by single spaces: a
/// discussion made of one speaker header followed by lines that are not
/// blank and do not start with `#` gives one message, from that speaker,
/// whose text is those lines, each trimmed, joined with single spaces in
/// order.
pub proof fn lemma_markdown_joins_lines(
    content: Seq<char>,
    header: Seq<char>,
    body: Seq<Seq<char>>,
    name: Seq<char>,
)
    requires
        lines(content) == seq![header] + body,
        header_name(trim(header)) == Some(name),
        body.len() > 0,
        forall|i: int|
            0 <= i < body.len() ==> trim(#[trigger] body[i]).len() > 0 && trim(body[i])[0] != '#',
    ensures
        markdown_messages(content) == seq![
            (name, join(body.map_values(|l: Seq<char>| trim(l)), " "@)),
        ],
{
    let all = seq![header] + body;
    let n = body.len() as int;
    lemma_md_body(header, body, name, n);
    assert(all.take(n + 1) =~= all);
    assert(body.take(n) =~= body);
    let tb = body.map_values(|l: Seq<char>| trim(l));
    assert forall|i: int| 0 <= i < tb.len() implies (#[trigger] tb[i]).len() > 0 by {
        assert(tb[i] == trim(body[i]));
    }
    lemma_join_ends(tb, " "@);
    lemma_trimmed_ends(body[0]);
    lemma_trimmed_ends(body[n - 1]);
    assert(tb[0] == trim(body[0]));
    assert(tb.last() == trim(body[n - 1]));
    lemma_unpadded_trim(join(tb, " "@));
}

/// The largest `j` in `lo..=hi` at the end of `t` or at a `\n` (or `lo - 1`).
pub open spec fn last_line_end(t: Seq<char>, lo: int, hi: int) -> int
    decreases hi - lo + 1,
{
    if hi < lo {
        lo - 1
    } else if hi >= t.len() || t[hi] == '\n' {
        hi
    } else {
        last_line_end(t, lo, hi - 1)
    }
}

/// Where a header match of the whole text starting at `i` ends, if one
/// starts there: `i` begins a line with `#`, the name is non-empty, and the
/// whitespace after it reaches a line end; the match ends at the last line
/// end within that whitespace.
pub open spec fn md_match_end(t: Seq<char>, i: int) -> Option<int> {
    if !(0 <= i < t.len()) || t[i] != '#' || !(i == 0 || t[i - 1] == '\n') {
        None
    } else {
        let a = header_name_start(t, i);
        let n = run_end(t, a, name_class());
        if n == a {
            None
        } else {
            let d = first_non_ws(t, n);
            let e = last_line_end(t, n, d);
            if e >= n {
                Some(e)
            } else {
                None
            }
        }
    }
}

pub proof fn lemma_header_name_start(t: Seq<char>, i: int)
    requires
        0 <= i < t.len(),
        t[i] == '#',
    ensures
        i < header_name_start(t, i) <= t.len(),
        run_end(t, i, hash_class()) > i,
{
    lemma_run_end_bounds(t, i, hash_class());
    let h = run_end(t, i, hash_class());
    assert((hash_class())(t[i]));
    lemma_first_non_ws_bounds(t, h);
}

pub proof fn lemma_md_match_end(t: Seq<char>, i: int)
    requires
        md_match_end(t, i) is Some,
    ensures
        i < md_match_end(t, i)->0 <= t.len(),
{
    lemma_header_name_start(t, i);
    let a = header_name_start(t, i);
    lemma_run_end_bounds(t, a, name_class());
    let n = run_end(t, a, name_class());
    lemma_first_non_ws_bounds(t, n);
    let d = first_non_ws(t, n);
    lemma_last_line_end(t, n, d);
}

pub proof fn lemma_last_line_end(t: Seq<char>, lo: int, hi: int)
    requires
        0 <= lo <= hi + 1,
        hi <= t.len(),
    ensures
        lo - 1 <= last_line_end(t, lo, hi) <= hi,
        last_line_end(t, lo, hi) >= lo ==> (last_line_end(t, lo, hi) == t.len() || t[last_line_end(
            t,
            lo,
            hi,
        )] == '\n'),
        forall|k: int| last_line_end(t, lo, hi) < k <= hi ==> k < t.len() && #[trigger] t[k] != '\n',
    decreases hi - lo + 1,
{
    if hi >= lo && !(hi >= t.len() || t[hi] == '\n') {
        lemma_last_line_end(t, lo, hi - 1);
    }
}

/// The number of header matches that a left-to-right search of `t` from
/// `from` finds, each search resuming where the previous match ended
/// (what `find_iter(..).count()` gives for the header pattern).
pub open spec fn md_header_count(t: Seq<char>, from: int) -> nat
    decreases t.len() - from,
{
    if from < 0 || from >= t.len() {
        0
    } else {
        match md_match_end(t, from) {
            Some(e) => {
                proof {
                    lemma_md_match_end(t, from);
                }
                1 + md_header_count(t, e)
            },
            None => md_header_count(t, from + 1),
        }
    }
}

/// Markdown is recognised when the text holds at least two speaker headers
/// and at least four lines.
pub open spec fn markdown_can_parse(content: Seq<char>) -> bool {
    md_header_count(content, 0) >= 2 && lines(content).len() >= 4
}

fn header_start_exec(t: &Vec<char>, i: usize) -> (a: usize)
    requires
        i < t.len(),
        t@[i as int] == '#',
    ensures
        a == header_name_start(t@, i as int),
        a <= t.len(),
{
    proof {
        lemma_run_end_bounds(t@, i as int, hash_class());
    }
    let h = hash_run(t, i);
    let w = skip_ws(t, h);
    proof {
        lemma_first_non_ws_bounds(t@, h as int);
    }
    if w < t.len() && t[w] == '@' {
        w + 1
    } else {
        w
    }
}

fn header_name_of(line: &Vec<char>) -> (r: Option<Vec<char>>)
    ensures
        match r {
            Some(n) => header_name(line@) == Some(n@),
            None => header_name(line@) is None,
        },
{
    if line.len() == 0 || line[0] != '#' {
        return None;
    }
    let a = header_start_exec(line, 0);
    proof {
        lemma_run_end_bounds(line@, a as int, name_class());
    }
    let n = name_run(line, a);
    if n > a {
        let rest_end = skip_ws(line, n);
        proof {
            lemma_first_non_ws_bounds(line@, n as int);
            if rest_end == line.len() {
                assert(all_ws(line@.skip(n as int)));
            } else {
                assert(line@.skip(n as int)[rest_end - n] == line@[rest_end as int]);
            }
        }
        if rest_end == line.len() {
            return Some(crate::text::slice_chars(line, a, n));
        }
    }
    None
}

fn md_match_end_exec(t: &Vec<char>, i: usize) -> (r: Option<usize>)
    requires
        i < t.len(),
    ensures
        match r {
            Some(e) => md_match_end(t@, i as int) == Some(e as int),
            None => md_match_end(t@, i as int) is None,
        },
{
    if t[i] != '#' || !(i == 0 || t[i - 1] == '\n') {
        return None;
    }
    let a = header_start_exec(t, i);
    proof {
        lemma_run_end_bounds(t@, a as int, name_class());
    }
    let n = name_run(t, a);
    if n == a {
        return None;
    }
    let d = skip_ws(t, n);
    proof {
        lemma_first_non_ws_bounds(t@, n as int);
    }
    let mut e = d;
    while e > n && !(e >= t.len() || t[e] == '\n')
        invariant
            n <= e <= d <= t.len(),
            last_line_end(t@, n as int, d as int) == last_line_end(t@, n as int, e as int),
        decreases e,
    {
        e = e - 1;
    }
    proof {
        if !(e >= t.len() || t@[e as int] == '\n') {
            assert(last_line_end(t@, n as int, n - 1) == n - 1);
        }
    }
    if e >= t.len() || t[e] == '\n' {
        Some(e)
    } else {
        None
    }
}

/// Counts the header matches of `t` (see `md_header_count`).
fn md_header_count_exec(t: &Vec<char>) -> (r: usize)
    ensures
        r == md_header_count(t@, 0),
{
    let mut count: usize = 0;
    let mut pos: usize = 0;
    while pos < t.len()
        invariant
            pos <= t.len(),
            count <= pos,
            md_header_count(t@, 0) == count + md_header_count(t@, pos as int),
        decreases t.len() - pos,
    {
        match md_match_end_exec(t, pos) {
            Some(e) => {
                proof {
                    lemma_md_match_end(t@, pos as int);
                }
                count = count + 1;
                pos = e;
            },
            None => {
                pos = pos + 1;
            },
        }
    }
    count
}

/// What parsing `content` as Markdown gives: its messages, or
/// `NoMessagesFound` when there are none.
pub open spec fn markdown_parse_result(content: Seq<char>, r: Result<Transcript, ParseError>) -> bool {
    match r {
        Ok(t) => markdown_messages(content).len() > 0 && built_transcript(
            t,
            markdown_messages(content),
            TranscriptFormat::Markdown,
        ),
        Err(e) => markdown_messages(content).len() == 0 && e is NoMessagesFound,
    }
}

/// Parser for Markdown format (GitHub discussions).
///
/// Example:
/// ```markdown
/// ### @alice
/// Hello, how are you?
///
/// ### @bob
/// I'm doing great!
/// ```
pub struct MarkdownParser;

impl MarkdownParser {
    pub fn new() -> (r: Self) {
        MarkdownParser
    }

    /// Reads `### @speaker` headers and the text under each; a speaker whose
    /// text is empty gives no message. Fails with `NoMessagesFound` when no
    /// message results.
    pub fn parse(&self, content: &str) -> (r: Result<Transcript, ParseError>)
        ensures
            markdown_parse_result(content@, r),
    {
        let chars = chars_of(content);
        let ls = lines_of(&chars);
        let mut pairs: Vec<(Vec<char>, Vec<char>)> = Vec::new();
        let mut speaker: Option<Vec<char>> = None;
        let mut text: Vec<char> = Vec::new();
        let mut i: usize = 0;
        while i < ls.len()
            invariant
                0 <= i <= ls.len(),
                char_lines(ls@) == lines(content@),
                md_fold(char_lines(ls@).take(i as int)) == (
                    pair_views(pairs@),
                    opt_view(speaker),
                    text@,
                ),
            decreases ls.len() - i,
        {
            proof {
                assert(char_lines(ls@).take(i + 1).drop_last() =~= char_lines(ls@).take(i as int));
            }
            let line = trim_chars(&ls[i]);
            match header_name_of(&line) {
                Some(name) => {
                    flush_message(&mut pairs, &speaker, &text);
                    speaker = Some(name);
                    text = Vec::new();
                },
                None => {
                    if speaker.is_some() && line.len() > 0 && line[0] != '#' {
                        if text.len() > 0 {
                            text.push(' ');
                        }
                        crate::text::push_all(&mut text, &line);
                    }
                },
            }
            i = i + 1;
        }
        assert(char_lines(ls@).take(i as int) =~= char_lines(ls@));
        flush_message(&mut pairs, &speaker, &text);
        if pairs.len() == 0 {
            return Err(ParseError::NoMessagesFound);
        }
        Ok(transcript_from(&pairs, TranscriptFormat::Markdown))
    }
}

impl TranscriptParser for MarkdownParser {
    /// Whether the text holds at least two speaker headers and four lines.
    fn can_parse(&self, content: &str) -> (r: bool)
        ensures
            r == markdown_can_parse(content@),
    {
        let chars = chars_of(content);
        let count = md_header_count_exec(&chars);
        if count < 2 {
            return false;
        }
        let ls = lines_of(&chars);
        ls.len() >= 4
    }

    fn format(&self) -> (r: TranscriptFormat)
        ensures
            r == TranscriptFormat::Markdown,
    {
        TranscriptFormat::Markdown
    }
}

pub open spec fn opt_view(o: Option<Vec<char>>) -> Option<Seq<char>> {
    match o {
        Some(v) => Some(v@),
        None => None,
    }
}

fn flush_message(
    pairs: &mut Vec<(Vec<char>, Vec<char>)>,
    speaker: &Option<Vec<char>>,
    text: &Vec<char>,
)
    ensures
        pair_views(final(pairs)@) == md_flush((pair_views(old(pairs)@), opt_view(*speaker), text@)),
{
    match speaker {
        Some(sp) => {
            let t = trim_chars(text);
            if t.len() > 0 {
                let ghost before = pairs@;
                let sp2 = crate::text::slice_chars(sp, 0, sp.len());
                assert(sp2@ =~= sp@);
                let ghost mv = (sp2@, t@);
                pairs.push((sp2, t));
                assert(pair_views(pairs@) =~= pair_views(before).push(mv));
            }
        },
        None => {},
    }
}

// ---------------------------------------------------------------------------
// Timestamps
// ---------------------------------------------------------------------------

/// The instant (seconds since the Unix epoch, nanoseconds) that chrono's
/// `DateTime::parse_from_rfc3339` reads from `text`, if it accepts it.
pub uninterp spec fn rfc3339_instant(text: Seq<char>) -> Option<(i64, u32)>;

/// The instant that chrono's `DateTime::parse_from_str` reads from `text`
/// with the strftime-style `format`, if it accepts it.
pub uninterp spec fn formatted_instant(text: Seq<char>, format: Seq<char>) -> Option<(i64, u32)>;

/// Calls chrono's `DateTime::parse_from_rfc3339` and gives the instant of the
/// result (`timestamp()`, `timestamp_subsec_nanos()`), or `None` when chrono
/// rejects the text. The contract names the result and says nothing of which
/// texts chrono accepts.
#[verifier::external_body]
fn parse_rfc3339(text: &str) -> (r: Option<(i64, u32)>)
    ensures
        r == rfc3339_instant(text@),
{
    match chrono::DateTime::parse_from_rfc3339(text) {
        Ok(dt) => Some((dt.timestamp(), dt.timestamp_subsec_nanos())),
        Err(_) => None,
    }
}

/// Calls chrono's `DateTime::parse_from_str(text, format)` and gives the
/// instant of the result, or `None` when chrono rejects the text. The
/// contract names the result and says nothing of which texts chrono accepts.
#[verifier::external_body]
fn parse_formatted(text: &str, format: &str) -> (r: Option<(i64, u32)>)
    ensures
        r == formatted_instant(text@, format@),
{
    match chrono::DateTime::parse_from_str(text, format) {
        Ok(dt) => Some((dt.timestamp(), dt.timestamp_subsec_nanos())),
        Err(_) => None,
    }
}

pub open spec fn instant(o: Option<(i64, u32)>) -> Option<Timestamp> {
    match o {
        Some((secs, nanos)) => Some(Timestamp { secs, nanos }),
        None => None,
    }
}

/// The instant a JSON timestamp denotes: RFC 3339 first, then the formats
/// `%Y-%m-%d %H:%M:%S`, `%Y-%m-%dT%H:%M:%S` and `%Y/%m/%d %H:%M:%S` in turn.
pub open spec fn timestamp_of(ts: Seq<char>) -> Option<Timestamp> {
    if rfc3339_instant(ts) is Some {
        instant(rfc3339_instant(ts))
    } else if formatted_instant(ts, "%Y-%m-%d %H:%M:%S"@) is Some {
        instant(formatted_instant(ts, "%Y-%m-%d %H:%M:%S"@))
    } else if formatted_instant(ts, "%Y-%m-%dT%H:%M:%S"@) is Some {
        instant(formatted_instant(ts, "%Y-%m-%dT%H:%M:%S"@))
    } else {
        instant(formatted_instant(ts, "%Y/%m/%d %H:%M:%S"@))
    }
}

// ---------------------------------------------------------------------------
// JSON
// ---------------------------------------------------------------------------

/// One record of an OpenAI-style chat array: `role`, `content` and an
/// optional `timestamp`.
#[derive(Debug)]
pub struct JsonMessage {
    pub role: String,
    pub content: String,
    pub timestamp: Option<String>,
}

/// (speaker, text, timestamp) of a message.
pub type TimedMessage = (Seq<char>, Seq<char>, Option<Timestamp>);

/// The messages of the JSON records, or the first timestamp that cannot be
/// read. A record whose trimmed content is empty is skipped before its
/// timestamp is looked at.
pub open spec fn json_messages(recs: Seq<JsonMessage>) -> Result<Seq<TimedMessage>, Seq<char>>
    decreases recs.len(),
{
    if recs.len() == 0 {
        Ok(Seq::empty())
    } else {
        match json_messages(recs.drop_last()) {
            Err(bad) => Err(bad),
            Ok(prev) => {
                let r = recs.last();
                let text = trim(r.content@);
                if text.len() == 0 {
                    Ok(prev)
                } else {
                    match r.timestamp {
                        None => Ok(prev.push((r.role@, text, None))),
                        Some(ts) => match timestamp_of(ts@) {
                            Some(t) => Ok(prev.push((r.role@, text, Some(t)))),
                            None => Err(ts@),
                        },
                    }
                }
            },
        }
    }
}

pub open spec fn timed_messages(msgs: Seq<Message>) -> Seq<TimedMessage> {
    msgs.map_values(|m: Message| (m.speaker@, m.text@, m.timestamp))
}

/// What parsing decoded JSON gives. `decoded` is the outcome of reading the
/// text as an array of records (its error message when that failed).
pub open spec fn json_parse_result(
    decoded: Result<Vec<JsonMessage>, String>,
    r: Result<Transcript, ParseError>,
) -> bool {
    match decoded {
        Err(msg) => r matches Err(ParseError::InvalidJson(m)) && m@ == msg@,
        Ok(recs) => if recs.len() == 0 {
            r matches Err(ParseError::NoMessagesFound)
        } else {
            match json_messages(recs@) {
                Err(bad) => r matches Err(ParseError::InvalidTimestamp(m)) && m@ == bad,
                Ok(ms) => if ms.len() == 0 {
                    r matches Err(ParseError::NoMessagesFound)
                } else {
                    r matches Ok(t) && {
                        &&& timed_messages(t.messages@) == ms
                        &&& participants_listed(t.metadata.participants@, t.messages@)
                        &&& t.metadata.title is None
                        &&& t.metadata.date is None
                        &&& t.metadata.format == TranscriptFormat::Json
                    }
                },
            }
        },
    }
}

/// JSON is recognised when the trimmed text starts with `[` or `{`.
pub open spec fn json_can_parse(content: Seq<char>) -> bool {
    trim(content).len() > 0 && (trim(content)[0] == '[' || trim(content)[0] == '{')
}

/// Parser for JSON format (OpenAI chat format).
///
/// Example:
/// ```json
/// [
///   {"role": "user", "content": "Hello"},
///   {"role": "assistant", "content": "Hi there!"}
/// ]
/// ```
///
/// Reading the text into records is serde's work and happens where the text
/// is read; this parser takes the outcome of that step.
pub struct JsonParser;

impl JsonParser {
    pub fn new() -> (r: Self) {
        JsonParser
    }

    /// Reads a timestamp: RFC 3339, then the three accepted formats in turn.
    pub fn parse_timestamp(&self, ts: &str) -> (r: Result<Timestamp, ParseError>)
        ensures
            match timestamp_of(ts@) {
                Some(t) => r == Ok::<Timestamp, ParseError>(t),
                None => r matches Err(ParseError::InvalidTimestamp(m)) && m@ == ts@,
            },
    {
        if let Some((secs, nanos)) = parse_rfc3339(ts) {
            return Ok(Timestamp { secs, nanos });
        }
        if let Some((secs, nanos)) = parse_formatted(ts, "%Y-%m-%d %H:%M:%S") {
            return Ok(Timestamp { secs, nanos });
        }
        if let Some((secs, nanos)) = parse_formatted(ts, "%Y-%m-%dT%H:%M:%S") {
            return Ok(Timestamp { secs, nanos });
        }
        if let Some((secs, nanos)) = parse_formatted(ts, "%Y/%m/%d %H:%M:%S") {
            return Ok(Timestamp { secs, nanos });
        }
        let owned = ts.to_owned();
        Err(ParseError::InvalidTimestamp(owned))
    }

    /// Builds the transcript of decoded chat records: each record with
    /// non-blank content becomes a message of its role, its content trimmed
    /// and its timestamp read.
    pub fn parse_decoded(&self, decoded: Result<Vec<JsonMessage>, String>) -> (r: Result<
        Transcript,
        ParseError,
    >)
        ensures
            json_parse_result(decoded, r),
    {
        let recs = match decoded {
            Err(e) => {
                return Err(ParseError::InvalidJson(e));
            },
            Ok(recs) => recs,
        };
        if recs.len() == 0 {
            return Err(ParseError::NoMessagesFound);
        }
        let mut messages: Vec<Message> = Vec::new();
        let mut i: usize = 0;
        assert(recs@.take(0) =~= Seq::<JsonMessage>::empty());
        assert(timed_messages(messages@) =~= Seq::<TimedMessage>::empty());
        while i < recs.len()
            invariant
                0 <= i <= recs.len(),
                decoded == Ok::<Vec<JsonMessage>, String>(recs),
                json_messages(recs@.take(i as int)) == Ok::<Seq<TimedMessage>, Seq<char>>(
                    timed_messages(messages@),
                ),
            decreases recs.len() - i,
        {
            proof {
                assert(recs@.take(i + 1).drop_last() =~= recs@.take(i as int));
            }
            let rec = &recs[i];
            let content = chars_of(rec.content.as_str());
            let text = trim_chars(&content);
            if text.len() > 0 {
                let timestamp = match &rec.timestamp {
                    None => None,
                    Some(ts) => match self.parse_timestamp(ts.as_str()) {
                        Ok(t) => Some(t),
                        Err(e) => {
                            proof {
                                let t1 = recs@.take(i + 1);
                                assert(t1.last() == recs@[i as int]);
                                assert(json_messages(t1) == Err::<Seq<TimedMessage>, Seq<char>>(
                                    ts@,
                                ));
                                lemma_json_error_persists(recs@, i + 1);
                                assert(json_messages(recs@) == Err::<Seq<TimedMessage>, Seq<char>>(
                                    ts@,
                                ));
                                assert(e matches ParseError::InvalidTimestamp(m) && m@ == ts@);
                                assert(decoded == Ok::<Vec<JsonMessage>, String>(recs));
                            }
                            return Err(e);
                        },
                    },
                };
                let ghost before = messages@;
                let m = Message { speaker: rec.role.clone(), text: string_from_chars(&text), timestamp };
                let ghost mv = (m.speaker@, m.text@, m.timestamp);
                messages.push(m);
                proof {
                    assert(timed_messages(messages@) =~= timed_messages(before).push(mv));
                }
            }
            i = i + 1;
        }
        proof {
            assert(recs@.take(i as int) =~= recs@);
        }
        if messages.len() == 0 {
            return Err(ParseError::NoMessagesFound);
        }
        let participants = sorted_speakers(&messages);
        Ok(
            Transcript {
                messages,
                metadata: Metadata {
                    title: None,
                    date: None,
                    participants,
                    format: TranscriptFormat::Json,
                },
            },
        )
    }
}

impl TranscriptParser for JsonParser {
    /// Whether the trimmed text starts with `[` or `{`.
    fn can_parse(&self, content: &str) -> (r: bool)
        ensures
            r == json_can_parse(content@),
    {
        let chars = chars_of(content);
        let t = trim_chars(&chars);
        t.len() > 0 && (t[0] == '[' || t[0] == '{')
    }

    fn format(&self) -> (r: TranscriptFormat)
        ensures
            r == TranscriptFormat::Json,
    {
        TranscriptFormat::Json
    }
}

/// Once reading the records fails at a timestamp, it fails with that
/// timestamp whatever follows.
proof fn lemma_json_error_persists(recs: Seq<JsonMessage>, i: int)
    requires
        0 <= i <= recs.len(),
        json_messages(recs.take(i)) is Err,
    ensures
        json_messages(recs) == json_messages(recs.take(i)),
    decreases recs.len() - i,
{
    if i < recs.len() {
        assert(recs.take(i + 1).drop_last() =~= recs.take(i));
        lemma_json_error_persists(recs, i + 1);
    } else {
        assert(recs.take(i) =~= recs);
    }
}

// ---------------------------------------------------------------------------
// Format detection
// ---------------------------------------------------------------------------

/// The format auto-detection picks: JSON, then Markdown, then plain text,
/// the first whose recogniser accepts the text.
pub open spec fn detected_format(content: Seq<char>) -> TranscriptFormat {
    if json_can_parse(content) {
        TranscriptFormat::Json
    } else if markdown_can_parse(content) {
        TranscriptFormat::Markdown
    } else if plain_can_parse(content) {
        TranscriptFormat::PlainText
    } else {
        TranscriptFormat::Unknown
    }
}

/// What parsing `content` in `format` gives.
pub open spec fn format_parse_result(
    content: Seq<char>,
    format: TranscriptFormat,
    decoded: Result<Vec<JsonMessage>, String>,
    r: Result<Transcript, ParseError>,
) -> bool {
    match format {
        TranscriptFormat::Json => json_parse_result(decoded, r),
        TranscriptFormat::Markdown => markdown_parse_result(content, r),
        TranscriptFormat::PlainText => plain_parse_result(content, r),
        TranscriptFormat::Unknown => true,
    }
}

/// Factory for auto-detecting and parsing transcripts. Where a call parses
/// JSON it takes `decoded`, the outcome of reading the text as chat records.
pub struct ParserFactory {
    json: JsonParser,
    markdown: MarkdownParser,
    plain: PlainTextParser,
}

impl ParserFactory {
    pub fn new() -> (r: Self) {
        ParserFactory { json: JsonParser, markdown: MarkdownParser, plain: PlainTextParser }
    }

    /// Auto-detect format and parse.
    pub fn parse_auto(&self, content: &str, decoded: Result<Vec<JsonMessage>, String>) -> (r:
        Result<Transcript, ParseError>)
        ensures
            detected_format(content@) == TranscriptFormat::Unknown ==> (r matches Err(
                ParseError::InvalidFormat(m),
            ) && m@ == "Unable to auto-detect transcript format"@),
            format_parse_result(content@, detected_format(content@), decoded, r),
    {
        if self.json.can_parse(content) {
            self.json.parse_decoded(decoded)
        } else if self.markdown.can_parse(content) {
            self.markdown.parse(content)
        } else if self.plain.can_parse(content) {
            self.plain.parse(content)
        } else {
            Err(ParseError::InvalidFormat("Unable to auto-detect transcript format".to_owned()))
        }
    }

    /// Get detected format without parsing.
    pub fn detect_format(&self, content: &str) -> (r: TranscriptFormat)
        ensures
            r == detected_format(content@),
    {
        if self.json.can_parse(content) {
            TranscriptFormat::Json
        } else if self.markdown.can_parse(content) {
            TranscriptFormat::Markdown
        } else if self.plain.can_parse(content) {
            TranscriptFormat::PlainText
        } else {
            TranscriptFormat::Unknown
        }
    }

    /// Parse with specific format.
    pub fn parse_with_format(
        &self,
        content: &str,
        format: TranscriptFormat,
        decoded: Result<Vec<JsonMessage>, String>,
    ) -> (r: Result<Transcript, ParseError>)
        ensures
            format == TranscriptFormat::Unknown ==> (r matches Err(ParseError::InvalidFormat(m))
                && m@ == "No parser available for format: Unknown"@),
            format_parse_result(content@, format, decoded, r),
    {
        match format {
            TranscriptFormat::Json => self.json.parse_decoded(decoded),
            TranscriptFormat::Markdown => self.markdown.parse(content),
            TranscriptFormat::PlainText => self.plain.parse(content),
            TranscriptFormat::Unknown => Err(
                ParseError::InvalidFormat("No parser available for format: Unknown".to_owned()),
            ),
        }
    }
}

impl ParseError {
    /// The message the error shows.
    pub fn describe(&self) -> (r: String)
        ensures
            r@ == match self {
                ParseError::InvalidFormat(m) => "Invalid format: "@ + m@,
                ParseError::NoMessagesFound => "No messages found in transcript"@,
                ParseError::InvalidJson(m) => "Invalid JSON: "@ + m@,
                ParseError::InvalidTimestamp(m) => "Invalid timestamp: "@ + m@,
                ParseError::Other(m) => "Error: "@ + m@,
            },
    {
        let mut v = match self {
            ParseError::InvalidFormat(_) => chars_of("Invalid format: "),
            ParseError::NoMessagesFound => chars_of("No messages found in transcript"),
            ParseError::InvalidJson(_) => chars_of("Invalid JSON: "),
            ParseError::InvalidTimestamp(_) => chars_of("Invalid timestamp: "),
            ParseError::Other(_) => chars_of("Error: "),
        };
        match self {
            ParseError::InvalidFormat(m) => push_str(&mut v, m.as_str()),
            ParseError::NoMessagesFound => {},
            ParseError::InvalidJson(m) => push_str(&mut v, m.as_str()),
            ParseError::InvalidTimestamp(m) => push_str(&mut v, m.as_str()),
            ParseError::Other(m) => push_str(&mut v, m.as_str()),
        }
        string_from_chars(&v)
    }
}

} // verus!
