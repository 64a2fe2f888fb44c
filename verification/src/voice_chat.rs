//! The voice-chat screens (FM and debate): which log entries are shown, the
//! texts shown and copied, timestamps and bridge names, the chat list, the
//! tracking of connected bridges, and the settings handed to the dataflow.
use vstd::prelude::*;
use crate::text::{
    all_ascii, ascii_upper, chars_of, contains, contains_chars, contains_str, decimal, join,
    join_strings, lowercase,
    push_all, push_str, starts_with, starts_with_str, string_from_chars, string_views,
    to_lowercase, zero_pad, zero_padded, chars_equal,
};

verus! {

// ============================================================================
// LOG FILTERS
// ============================================================================

/// The level filter: 0 all, 1 DEBUG, 2 INFO, 3 WARN, 4 ERROR (others all).
pub open spec fn level_matches(entry: Seq<char>, level: usize) -> bool {
    if level == 1 {
        contains(entry, "[DEBUG]"@)
    } else if level == 2 {
        contains(entry, "[INFO]"@)
    } else if level == 3 {
        contains(entry, "[WARN]"@)
    } else if level == 4 {
        contains(entry, "[ERROR]"@)
    } else {
        true
    }
}

/// The node filter: 0 all, 1 ASR, 2 TTS, 3 LLM, 4 Bridge, 5 Monitor, 6 App
/// (others all); an entry matches by its tag or by the node's name anywhere
/// in its lowercase form.
pub open spec fn node_matches(entry: Seq<char>, lower: Seq<char>, node: usize) -> bool {
    if node == 1 {
        contains(entry, "[ASR]"@) || contains(lower, "asr"@)
    } else if node == 2 {
        contains(entry, "[TTS]"@) || contains(lower, "tts"@)
    } else if node == 3 {
        contains(entry, "[LLM]"@) || contains(lower, "llm"@)
    } else if node == 4 {
        contains(entry, "[Bridge]"@) || contains(lower, "bridge"@)
    } else if node == 5 {
        contains(entry, "[Monitor]"@) || contains(lower, "monitor"@)
    } else if node == 6 {
        contains(entry, "[App]"@) || contains(lower, "app"@)
    } else {
        true
    }
}

/// A log entry passes the level, node and search filters (the search text
/// is lowercase; an empty one matches everything).
pub open spec fn entry_shown(entry: Seq<char>, level: usize, node: usize, search: Seq<char>) -> bool {
    &&& level_matches(entry, level)
    &&& node_matches(entry, lowercase(entry), node)
    &&& (search.len() == 0 || contains(lowercase(entry), search))
}

/// The entries that pass the filters, in order.
pub open spec fn shown_entries(
    entries: Seq<Seq<char>>,
    level: usize,
    node: usize,
    search: Seq<char>,
) -> Seq<Seq<char>>
    decreases entries.len(),
{
    if entries.len() == 0 {
        Seq::empty()
    } else {
        let rest = shown_entries(entries.drop_last(), level, node, search);
        if entry_shown(entries.last(), level, node, search) {
            rest.push(entries.last())
        } else {
            rest
        }
    }
}

/// The level filter keeps exactly the entries carrying its tag: with level
/// 1, 2, 3 or 4 (`[DEBUG]`, `[INFO]`, `[WARN]`, `[ERROR]`) every shown entry
/// holds the tag, and every entry holding it that passes the node and
/// search filters is shown; the shown entries come from the input, in order.
pub proof fn lemma_level_filter_keeps_tagged(
    entries: Seq<Seq<char>>,
    level: usize,
    tag: Seq<char>,
    node: usize,
    search: Seq<char>,
)
    requires
        (level == 1 && tag == "[DEBUG]"@) || (level == 2 && tag == "[INFO]"@) || (level == 3 && tag
            == "[WARN]"@) || (level == 4 && tag == "[ERROR]"@),
    ensures
        forall|k: int|
            0 <= k < shown_entries(entries, level, node, search).len() ==> contains(
                #[trigger] shown_entries(entries, level, node, search)[k],
                tag,
            ) && entries.contains(shown_entries(entries, level, node, search)[k]),
        forall|i: int|
            0 <= i < entries.len() && contains(#[trigger] entries[i], tag) && node_matches(
                entries[i],
                lowercase(entries[i]),
                node,
            ) && (search.len() == 0 || contains(lowercase(entries[i]), search)) ==> shown_entries(
                entries,
                level,
                node,
                search,
            ).contains(entries[i]),
    decreases entries.len(),
{
    if entries.len() > 0 {
        let d = entries.drop_last();
        lemma_level_filter_keeps_tagged(d, level, tag, node, search);
        let rest = shown_entries(d, level, node, search);
        let sh = shown_entries(entries, level, node, search);
        assert forall|k: int| 0 <= k < sh.len() implies contains(#[trigger] sh[k], tag) && entries.contains(
            sh[k],
        ) by {
            if k < rest.len() {
                assert(sh[k] == rest[k]);
                assert(d.contains(rest[k]));
                let w = choose|w: int| 0 <= w < d.len() && d[w] == rest[k];
                assert(entries[w] == d[w]);
            } else {
                assert(sh[k] == entries.last());
                assert(entries[entries.len() - 1] == entries.last());
            }
        }
        assert forall|i: int|
            0 <= i < entries.len() && contains(#[trigger] entries[i], tag) && node_matches(
                entries[i],
                lowercase(entries[i]),
                node,
            ) && (search.len() == 0 || contains(lowercase(entries[i]), search)) implies sh.contains(
            entries[i],
        ) by {
            if i < d.len() {
                assert(d[i] == entries[i]);
                assert(rest.contains(d[i]));
                let w = choose|w: int| 0 <= w < rest.len() && rest[w] == d[i];
                assert(sh[w] == rest[w]);
            } else {
                assert(entry_shown(entries.last(), level, node, search));
                assert(sh[sh.len() - 1] == entries.last());
            }
        }
    }
}

fn tagged_or_named(entry: &Vec<char>, lower: &Vec<char>, tag: &str, name: &str) -> (r: bool)
    ensures
        r == (contains(entry@, tag@) || contains(lower@, name@)),
{
    contains_str(entry, tag) || contains_str(lower, name)
}

fn is_shown(entry: &str, level: usize, node: usize, search: &Vec<char>) -> (r: bool)
    ensures
        r == entry_shown(entry@, level, node, search@),
{
    let e = chars_of(entry);
    let lower_s = to_lowercase(entry);
    let lower = chars_of(lower_s.as_str());
    let level_ok = if level == 1 {
        contains_str(&e, "[DEBUG]")
    } else if level == 2 {
        contains_str(&e, "[INFO]")
    } else if level == 3 {
        contains_str(&e, "[WARN]")
    } else if level == 4 {
        contains_str(&e, "[ERROR]")
    } else {
        true
    };
    let node_ok = if node == 1 {
        tagged_or_named(&e, &lower, "[ASR]", "asr")
    } else if node == 2 {
        tagged_or_named(&e, &lower, "[TTS]", "tts")
    } else if node == 3 {
        tagged_or_named(&e, &lower, "[LLM]", "llm")
    } else if node == 4 {
        tagged_or_named(&e, &lower, "[Bridge]", "bridge")
    } else if node == 5 {
        tagged_or_named(&e, &lower, "[Monitor]", "monitor")
    } else if node == 6 {
        tagged_or_named(&e, &lower, "[App]", "app")
    } else {
        true
    };
    let search_ok = search.len() == 0 || contains_chars(&lower, search);
    level_ok && node_ok && search_ok
}

/// The log entries that pass the level filter, the node filter and the
/// search text (compared in lowercase), in order.
pub fn filter_logs(entries: &Vec<String>, level_filter: usize, node_filter: usize, search: &str) -> (r: Vec<String>)
    ensures
        string_views(r@) == shown_entries(
            string_views(entries@),
            level_filter,
            node_filter,
            lowercase(search@),
        ),
{
    let search_lower = to_lowercase(search);
    let s = chars_of(search_lower.as_str());
    let ghost views = string_views(entries@);
    let mut r: Vec<String> = Vec::new();
    let mut i: usize = 0;
    while i < entries.len()
        invariant
            0 <= i <= entries.len(),
            views == string_views(entries@),
            s@ == lowercase(search@),
            string_views(r@) == shown_entries(
                views.take(i as int),
                level_filter,
                node_filter,
                lowercase(search@),
            ),
        decreases entries.len() - i,
    {
        assert(views.take(i + 1).drop_last() =~= views.take(i as int));
        if is_shown(entries[i].as_str(), level_filter, node_filter, &s) {
            let ghost before = r@;
            r.push(entries[i].clone());
            assert(string_views(r@) =~= string_views(before).push(views[i as int]));
        }
        i = i + 1;
    }
    assert(views.take(i as int) =~= views);
    r
}

/// The log panel's text: the shown entries as Markdown paragraphs.
pub fn log_display_text(shown: &Vec<String>) -> (r: String)
    ensures
        shown.len() == 0 ==> r@ == "*No log entries*"@,
        shown.len() > 0 ==> r@ == join(string_views(shown@), "\n\n"@),
{
    if shown.len() == 0 {
        "*No log entries*".to_owned()
    } else {
        join_strings(shown, "\n\n")
    }
}

/// The text copied from the log panel: the shown entries, one per line.
pub fn log_clipboard_text(shown: &Vec<String>) -> (r: String)
    ensures
        shown.len() == 0 ==> r@ == "No log entries"@,
        shown.len() > 0 ==> r@ == join(string_views(shown@), "\n"@),
{
    if shown.len() == 0 {
        "No log entries".to_owned()
    } else {
        join_strings(shown, "\n")
    }
}

// ============================================================================
// TIMESTAMPS AND BRIDGE NAMES
// ============================================================================

/// The time of day (UTC) of a Unix timestamp in milliseconds, as `HH:MM:SS`.
pub open spec fn clock_text(timestamp_ms: u64) -> Seq<char> {
    let secs = (timestamp_ms / 1000) % 86400;
    zero_pad(decimal((secs / 3600) as nat), 2) + ":"@ + zero_pad(decimal(((secs % 3600) / 60) as nat), 2)
        + ":"@ + zero_pad(decimal((secs % 60) as nat), 2)
}

/// Format a Unix timestamp (milliseconds) as `HH:MM:SS`.
pub fn format_timestamp(timestamp_ms: u64) -> (r: String)
    ensures
        r@ == clock_text(timestamp_ms),
{
    let total_secs = timestamp_ms / 1000;
    let secs_in_day = total_secs % 86400;
    let hours = secs_in_day / 3600;
    let minutes = (secs_in_day % 3600) / 60;
    let seconds = secs_in_day % 60;
    let mut v = zero_padded(hours, 2);
    push_str(&mut v, ":");
    let m = zero_padded(minutes, 2);
    push_all(&mut v, &m);
    push_str(&mut v, ":");
    let s = zero_padded(seconds, 2);
    push_all(&mut v, &s);
    string_from_chars(&v)
}

/// What std's `char::to_uppercase` gives for a character: its Unicode
/// uppercase mapping, one or more characters.
pub uninterp spec fn char_uppercase(c: char) -> Seq<char>;

/// The uppercase form of `c`, from std's `char::to_uppercase`. For an ASCII
/// character the Unicode uppercase mapping is the ASCII one, a single
/// character: only `a`..`z` change.
#[verifier::external_body]
fn uppercase_of(c: char) -> (r: String)
    ensures
        r@ == char_uppercase(c),
        (c as int) < 128 ==> r@ == seq![ascii_upper(c)],
{
    c.to_uppercase().collect()
}

/// The pieces of `s` between `-` separators (`str::split('-')`): one more
/// than there are separators, possibly empty.
pub open spec fn dash_pieces(s: Seq<char>) -> Seq<Seq<char>>
    decreases s.len(),
{
    if s.len() == 0 {
        seq![Seq::empty()]
    } else {
        let p = dash_pieces(s.drop_last());
        if s.last() == '-' {
            p.push(Seq::empty())
        } else {
            p.update(p.len() - 1, p.last().push(s.last()))
        }
    }
}

proof fn lemma_dash_pieces_len(s: Seq<char>)
    ensures
        dash_pieces(s).len() >= 1,
    decreases s.len(),
{
    if s.len() > 0 {
        lemma_dash_pieces_len(s.drop_last());
    }
}

/// A word with its first character uppercased.
pub open spec fn capitalized(w: Seq<char>) -> Seq<char> {
    if w.len() == 0 {
        w
    } else {
        char_uppercase(w[0]) + w.skip(1)
    }
}

/// A word with its first character in ASCII uppercase.
pub open spec fn ascii_capitalized(w: Seq<char>) -> Seq<char> {
    if w.len() == 0 {
        w
    } else {
        seq![ascii_upper(w[0])] + w.skip(1)
    }
}

/// The display name of an ASCII bridge node id: as [`bridge_display_name`],
/// each word's first letter in ASCII uppercase.
pub open spec fn ascii_bridge_display_name(node_id: Seq<char>) -> Seq<char> {
    let name = if starts_with(node_id, "mofa-"@) {
        node_id.skip(5)
    } else {
        node_id
    };
    let parts = dash_pieces(name);
    join(Seq::new(parts.len(), |i: int| ascii_capitalized(parts[i])), " "@)
}

proof fn lemma_dash_pieces_ascii(s: Seq<char>)
    requires
        all_ascii(s),
    ensures
        forall|k: int| 0 <= k < dash_pieces(s).len() ==> all_ascii(#[trigger] dash_pieces(s)[k]),
    decreases s.len(),
{
    if s.len() > 0 {
        let d = s.drop_last();
        assert(all_ascii(d)) by {
            assert forall|i: int| 0 <= i < d.len() implies (#[trigger] d[i] as int) < 128 by {
                assert(d[i] == s[i]);
            }
        }
        lemma_dash_pieces_ascii(d);
        lemma_dash_pieces_len(d);
        let p = dash_pieces(d);
        if s.last() != '-' {
            let w = p.last().push(s.last());
            assert(all_ascii(p[p.len() - 1]));
            assert((s[s.len() - 1] as int) < 128);
            assert forall|i: int| 0 <= i < w.len() implies (#[trigger] w[i] as int) < 128 by {
                if i < w.len() - 1 {
                    assert(w[i] == p[p.len() - 1][i]);
                }
            }
            assert forall|k: int| 0 <= k < dash_pieces(s).len() implies all_ascii(
                #[trigger] dash_pieces(s)[k],
            ) by {
                if k < p.len() - 1 {
                    assert(dash_pieces(s)[k] == p[k]);
                } else {
                    assert(dash_pieces(s)[k] == w);
                }
            }
        } else {
            assert forall|k: int| 0 <= k < dash_pieces(s).len() implies all_ascii(
                #[trigger] dash_pieces(s)[k],
            ) by {
                if k < p.len() {
                    assert(dash_pieces(s)[k] == p[k]);
                } else {
                    assert(dash_pieces(s)[k] =~= Seq::<char>::empty());
                }
            }
        }
    }
}

/// The display name of a bridge node: without a leading `mofa-`, each
/// dash-separated word capitalized, the words joined by spaces.
pub open spec fn bridge_display_name(node_id: Seq<char>) -> Seq<char> {
    let name = if starts_with(node_id, "mofa-"@) {
        node_id.skip(5)
    } else {
        node_id
    };
    let parts = dash_pieces(name);
    join(Seq::new(parts.len(), |i: int| capitalized(parts[i])), " "@)
}

fn capitalize(w: &Vec<char>) -> (r: String)
    ensures
        r@ == capitalized(w@),
        (w@.len() > 0 ==> (w@[0] as int) < 128) ==> r@ == ascii_capitalized(w@),
{
    if w.len() == 0 {
        return string_from_chars(w);
    }
    let first = uppercase_of(w[0]);
    let mut v = chars_of(first.as_str());
    let mut k: usize = 1;
    while k < w.len()
        invariant
            1 <= k <= w.len(),
            v@ == char_uppercase(w@[0]) + w@.subrange(1, k as int),
            (w@[0] as int) < 128 ==> v@ == seq![ascii_upper(w@[0])] + w@.subrange(1, k as int),
        decreases w.len() - k,
    {
        v.push(w[k]);
        k = k + 1;
        assert(v@ =~= char_uppercase(w@[0]) + w@.subrange(1, k as int));
        assert((w@[0] as int) < 128 ==> v@ =~= seq![ascii_upper(w@[0])] + w@.subrange(1, k as int));
    }
    assert(w@.subrange(1, k as int) =~= w@.skip(1));
    string_from_chars(&v)
}

/// Format a bridge node id as a display name, e.g. `mofa-audio-player` as
/// `Audio Player`.
pub fn format_bridge_name(node_id: &str) -> (r: String)
    ensures
        r@ == bridge_display_name(node_id@),
        all_ascii(node_id@) ==> r@ == ascii_bridge_display_name(node_id@),
{
    let id = chars_of(node_id);
    let start: usize = if starts_with_str(&id, "mofa-") {
        proof {
            reveal_strlit("mofa-");
        }
        5
    } else {
        0
    };
    let ghost name = id@.skip(start as int);
    assert(name =~= (if starts_with(node_id@, "mofa-"@) {
        node_id@.skip(5)
    } else {
        node_id@
    }));
    let mut done: Vec<Vec<char>> = Vec::new();
    let mut cur: Vec<char> = Vec::new();
    let mut i: usize = start;
    assert(id@.subrange(start as int, start as int) =~= Seq::<char>::empty());
    while i < id.len()
        invariant
            start <= i <= id.len(),
            done@.map_values(|x: Vec<char>| x@).push(cur@) == dash_pieces(
                id@.subrange(start as int, i as int),
            ),
        decreases id.len() - i,
    {
        let ghost sub = id@.subrange(start as int, i + 1);
        assert(sub.drop_last() =~= id@.subrange(start as int, i as int));
        proof {
            lemma_dash_pieces_len(id@.subrange(start as int, i as int));
        }
        if id[i] == '-' {
            let finished = cur;
            done.push(finished);
            cur = Vec::new();
        } else {
            cur.push(id[i]);
        }
        i = i + 1;
        assert(done@.map_values(|x: Vec<char>| x@).push(cur@) =~= dash_pieces(sub));
    }
    assert(id@.subrange(start as int, i as int) =~= name);
    done.push(cur);
    let ghost parts = dash_pieces(name);
    assert(done@.map_values(|x: Vec<char>| x@) =~= parts);
    proof {
        if all_ascii(node_id@) {
            assert forall|i: int| 0 <= i < name.len() implies (#[trigger] name[i] as int) < 128 by {
                assert(name[i] == node_id@[i + start]);
            }
            lemma_dash_pieces_ascii(name);
        }
    }
    let mut words: Vec<String> = Vec::new();
    let mut j: usize = 0;
    while j < done.len()
        invariant
            0 <= j <= done.len(),
            done@.map_values(|x: Vec<char>| x@) == parts,
            string_views(words@) == Seq::new(j as nat, |k: int| capitalized(parts[k])),
            all_ascii(node_id@) ==> forall|k: int| 0 <= k < parts.len() ==> all_ascii(#[trigger] parts[k]),
            all_ascii(node_id@) ==> string_views(words@) == Seq::new(
                j as nat,
                |k: int| ascii_capitalized(parts[k]),
            ),
        decreases done.len() - j,
    {
        assert(done@[j as int]@ == parts[j as int]);
        proof {
            if all_ascii(node_id@) && parts[j as int].len() > 0 {
                assert(all_ascii(parts[j as int]));
                assert((parts[j as int][0] as int) < 128);
            }
        }
        let w = capitalize(&done[j]);
        let ghost before = string_views(words@);
        let ghost wv = w@;
        words.push(w);
        assert(string_views(words@) =~= before.push(wv));
        j = j + 1;
        assert(string_views(words@) =~= Seq::new(j as nat, |k: int| capitalized(parts[k])));
        assert(all_ascii(node_id@) ==> string_views(words@) =~= Seq::new(
            j as nat,
            |k: int| ascii_capitalized(parts[k]),
        ));
    }
    assert(string_views(words@) =~= Seq::new(parts.len(), |k: int| capitalized(parts[k])));
    assert(all_ascii(node_id@) ==> string_views(words@) =~= Seq::new(
        parts.len(),
        |k: int| ascii_capitalized(parts[k]),
    ));
    join_strings(&words, " ")
}

// ============================================================================
// CHAT
// ============================================================================

/// Chat message entry for display.
#[derive(Debug)]
pub struct ChatMessageEntry {
    pub sender: String,
    pub content: String,
    /// Unix time in milliseconds
    pub timestamp: u64,
    pub is_streaming: bool,
    pub session_id: Option<String>,
}

impl ChatMessageEntry {
    /// A finished message from `sender`, stamped `timestamp` (Unix
    /// milliseconds).
    pub fn new(sender: String, content: String, timestamp: u64) -> (r: Self)
        ensures
            r.sender == sender,
            r.content == content,
            r.timestamp == timestamp,
            !r.is_streaming,
            r.session_id is None,
    {
        ChatMessageEntry { sender, content, timestamp, is_streaming: false, session_id: None }
    }
}

/// The most chat messages a screen keeps.
pub const MAX_CHAT_MESSAGES: usize = 500;

/// The prompt sent for an input: the input, or `开始吧` ("let's begin") when
/// it is empty.
pub fn prompt_or_default(input: String) -> (r: String)
    ensures
        input@.len() == 0 ==> r@ == "开始吧"@,
        input@.len() > 0 ==> r == input,
{
    let c = chars_of(input.as_str());
    if c.len() == 0 {
        "开始吧".to_owned()
    } else {
        input
    }
}

/// The chat list once `msg` is added: at the end, the oldest message dropped
/// beyond [`MAX_CHAT_MESSAGES`].
pub open spec fn chat_after_push(msgs: Seq<ChatMessageEntry>, msg: ChatMessageEntry) -> Seq<ChatMessageEntry> {
    let l = msgs.push(msg);
    if l.len() > MAX_CHAT_MESSAGES {
        l.skip(1)
    } else {
        l
    }
}

/// Add a message to the chat list, keeping it bounded.
pub fn push_chat_message(msgs: &mut Vec<ChatMessageEntry>, msg: ChatMessageEntry)
    ensures
        final(msgs)@ == chat_after_push(old(msgs)@, msg),
        old(msgs)@.len() <= MAX_CHAT_MESSAGES ==> final(msgs)@.len() <= MAX_CHAT_MESSAGES,
{
    msgs.push(msg);
    if msgs.len() > MAX_CHAT_MESSAGES {
        let _ = msgs.remove(0);
        assert(msgs@ =~= old(msgs)@.push(msg).skip(1));
    }
}

/// "[`sender`] `content`".
pub open spec fn clipboard_line(m: ChatMessageEntry) -> Seq<char> {
    "["@ + m.sender@ + "] "@ + m.content@
}

/// The text copied from the chat: a paragraph per message.
pub fn chat_clipboard_text(msgs: &Vec<ChatMessageEntry>) -> (r: String)
    ensures
        msgs.len() == 0 ==> r@ == "No chat messages"@,
        msgs.len() > 0 ==> r@ == join(
            Seq::new(msgs@.len(), |i: int| clipboard_line(msgs@[i])),
            "\n\n"@,
        ),
{
    if msgs.len() == 0 {
        return "No chat messages".to_owned();
    }
    let mut lines: Vec<String> = Vec::new();
    let mut i: usize = 0;
    while i < msgs.len()
        invariant
            0 <= i <= msgs.len(),
            string_views(lines@) == Seq::new(i as nat, |k: int| clipboard_line(msgs@[k])),
        decreases msgs.len() - i,
    {
        let mut v = chars_of("[");
        push_str(&mut v, msgs[i].sender.as_str());
        push_str(&mut v, "] ");
        push_str(&mut v, msgs[i].content.as_str());
        let line = string_from_chars(&v);
        let ghost before = string_views(lines@);
        let ghost lv = line@;
        lines.push(line);
        assert(string_views(lines@) =~= before.push(lv));
        i = i + 1;
        assert(string_views(lines@) =~= Seq::new(i as nat, |k: int| clipboard_line(msgs@[k])));
    }
    join_strings(&lines, "\n\n")
}

/// "**`sender`**` ⌛` (`HH:MM:SS`):  \n`content`", the hourglass only while
/// the message streams.
pub open spec fn display_block(m: ChatMessageEntry) -> Seq<char> {
    "**"@ + m.sender@ + "**"@ + (if m.is_streaming {
        " ⌛"@
    } else {
        Seq::empty()
    }) + " ("@ + clock_text(m.timestamp) + "):  \n"@ + m.content@
}

fn display_block_of(m: &ChatMessageEntry) -> (r: String)
    ensures
        r@ == display_block(*m),
{
    let mut v = chars_of("**");
    push_str(&mut v, m.sender.as_str());
    push_str(&mut v, "**");
    if m.is_streaming {
        push_str(&mut v, " ⌛");
    }
    push_str(&mut v, " (");
    let ts = format_timestamp(m.timestamp);
    push_str(&mut v, ts.as_str());
    push_str(&mut v, "):  \n");
    push_str(&mut v, m.content.as_str());
    proof {
        assert(v@ =~= display_block(*m));
    }
    string_from_chars(&v)
}

/// The chat panel's text: the finished messages, then those still
/// streaming, separated by rules.
pub fn chat_display_text(finished: &Vec<ChatMessageEntry>, streaming: &Vec<ChatMessageEntry>) -> (r: String)
    ensures
        finished.len() + streaming.len() == 0 ==> r@ == "Waiting for conversation..."@,
        finished.len() + streaming.len() > 0 ==> r@ == join(
            Seq::new(
                (finished@ + streaming@).len(),
                |i: int| display_block((finished@ + streaming@)[i]),
            ),
            "\n\n---\n\n"@,
        ),
{
    if finished.len() == 0 && streaming.len() == 0 {
        return "Waiting for conversation...".to_owned();
    }
    let ghost all = finished@ + streaming@;
    let mut blocks: Vec<String> = Vec::new();
    let mut i: usize = 0;
    while i < finished.len()
        invariant
            0 <= i <= finished.len(),
            all == finished@ + streaming@,
            string_views(blocks@) == Seq::new(i as nat, |k: int| display_block(all[k])),
        decreases finished.len() - i,
    {
        assert(finished@[i as int] == all[i as int]);
        let b = display_block_of(&finished[i]);
        let ghost before = string_views(blocks@);
        let ghost bv = b@;
        blocks.push(b);
        assert(string_views(blocks@) =~= before.push(bv));
        i = i + 1;
        assert(string_views(blocks@) =~= Seq::new(i as nat, |k: int| display_block(all[k])));
    }
    let mut j: usize = 0;
    while j < streaming.len()
        invariant
            0 <= j <= streaming.len(),
            all == finished@ + streaming@,
            string_views(blocks@) == Seq::new(
                (finished@.len() + j) as nat,
                |k: int| display_block(all[k]),
            ),
        decreases streaming.len() - j,
    {
        assert(streaming@[j as int] == all[finished@.len() + j]);
        let b = display_block_of(&streaming[j]);
        let ghost before = string_views(blocks@);
        let ghost bv = b@;
        blocks.push(b);
        assert(string_views(blocks@) =~= before.push(bv));
        j = j + 1;
        assert(string_views(blocks@) =~= Seq::new(
            (finished@.len() + j) as nat,
            |k: int| display_block(all[k]),
        ));
    }
    join_strings(&blocks, "\n\n---\n\n")
}

// ============================================================================
// MERGING CHAT MESSAGES
// ============================================================================

/// The user's own messages (sender `You`), in order.
pub open spec fn user_messages(msgs: Seq<ChatMessageEntry>) -> Seq<ChatMessageEntry>
    decreases msgs.len(),
{
    if msgs.len() == 0 {
        Seq::empty()
    } else {
        let rest = user_messages(msgs.drop_last());
        if msgs.last().sender@ == "You"@ {
            rest.push(msgs.last())
        } else {
            rest
        }
    }
}

/// Where a message with timestamp `ts` goes in `t`: after the last message,
/// scanning from the end, whose timestamp is not later.
pub open spec fn insert_pos(t: Seq<ChatMessageEntry>, ts: u64) -> int
    decreases t.len(),
{
    if t.len() == 0 {
        0
    } else if t.last().timestamp <= ts {
        t.len() as int
    } else {
        insert_pos(t.drop_last(), ts)
    }
}

/// The messages ordered by timestamp, messages with equal timestamps in
/// their original order (what a stable sort by timestamp gives).
pub open spec fn by_timestamp(msgs: Seq<ChatMessageEntry>) -> Seq<ChatMessageEntry>
    decreases msgs.len(),
{
    if msgs.len() == 0 {
        Seq::empty()
    } else {
        let t = by_timestamp(msgs.drop_last());
        t.insert(insert_pos(t, msgs.last().timestamp), msgs.last())
    }
}

/// Ordered by timestamp.
pub open spec fn timestamps_ordered(msgs: Seq<ChatMessageEntry>) -> bool {
    forall|i: int, j: int|
        0 <= i < j < msgs.len() ==> (#[trigger] msgs[i]).timestamp <= (#[trigger] msgs[j]).timestamp
}

proof fn lemma_insert_pos(t: Seq<ChatMessageEntry>, ts: u64)
    ensures
        0 <= insert_pos(t, ts) <= t.len(),
        forall|k: int| insert_pos(t, ts) <= k < t.len() ==> (#[trigger] t[k]).timestamp > ts,
        insert_pos(t, ts) > 0 ==> t[insert_pos(t, ts) - 1].timestamp <= ts,
    decreases t.len(),
{
    if t.len() > 0 && t.last().timestamp > ts {
        let d = t.drop_last();
        lemma_insert_pos(d, ts);
        assert forall|k: int| insert_pos(t, ts) <= k < t.len() implies (#[trigger] t[k]).timestamp
            > ts by {
            if k < d.len() {
                assert(t[k] == d[k]);
            }
        }
    }
}

/// Ordering by timestamp orders the messages and keeps exactly the same
/// messages.
pub proof fn lemma_by_timestamp(msgs: Seq<ChatMessageEntry>)
    ensures
        timestamps_ordered(by_timestamp(msgs)),
        by_timestamp(msgs).to_multiset() == msgs.to_multiset(),
        by_timestamp(msgs).len() == msgs.len(),
    decreases msgs.len(),
{
    broadcast use vstd::seq_lib::to_multiset_insert, vstd::seq_lib::to_multiset_build;

    if msgs.len() > 0 {
        let d = msgs.drop_last();
        let x = msgs.last();
        lemma_by_timestamp(d);
        let t = by_timestamp(d);
        let p = insert_pos(t, x.timestamp);
        lemma_insert_pos(t, x.timestamp);
        let r = t.insert(p, x);
        assert forall|i: int, j: int| 0 <= i < j < r.len() implies (#[trigger] r[i]).timestamp
            <= (#[trigger] r[j]).timestamp by {
            if j < p {
                assert(r[i] == t[i] && r[j] == t[j]);
            } else if j == p {
                assert(r[i] == t[i] && t[i].timestamp <= t[p - 1].timestamp);
            } else if i == p {
                assert(r[j] == t[j - 1]);
            } else if i < p {
                assert(r[i] == t[i] && r[j] == t[j - 1]);
            } else {
                assert(r[i] == t[i - 1] && r[j] == t[j - 1]);
            }
        }
        assert(r.to_multiset() == t.to_multiset().insert(x));
        assert(d.push(x).to_multiset() == d.to_multiset().insert(x));
        assert(msgs =~= d.push(x));
        assert(by_timestamp(msgs) == r);
    } else {
        assert(msgs =~= Seq::<ChatMessageEntry>::empty());
    }
}

fn insert_by_timestamp(out: &mut Vec<ChatMessageEntry>, x: ChatMessageEntry)
    ensures
        final(out)@ == old(out)@.insert(insert_pos(old(out)@, x.timestamp), x),
{
    let ghost t = out@;
    let mut j = out.len();
    assert(t.take(j as int) =~= t);
    while j > 0 && out[j - 1].timestamp > x.timestamp
        invariant
            0 <= j <= out.len(),
            out@ == t,
            insert_pos(t, x.timestamp) == insert_pos(t.take(j as int), x.timestamp),
        decreases j,
    {
        assert(t.take(j as int).drop_last() =~= t.take(j - 1));
        j = j - 1;
    }
    out.insert(j, x);
}

/// The chat list after new messages arrive from the dataflow: the user's own
/// messages of the current list and the arrived messages, ordered by
/// timestamp (arrived messages first among equal timestamps).
pub fn merge_chat_messages(current: Vec<ChatMessageEntry>, arrived: Vec<ChatMessageEntry>) -> (r: Vec<ChatMessageEntry>)
    ensures
        r@ == by_timestamp(arrived@ + user_messages(current@)),
{
    let ghost cur = current@;
    let mut combined = arrived;
    let ghost first = combined@;
    let mut rest = current;
    let mut consumed: usize = 0;
    let total = rest.len();
    while rest.len() > 0
        invariant
            consumed + rest@.len() == cur.len(),
            cur.len() == total,
            rest@ == cur.skip(consumed as int),
            combined@ == first + user_messages(cur.take(consumed as int)),
        decreases rest.len(),
    {
        let m = rest.remove(0);
        assert(m == cur[consumed as int]);
        assert(cur.take(consumed + 1).drop_last() =~= cur.take(consumed as int));
        let you = chars_of("You");
        let s = chars_of(m.sender.as_str());
        if chars_equal(&s, &you) {
            combined.push(m);
        }
        consumed = consumed + 1;
        assert(rest@ =~= cur.skip(consumed as int));
    }
    assert(cur.take(consumed as int) =~= cur);
    let ghost all = combined@;
    let mut out: Vec<ChatMessageEntry> = Vec::new();
    let mut k: usize = 0;
    let n = combined.len();
    let mut src = combined;
    while src.len() > 0
        invariant
            k + src@.len() == n,
            all.len() == n,
            src@ == all.skip(k as int),
            out@ == by_timestamp(all.take(k as int)),
        decreases src.len(),
    {
        let m = src.remove(0);
        assert(m == all[k as int]);
        assert(all.take(k + 1).drop_last() =~= all.take(k as int));
        insert_by_timestamp(&mut out, m);
        k = k + 1;
        assert(src@ =~= all.skip(k as int));
    }
    assert(all.take(k as int) =~= all);
    out
}

// ============================================================================
// BRIDGE TRACKING
// ============================================================================

/// The known bridges after the active ones are seen, in order: each
/// active bridge not yet known is added at the end.
pub open spec fn with_new_bridges(known: Seq<Seq<char>>, active: Seq<Seq<char>>) -> Seq<Seq<char>>
    decreases active.len(),
{
    if active.len() == 0 {
        known
    } else {
        let t = with_new_bridges(known, active.drop_last());
        if t.contains(active.last()) {
            t
        } else {
            t.push(active.last())
        }
    }
}

/// The bridges of `bs` that are (or are not) in `active`, in order.
pub open spec fn bridges_where(bs: Seq<Seq<char>>, active: Seq<Seq<char>>, present: bool) -> Seq<Seq<char>>
    decreases bs.len(),
{
    if bs.len() == 0 {
        Seq::empty()
    } else {
        let rest = bridges_where(bs.drop_last(), active, present);
        if active.contains(bs.last()) == present {
            rest.push(bs.last())
        } else {
            rest
        }
    }
}

proof fn lemma_push_no_duplicates(w: Seq<Seq<char>>, v: Seq<char>)
    requires
        w.no_duplicates(),
        !w.contains(v),
    ensures
        w.push(v).no_duplicates(),
{
    let p = w.push(v);
    assert forall|i: int, j: int| 0 <= i < p.len() && 0 <= j < p.len() && i != j implies p[i]
        != p[j] by {
        if i == w.len() {
            assert(p[j] == w[j]);
        } else if j == w.len() {
            assert(p[i] == w[i]);
        } else {
            assert(p[i] == w[i] && p[j] == w[j]);
        }
    }
}

proof fn lemma_drop_last_no_duplicates(w: Seq<Seq<char>>)
    requires
        w.len() > 0,
        w.no_duplicates(),
    ensures
        w.drop_last().no_duplicates(),
        !w.drop_last().contains(w.last()),
{
    let d = w.drop_last();
    assert forall|i: int, j: int| 0 <= i < d.len() && 0 <= j < d.len() && i != j implies d[i]
        != d[j] by {
        assert(d[i] == w[i] && d[j] == w[j]);
    }
    if d.contains(w.last()) {
        let i = choose|i: int| 0 <= i < d.len() && d[i] == w.last();
        assert(w[i] == w[w.len() - 1]);
    }
}

proof fn lemma_with_new_bridges(t: Seq<Seq<char>>, a: Seq<Seq<char>>)
    ensures
        forall|x: Seq<char>|
            #[trigger] with_new_bridges(t, a).contains(x) <==> (t.contains(x) || a.contains(x)),
        t.no_duplicates() ==> with_new_bridges(t, a).no_duplicates(),
    decreases a.len(),
{
    broadcast use vstd::seq_lib::lemma_seq_contains_after_push;

    if a.len() > 0 {
        let d = a.drop_last();
        lemma_with_new_bridges(t, d);
        assert(a =~= d.push(a.last()));
        let w = with_new_bridges(t, d);
        if t.no_duplicates() && !w.contains(a.last()) {
            lemma_push_no_duplicates(w, a.last());
        }
    }
}

proof fn lemma_bridges_where(w: Seq<Seq<char>>, a: Seq<Seq<char>>, present: bool)
    ensures
        forall|x: Seq<char>|
            #[trigger] bridges_where(w, a, present).contains(x) <==> (w.contains(x) && a.contains(x)
                == present),
        w.no_duplicates() ==> bridges_where(w, a, present).no_duplicates(),
    decreases w.len(),
{
    broadcast use vstd::seq_lib::lemma_seq_contains_after_push;

    if w.len() > 0 {
        let d = w.drop_last();
        lemma_bridges_where(d, a, present);
        assert(w =~= d.push(w.last()));
        if w.no_duplicates() {
            lemma_drop_last_no_duplicates(w);
            if a.contains(w.last()) == present {
                lemma_push_no_duplicates(bridges_where(d, a, present), w.last());
            }
        }
    }
}

/// After the bridges are compared, the known bridges are exactly the active
/// ones, each once when the known list had no repeats; those reported gone
/// are exactly the earlier known bridges that are no longer active.
pub proof fn lemma_bridge_tracking(known: Seq<Seq<char>>, active: Seq<Seq<char>>)
    ensures
        forall|x: Seq<char>|
            #[trigger] bridges_where(with_new_bridges(known, active), active, true).contains(x)
                <==> active.contains(x),
        known.no_duplicates() ==> bridges_where(
            with_new_bridges(known, active),
            active,
            true,
        ).no_duplicates(),
        forall|x: Seq<char>|
            #[trigger] bridges_where(with_new_bridges(known, active), active, false).contains(x)
                <==> (known.contains(x) && !active.contains(x)),
{
    let w = with_new_bridges(known, active);
    lemma_with_new_bridges(known, active);
    lemma_bridges_where(w, active, true);
    lemma_bridges_where(w, active, false);
}

/// What changed in the set of bridges connected to the dataflow.
#[derive(Debug)]
pub struct BridgeChanges {
    /// Bridges connected since the last check, in the order seen
    pub connected: Vec<String>,
    /// Known bridges no longer active
    pub disconnected: Vec<String>,
    /// The bridges known from now on
    pub known: Vec<String>,
}

fn contains_string(v: &Vec<String>, s: &str) -> (r: bool)
    ensures
        r == string_views(v@).contains(s@),
{
    let target = chars_of(s);
    let ghost views = string_views(v@);
    let mut i: usize = 0;
    while i < v.len()
        invariant
            0 <= i <= v.len(),
            views == string_views(v@),
            target@ == s@,
            forall|k: int| 0 <= k < i ==> views[k] != s@,
        decreases v.len() - i,
    {
        let c = chars_of(v[i].as_str());
        if chars_equal(&c, &target) {
            assert(views[i as int] == s@);
            return true;
        }
        i = i + 1;
    }
    false
}

/// Compare the known bridges with the active ones: report those newly
/// connected and those gone, and give the bridges to track from now on.
pub fn track_bridges(known: &Vec<String>, active: &Vec<String>) -> (r: BridgeChanges)
    ensures
        string_views(r.connected@) == with_new_bridges(string_views(known@), string_views(active@)).skip(
            known.len() as int,
        ),
        string_views(r.disconnected@) == bridges_where(
            with_new_bridges(string_views(known@), string_views(active@)),
            string_views(active@),
            false,
        ),
        string_views(r.known@) == bridges_where(
            with_new_bridges(string_views(known@), string_views(active@)),
            string_views(active@),
            true,
        ),
{
    let ghost tv = string_views(known@);
    let ghost av = string_views(active@);
    let mut all: Vec<String> = Vec::new();
    let mut i: usize = 0;
    while i < known.len()
        invariant
            0 <= i <= known.len(),
            tv == string_views(known@),
            string_views(all@) == tv.take(i as int),
        decreases known.len() - i,
    {
        let c = known[i].clone();
        let ghost before = string_views(all@);
        all.push(c);
        assert(string_views(all@) =~= before.push(tv[i as int]));
        i = i + 1;
        assert(string_views(all@) =~= tv.take(i as int));
    }
    assert(tv.take(i as int) =~= tv);
    let mut connected: Vec<String> = Vec::new();
    let mut j: usize = 0;
    assert(av.take(0) =~= Seq::<Seq<char>>::empty());
    while j < active.len()
        invariant
            0 <= j <= active.len(),
            av == string_views(active@),
            tv.len() == known.len(),
            string_views(all@) == with_new_bridges(tv, av.take(j as int)),
            with_new_bridges(tv, av.take(j as int)).len() >= tv.len(),
            with_new_bridges(tv, av.take(j as int)).take(tv.len() as int) == tv,
            string_views(connected@) == with_new_bridges(tv, av.take(j as int)).skip(
                tv.len() as int,
            ),
        decreases active.len() - j,
    {
        assert(av.take(j + 1).drop_last() =~= av.take(j as int));
        assert(av.take(j + 1).last() == active@[j as int]@);
        if !contains_string(&all, active[j].as_str()) {
            let ghost before = string_views(all@);
            let ghost cb = string_views(connected@);
            all.push(active[j].clone());
            connected.push(active[j].clone());
            assert(string_views(all@) =~= before.push(av[j as int]));
            assert(string_views(connected@) =~= cb.push(av[j as int]));
            assert(before.push(av[j as int]).take(tv.len() as int) =~= before.take(tv.len() as int));
            assert(before.push(av[j as int]).skip(tv.len() as int) =~= before.skip(tv.len() as int).push(av[j as int]));
        }
        j = j + 1;
    }
    assert(av.take(j as int) =~= av);
    let ghost w = string_views(all@);
    let mut disconnected: Vec<String> = Vec::new();
    let mut kept: Vec<String> = Vec::new();
    let mut k: usize = 0;
    while k < all.len()
        invariant
            0 <= k <= all.len(),
            w == string_views(all@),
            av == string_views(active@),
            string_views(disconnected@) == bridges_where(w.take(k as int), av, false),
            string_views(kept@) == bridges_where(w.take(k as int), av, true),
        decreases all.len() - k,
    {
        assert(w.take(k + 1).drop_last() =~= w.take(k as int));
        assert(w.take(k + 1).last() == w[k as int]);
        let ghost d0 = string_views(disconnected@);
        let ghost k0 = string_views(kept@);
        if contains_string(active, all[k].as_str()) {
            kept.push(all[k].clone());
            assert(string_views(kept@) =~= k0.push(w[k as int]));
        } else {
            disconnected.push(all[k].clone());
            assert(string_views(disconnected@) =~= d0.push(w[k as int]));
        }
        k = k + 1;
    }
    assert(w.take(k as int) =~= w);
    BridgeChanges { connected, disconnected, known: kept }
}

/// The log line of a bridge connecting or disconnecting.
pub fn bridge_event_line(bridge: &str, connected: bool) -> (r: String)
    ensures
        connected ==> r@ == "[INFO] [Bridge] "@ + bridge_display_name(bridge@)
            + " connected to dora dataflow"@,
        !connected ==> r@ == "[WARN] [Bridge] "@ + bridge_display_name(bridge@)
            + " disconnected from dora dataflow"@,
{
    let name = format_bridge_name(bridge);
    let mut v = if connected {
        chars_of("[INFO] [Bridge] ")
    } else {
        chars_of("[WARN] [Bridge] ")
    };
    push_str(&mut v, name.as_str());
    if connected {
        push_str(&mut v, " connected to dora dataflow");
    } else {
        push_str(&mut v, " disconnected from dora dataflow");
    }
    string_from_chars(&v)
}

// ============================================================================
// SETTINGS
// ============================================================================

/// The index of `selected` among the options, or 0 when it is not one.
pub open spec fn option_index_of(options: Seq<Seq<char>>, selected: Seq<char>) -> int
    decreases options.len(),
{
    if options.len() == 0 {
        0
    } else {
        let k = option_index_of(options.drop_last(), selected);
        if options.drop_last().contains(selected) {
            k
        } else if options.last() == selected {
            options.len() - 1
        } else {
            0
        }
    }
}

/// The dropdown index of `selected` among the options: its first position,
/// or 0 when it is not one.
pub fn option_index(options: &Vec<String>, selected: &str) -> (r: usize)
    ensures
        r == option_index_of(string_views(options@), selected@),
{
    let target = chars_of(selected);
    let ghost views = string_views(options@);
    let mut i: usize = 0;
    while i < options.len()
        invariant
            0 <= i <= options.len(),
            views == string_views(options@),
            target@ == selected@,
            !views.take(i as int).contains(selected@),
            option_index_of(views.take(i as int), selected@) == 0,
        decreases options.len() - i,
    {
        let c = chars_of(options[i].as_str());
        assert(views.take(i + 1).drop_last() =~= views.take(i as int));
        if chars_equal(&c, &target) {
            proof {
                lemma_option_index_prefix(views, selected@, i as int);
            }
            return i;
        }
        proof {
            broadcast use vstd::seq_lib::lemma_seq_contains_after_push;

            assert(views.take(i + 1) =~= views.take(i as int).push(views[i as int]));
        }
        i = i + 1;
    }
    assert(views.take(i as int) =~= views);
    0
}

proof fn lemma_option_index_prefix(views: Seq<Seq<char>>, selected: Seq<char>, i: int)
    requires
        0 <= i < views.len(),
        views[i] == selected,
        !views.take(i).contains(selected),
    ensures
        option_index_of(views, selected) == i,
    decreases views.len() - i,
{
    let n = views.len() as int;
    if i + 1 == n {
        assert(views.drop_last() =~= views.take(i));
    } else {
        lemma_option_index_prefix(views.drop_last(), selected, i);
        assert(views.drop_last().take(i) =~= views.take(i));
        assert(views.drop_last()[i] == selected);
        assert(views.drop_last().contains(selected));
    }
}

/// The environment variables carrying the API keys of the LLM providers:
/// each key that is set and not empty, under its variable's name.
pub open spec fn api_key_vars(
    openai: Option<Seq<char>>,
    deepseek: Option<Seq<char>>,
    alibaba: Option<Seq<char>>,
) -> Seq<(Seq<char>, Seq<char>)> {
    key_var("OPENAI_API_KEY"@, openai) + key_var("DEEPSEEK_API_KEY"@, deepseek) + key_var(
        "DASHSCOPE_API_KEY"@,
        alibaba,
    )
}

/// `(name, key)` when the key is set and not empty.
pub open spec fn key_var(name: Seq<char>, key: Option<Seq<char>>) -> Seq<(Seq<char>, Seq<char>)> {
    match key {
        Some(k) => if k.len() > 0 {
            seq![(name, k)]
        } else {
            Seq::empty()
        },
        None => Seq::empty(),
    }
}

fn push_key_var(out: &mut Vec<(String, String)>, name: &str, key: Option<String>)
    ensures
        final(out)@.map_values(|p: (String, String)| (p.0@, p.1@)) == old(out)@.map_values(
            |p: (String, String)| (p.0@, p.1@),
        ) + key_var(
            name@,
            match key {
                Some(k) => Some(k@),
                None => None,
            },
        ),
{
    match key {
        Some(k) => {
            let c = chars_of(k.as_str());
            if c.len() > 0 {
                let ghost kv = k@;
                out.push((name.to_owned(), k));
                assert(out@.map_values(|p: (String, String)| (p.0@, p.1@)) =~= old(out)@.map_values(
                    |p: (String, String)| (p.0@, p.1@),
                ) + seq![(name@, kv)]);
            } else {
                assert(old(out)@.map_values(|p: (String, String)| (p.0@, p.1@)) + Seq::empty()
                    =~= old(out)@.map_values(|p: (String, String)| (p.0@, p.1@)));
            }
        },
        None => {
            assert(old(out)@.map_values(|p: (String, String)| (p.0@, p.1@)) + Seq::empty()
                =~= old(out)@.map_values(|p: (String, String)| (p.0@, p.1@)));
        },
    }
}

/// The API key variables handed to the dataflow, from the keys stored for
/// OpenAI, DeepSeek and Alibaba Cloud.
pub fn api_key_env_vars(openai: Option<String>, deepseek: Option<String>, alibaba: Option<String>) -> (r: Vec<(String, String)>)
    ensures
        r@.map_values(|p: (String, String)| (p.0@, p.1@)) == api_key_vars(
            match openai {
                Some(k) => Some(k@),
                None => None,
            },
            match deepseek {
                Some(k) => Some(k@),
                None => None,
            },
            match alibaba {
                Some(k) => Some(k@),
                None => None,
            },
        ),
{
    let mut out: Vec<(String, String)> = Vec::new();
    assert(out@.map_values(|p: (String, String)| (p.0@, p.1@)) =~= Seq::empty());
    push_key_var(&mut out, "OPENAI_API_KEY", openai);
    push_key_var(&mut out, "DEEPSEEK_API_KEY", deepseek);
    push_key_var(&mut out, "DASHSCOPE_API_KEY", alibaba);
    out
}

} // verus!
