//! What the dora process manager decides from the output of `dora list`,
//! `pgrep` and the system's process table.
use vstd::prelude::*;
use crate::text::{
    chars_equal, chars_of, contains, contains_str, first_non_ws, is_whitespace, is_ws,
    lemma_first_non_ws_bounds, lines, lines_of, char_lines, skip_ws_from, slice_chars,
    string_from_chars, trim, trim_chars,
};
use crate::text::string_views;

verus! {

// ============================================================================
// NUMBERS
// ============================================================================

/// An ASCII decimal digit.
pub open spec fn is_digit(c: char) -> bool {
    '0' <= c && c <= '9'
}

/// The value of a string of decimal digits.
pub open spec fn digits_value(s: Seq<char>) -> nat
    decreases s.len(),
{
    if s.len() == 0 {
        0
    } else {
        digits_value(s.drop_last()) * 10 + ((s.last() as nat) - 48) as nat
    }
}

/// Every character is an ASCII digit.
pub open spec fn all_digits(d: Seq<char>) -> bool {
    forall|i: int| 0 <= i < d.len() ==> is_digit(#[trigger] d[i])
}

/// The text after an optional leading `+`.
pub open spec fn unsigned_digits(s: Seq<char>) -> Seq<char> {
    if s.len() > 0 && s[0] == '+' {
        s.skip(1)
    } else {
        s
    }
}

/// What `str::parse::<u32>` gives: an optional `+`, then one or more ASCII
/// digits whose value fits in 32 bits.
pub open spec fn parsed_u32(s: Seq<char>) -> Option<u32> {
    let d = unsigned_digits(s);
    if d.len() > 0 && all_digits(d) && digits_value(d) <= u32::MAX {
        Some(digits_value(d) as u32)
    } else {
        None
    }
}

/// Parse a process id as `str::parse::<u32>` does.
pub fn parse_pid(s: &Vec<char>) -> (r: Option<u32>)
    ensures
        r == parsed_u32(s@),
{
    let start: usize = if s.len() > 0 && s[0] == '+' {
        1
    } else {
        0
    };
    let ghost d = s@.skip(start as int);
    assert(d =~= unsigned_digits(s@));
    if start >= s.len() {
        return None;
    }
    let mut acc: u64 = 0;
    let mut big = false;
    let mut i: usize = start;
    while i < s.len()
        invariant
            start <= i <= s.len(),
            d == s@.skip(start as int),
            d == unsigned_digits(s@),
            forall|k: int| 0 <= k < i - start ==> is_digit(#[trigger] d[k]),
            !big ==> acc == digits_value(d.take(i - start)),
            !big ==> acc <= u32::MAX,
            big ==> digits_value(d.take(i - start)) > u32::MAX,
        decreases s.len() - i,
    {
        let c = s[i];
        if !('0' <= c && c <= '9') {
            assert(d[i - start] == c);
            assert(!is_digit(d[i - start]));
            assert(!all_digits(d));
            return None;
        }
        proof {
            assert(d.take(i - start + 1).drop_last() =~= d.take(i - start));
            assert(d.take(i - start + 1).last() == c);
        }
        if !big {
            acc = acc * 10 + (c as u64 - 48);
            if acc > 0xffff_ffff {
                big = true;
            }
        }
        i = i + 1;
    }
    assert(d.take(i - start) =~= d);
    if big {
        None
    } else {
        Some(acc as u32)
    }
}

// ============================================================================
// DORA LIST AND PGREP OUTPUT
// ============================================================================

/// Index of the first whitespace character at or after `i` (or `s.len()`).
pub open spec fn next_ws(s: Seq<char>, i: int) -> int
    decreases s.len() - i,
{
    if i >= s.len() {
        s.len() as int
    } else if is_ws(s[i]) {
        i
    } else {
        next_ws(s, i + 1)
    }
}

/// The first whitespace-separated word of a line (what `split_whitespace`
/// yields first), if it has one.
pub open spec fn first_word(l: Seq<char>) -> Option<Seq<char>> {
    let a = first_non_ws(l, 0);
    if a < l.len() {
        Some(l.subrange(a, next_ws(l, a)))
    } else {
        None
    }
}

/// The ids of the running dataflows in the lines of `dora list`: the first
/// word of each line that mentions `Running`.
pub open spec fn running_ids(ls: Seq<Seq<char>>) -> Seq<Seq<char>>
    decreases ls.len(),
{
    if ls.len() == 0 {
        Seq::empty()
    } else {
        let rest = running_ids(ls.drop_last());
        let l = ls.last();
        if contains(l, "Running"@) && first_word(l) is Some {
            rest.push(first_word(l)->0)
        } else {
            rest
        }
    }
}

/// The process ids in the lines of `pgrep` output: each line that parses as
/// a number once trimmed.
pub open spec fn listed_pids(ls: Seq<Seq<char>>) -> Seq<u32>
    decreases ls.len(),
{
    if ls.len() == 0 {
        Seq::empty()
    } else {
        let rest = listed_pids(ls.drop_last());
        match parsed_u32(trim(ls.last())) {
            Some(p) => rest.push(p),
            None => rest,
        }
    }
}

fn first_word_of(l: &Vec<char>) -> (r: Option<Vec<char>>)
    ensures
        match first_word(l@) {
            Some(w) => r matches Some(v) && v@ == w,
            None => r is None,
        },
{
    let a = skip_ws_from(l, 0);
    proof {
        lemma_first_non_ws_bounds(l@, 0);
    }
    if a >= l.len() {
        return None;
    }
    let mut b = a;
    while b < l.len() && !is_whitespace(l[b])
        invariant
            a <= b <= l.len(),
            next_ws(l@, a as int) == next_ws(l@, b as int),
        decreases l.len() - b,
    {
        b = b + 1;
    }
    Some(slice_chars(l, a, b))
}

/// The ids of the running dataflows that `dora list` printed.
pub fn running_dataflow_ids(list_output: &str) -> (r: Vec<String>)
    ensures
        string_views(r@) == running_ids(lines(list_output@)),
{
    let text = chars_of(list_output);
    let ls = lines_of(&text);
    let ghost views = char_lines(ls@);
    let mut r: Vec<String> = Vec::new();
    let mut i: usize = 0;
    while i < ls.len()
        invariant
            0 <= i <= ls.len(),
            views == char_lines(ls@),
            views == lines(list_output@),
            string_views(r@) == running_ids(views.take(i as int)),
        decreases ls.len() - i,
    {
        assert(views.take(i + 1).drop_last() =~= views.take(i as int));
        assert(views.take(i + 1).last() == ls@[i as int]@);
        if contains_str(&ls[i], "Running") {
            match first_word_of(&ls[i]) {
                Some(w) => {
                    let ghost before = r@;
                    r.push(string_from_chars(&w));
                    assert(string_views(r@) =~= string_views(before).push(w@));
                },
                None => {},
            }
        }
        i = i + 1;
    }
    assert(views.take(i as int) =~= views);
    r
}

/// The process ids that `pgrep` printed.
pub fn pgrep_pids(output: &str) -> (r: Vec<u32>)
    ensures
        r@ == listed_pids(lines(output@)),
{
    let text = chars_of(output);
    let ls = lines_of(&text);
    let ghost views = char_lines(ls@);
    let mut r: Vec<u32> = Vec::new();
    let mut i: usize = 0;
    while i < ls.len()
        invariant
            0 <= i <= ls.len(),
            views == char_lines(ls@),
            views == lines(output@),
            r@ == listed_pids(views.take(i as int)),
        decreases ls.len() - i,
    {
        assert(views.take(i + 1).drop_last() =~= views.take(i as int));
        assert(views.take(i + 1).last() == ls@[i as int]@);
        let t = trim_chars(&ls[i]);
        match parse_pid(&t) {
            Some(p) => r.push(p),
            None => {},
        }
        i = i + 1;
    }
    assert(views.take(i as int) =~= views);
    r
}

// ============================================================================
// PROCESS TABLE
// ============================================================================

/// A process of the system's process table.
#[derive(Debug)]
pub struct ProcessInfo {
    /// Process id
    pub pid: u32,
    /// Process name, when it is valid UTF-8
    pub name: Option<String>,
    /// The command line's arguments that are valid UTF-8, joined by spaces
    pub cmd: String,
}

/// The process is named exactly `dora`.
pub open spec fn named_dora(p: ProcessInfo) -> bool {
    p.name matches Some(n) && n@ == "dora"@
}

/// The process's name mentions `dora`.
pub open spec fn dora_related(p: ProcessInfo) -> bool {
    p.name matches Some(n) && contains(n@, "dora"@)
}

/// The ids of the dora-related processes, in table order.
pub open spec fn dora_pid_list(ps: Seq<ProcessInfo>) -> Seq<u32>
    decreases ps.len(),
{
    if ps.len() == 0 {
        Seq::empty()
    } else {
        let rest = dora_pid_list(ps.drop_last());
        if dora_related(ps.last()) {
            rest.push(ps.last().pid)
        } else {
            rest
        }
    }
}

/// A process named `dora` runs the given role: it is the managed child with
/// that id, or its command line mentions the role.
pub open spec fn role_running(child: Option<u32>, role: Seq<char>, ps: Seq<ProcessInfo>) -> bool {
    ||| (child matches Some(pid) && exists|i: int|
        0 <= i < ps.len() && (#[trigger] ps[i]).pid == pid && named_dora(ps[i]))
    ||| exists|i: int| 0 <= i < ps.len() && named_dora(#[trigger] ps[i]) && contains(ps[i].cmd@, role)
}

fn is_named_dora(p: &ProcessInfo) -> (r: bool)
    ensures
        r == named_dora(*p),
{
    match &p.name {
        Some(n) => {
            let c = chars_of(n.as_str());
            let d = chars_of("dora");
            chars_equal(&c, &d)
        },
        None => false,
    }
}

/// The ids of all dora-related processes of the table.
pub fn get_dora_pids(processes: &Vec<ProcessInfo>) -> (r: Vec<u32>)
    ensures
        r@ == dora_pid_list(processes@),
{
    let mut r: Vec<u32> = Vec::new();
    let mut i: usize = 0;
    while i < processes.len()
        invariant
            0 <= i <= processes.len(),
            r@ == dora_pid_list(processes@.take(i as int)),
        decreases processes.len() - i,
    {
        assert(processes@.take(i + 1).drop_last() =~= processes@.take(i as int));
        let related = match &processes[i].name {
            Some(n) => {
                let c = chars_of(n.as_str());
                contains_str(&c, "dora")
            },
            None => false,
        };
        if related {
            r.push(processes[i].pid);
        }
        i = i + 1;
    }
    assert(processes@.take(i as int) =~= processes@);
    r
}

fn role_found(child: Option<u32>, role: &str, processes: &Vec<ProcessInfo>) -> (r: bool)
    ensures
        r == role_running(child, role@, processes@),
{
    let mut i: usize = 0;
    while i < processes.len()
        invariant
            0 <= i <= processes.len(),
            forall|k: int|
                0 <= k < i ==> !((child matches Some(pid) && (#[trigger] processes@[k]).pid == pid
                    && named_dora(processes@[k])) || (named_dora(processes@[k]) && contains(
                    processes@[k].cmd@,
                    role@,
                ))),
        decreases processes.len() - i,
    {
        let p = &processes[i];
        if is_named_dora(p) {
            let is_child = match child {
                Some(pid) => p.pid == pid,
                None => false,
            };
            let cmd = chars_of(p.cmd.as_str());
            if is_child || contains_str(&cmd, role) {
                return true;
            }
        }
        i = i + 1;
    }
    false
}

/// Whether the dora daemon and coordinator both run, judged from the managed
/// children's ids and the process table.
pub fn dora_processes_running(
    daemon_pid: Option<u32>,
    coordinator_pid: Option<u32>,
    processes: &Vec<ProcessInfo>,
) -> (r: bool)
    ensures
        r == (role_running(daemon_pid, "daemon"@, processes@) && role_running(
            coordinator_pid,
            "coordinator"@,
            processes@,
        )),
{
    let daemon = role_found(daemon_pid, "daemon", processes);
    let coordinator = role_found(coordinator_pid, "coordinator", processes);
    daemon && coordinator
}

} // verus!
