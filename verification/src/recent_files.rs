//! Recent files: the last five imported script files, most recent first.
use vstd::prelude::*;
use crate::text::{chars_of, decimal, decimal_chars, push_all, push_str, string_from_chars};
use crate::transcript::Transcript;

verus! {

/// Maximum number of recent files to track.
pub const MAX_RECENT_FILES: usize = 5;

/// What std's `Path::file_name` gives for a path: its last component, unless
/// that is `..` or the path ends in a root or prefix.
pub uninterp spec fn path_file_name(path: Seq<char>) -> Option<Seq<char>>;

/// What std's `Path::file_stem` gives for a path: its file name without the
/// last extension.
pub uninterp spec fn path_file_stem(path: Seq<char>) -> Option<Seq<char>>;

/// The file name of `path` without its extension, from std's
/// `Path::file_stem`; it converts without loss as `file_name_of` does.
#[verifier::external_body]
pub(crate) fn file_stem_of(path: &str) -> (r: Option<String>)
    ensures
        r is Some <==> path_file_stem(path@) is Some,
        r matches Some(n) ==> path_file_stem(path@) == Some(n@),
{
    match std::path::Path::new(path).file_stem() {
        Some(n) => Some(n.to_string_lossy().into_owned()),
        None => None,
    }
}

/// Whether std's `Path` equality holds between two paths (it compares their
/// components).
pub uninterp spec fn same_path(a: Seq<char>, b: Seq<char>) -> bool;

/// The last component of `path`, from std's `Path::file_name`. The path is a
/// `str`, so the component is valid UTF-8 and converts without loss.
#[verifier::external_body]
pub(crate) fn file_name_of(path: &str) -> (r: Option<String>)
    ensures
        r is Some <==> path_file_name(path@) is Some,
        r matches Some(n) ==> path_file_name(path@) == Some(n@),
{
    match std::path::Path::new(path).file_name() {
        Some(n) => Some(n.to_string_lossy().into_owned()),
        None => None,
    }
}

/// A path written in one way only: no backslash or `:`, no repeated `/`, no `.`
/// component and no trailing `/`. std's `Path::components` documents that it
/// normalises only repeated separators, `.` components (but a leading one)
/// and a trailing separator, so two such paths have the same components
/// exactly when they are the same text.
pub open spec fn plain_path(p: Seq<char>) -> bool {
    &&& forall|i: int| 0 <= i < p.len() ==> p[i] != '\\' && p[i] != ':'
    &&& forall|i: int| 1 <= i < p.len() && #[trigger] p[i] == '/' ==> p[i - 1] != '/'
    &&& p.len() > 0 ==> p.last() != '/'
    &&& forall|i: int|
        0 <= i < p.len() && #[trigger] p[i] == '.' ==> !((i == 0 || p[i - 1] == '/') && (i + 1
            == p.len() || p[i + 1] == '/'))
}

/// std's `Path` equality on two paths. It compares components, so the same
/// text is the same path; and two plain paths (see [`plain_path`]) are the
/// same path only when they are the same text.
#[verifier::external_body]
fn paths_equal(a: &str, b: &str) -> (r: bool)
    ensures
        r == same_path(a@, b@),
        a@ == b@ ==> r,
        plain_path(a@) && plain_path(b@) && r ==> a@ == b@,
{
    std::path::Path::new(a) == std::path::Path::new(b)
}

/// Recent file entry with metadata.
#[derive(Debug)]
pub struct RecentFile {
    /// File path
    pub path: String,
    /// File name (for display)
    pub name: String,
    /// Message count
    pub message_count: usize,
    /// Speaker count
    pub speaker_count: usize,
    /// Last opened timestamp (seconds since the Unix epoch)
    pub last_opened: u64,
}

/// The display name of a path: its file name, or `Unknown`.
pub open spec fn display_name_of(path: Seq<char>) -> Seq<char> {
    match path_file_name(path) {
        Some(n) => n,
        None => "Unknown"@,
    }
}

/// "`name` • `messages` msgs • `speakers` speakers".
pub open spec fn recent_display(name: Seq<char>, messages: nat, speakers: nat) -> Seq<char> {
    name + " • "@ + decimal(messages) + " msgs • "@ + decimal(speakers) + " speakers"@
}

impl RecentFile {
    /// Create a new recent file entry for a transcript imported from `path`
    /// at `last_opened` (seconds since the Unix epoch).
    pub fn new(path: String, transcript: &Transcript, last_opened: u64) -> (r: Self)
        ensures
            r.path@ == path@,
            r.name@ == display_name_of(path@),
            r.message_count == transcript.messages.len(),
            r.speaker_count == transcript.metadata.participants.len(),
            r.last_opened == last_opened,
    {
        let name = match file_name_of(path.as_str()) {
            Some(n) => n,
            None => "Unknown".to_owned(),
        };
        RecentFile {
            path,
            name,
            message_count: transcript.message_count(),
            speaker_count: transcript.metadata.participants.len(),
            last_opened,
        }
    }

    /// Format for display in UI.
    pub fn format_display(&self) -> (r: String)
        ensures
            r@ == recent_display(self.name@, self.message_count as nat, self.speaker_count as nat),
    {
        let mut v = chars_of(self.name.as_str());
        push_str(&mut v, " • ");
        let m = decimal_chars(self.message_count as u64);
        push_all(&mut v, &m);
        push_str(&mut v, " msgs • ");
        let s = decimal_chars(self.speaker_count as u64);
        push_all(&mut v, &s);
        push_str(&mut v, " speakers");
        string_from_chars(&v)
    }
}

/// The entries whose path is not `path`, in order.
pub open spec fn others(files: Seq<RecentFile>, path: Seq<char>) -> Seq<RecentFile>
    decreases files.len(),
{
    if files.len() == 0 {
        Seq::empty()
    } else {
        let rest = others(files.drop_last(), path);
        if same_path(files.last().path@, path) {
            rest
        } else {
            rest.push(files.last())
        }
    }
}

/// The list after `file` is added: `file` first, then the other entries in
/// their order, at most [`MAX_RECENT_FILES`] in all.
pub open spec fn after_add(files: Seq<RecentFile>, file: RecentFile) -> Seq<RecentFile> {
    let l = seq![file] + others(files, file.path@);
    if l.len() > MAX_RECENT_FILES {
        l.take(MAX_RECENT_FILES as int)
    } else {
        l
    }
}

/// The entries whose path is not the text `path`, in order.
pub open spec fn others_by_text(files: Seq<RecentFile>, path: Seq<char>) -> Seq<RecentFile>
    decreases files.len(),
{
    if files.len() == 0 {
        Seq::empty()
    } else {
        let rest = others_by_text(files.drop_last(), path);
        if files.last().path@ == path {
            rest
        } else {
            rest.push(files.last())
        }
    }
}

/// Every path of the list is plain.
pub open spec fn plain_paths(files: Seq<RecentFile>) -> bool {
    forall|i: int| 0 <= i < files.len() ==> plain_path(#[trigger] files[i].path@)
}

/// No entry has the path of an entry before it.
pub open spec fn distinct_paths(files: Seq<RecentFile>) -> bool {
    forall|i: int, j: int|
        0 <= i < j < files.len() ==> !same_path(
            #[trigger] files[j].path@,
            #[trigger] files[i].path@,
        )
}

/// `x` comes before `y` in `files`.
pub open spec fn ordered_in(files: Seq<RecentFile>, x: RecentFile, y: RecentFile) -> bool {
    exists|a: int, b: int| 0 <= a < b < files.len() && files[a] == x && files[b] == y
}

proof fn lemma_others(files: Seq<RecentFile>, path: Seq<char>)
    ensures
        others(files, path).len() <= files.len(),
        forall|k: int|
            0 <= k < others(files, path).len() ==> !same_path(
                (#[trigger] others(files, path)[k]).path@,
                path,
            ) && files.contains(others(files, path)[k]),
        forall|k: int, l: int|
            0 <= k < l < others(files, path).len() ==> #[trigger] ordered_in(
                files,
                others(files, path)[k],
                others(files, path)[l],
            ),
    decreases files.len(),
{
    if files.len() > 0 {
        let init = files.drop_last();
        lemma_others(init, path);
        let o = others(files, path);
        let oi = others(init, path);
        assert forall|k: int| 0 <= k < o.len() implies files.contains(o[k]) by {
            if k < oi.len() {
                let w = choose|a: int| 0 <= a < init.len() && init[a] == oi[k];
                assert(files[w] == o[k]);
            } else {
                assert(files[files.len() - 1] == o[k]);
            }
        }
        assert forall|k: int, l: int| 0 <= k < l < o.len() implies #[trigger] ordered_in(
            files,
            o[k],
            o[l],
        ) by {
            if l < oi.len() {
                assert(ordered_in(init, oi[k], oi[l]));
                let (a, b) = choose|a: int, b: int|
                    0 <= a < b < init.len() && init[a] == oi[k] && init[b] == oi[l];
                assert(files[a] == o[k] && files[b] == o[l]);
            } else {
                let a = choose|a: int| 0 <= a < init.len() && init[a] == oi[k];
                assert(files[a] == o[k] && files[files.len() - 1] == o[l]);
            }
        }
    }
}

/// Adding a file puts it first, keeps at most five entries, drops any other
/// entry with its path, and keeps the remaining entries in their order; a
/// list without repeated paths stays so.
pub proof fn lemma_add_keeps_recent(files: Seq<RecentFile>, file: RecentFile)
    ensures
        after_add(files, file).len() <= MAX_RECENT_FILES,
        after_add(files, file).len() >= 1,
        after_add(files, file)[0] == file,
        forall|k: int|
            1 <= k < after_add(files, file).len() ==> !same_path(
                (#[trigger] after_add(files, file)[k]).path@,
                file.path@,
            ) && files.contains(after_add(files, file)[k]),
        forall|k: int, l: int|
            1 <= k < l < after_add(files, file).len() ==> #[trigger] ordered_in(
                files,
                after_add(files, file)[k],
                after_add(files, file)[l],
            ),
        distinct_paths(files) ==> distinct_paths(after_add(files, file)),
{
    lemma_others(files, file.path@);
    let o = others(files, file.path@);
    let r = after_add(files, file);
    assert forall|k: int| 1 <= k < r.len() implies r[k] == o[k - 1] by {}
    assert forall|k: int, l: int| 1 <= k < l < r.len() implies #[trigger] ordered_in(
        files,
        r[k],
        r[l],
    ) by {
        assert(r[k] == o[k - 1] && r[l] == o[l - 1]);
        assert(ordered_in(files, o[k - 1], o[l - 1]));
    }
    if distinct_paths(files) {
        assert forall|i: int, j: int| 0 <= i < j < r.len() implies !same_path(
            #[trigger] r[j].path@,
            #[trigger] r[i].path@,
        ) by {
            if i == 0 {
                assert(!same_path(r[j].path@, file.path@));
            } else {
                assert(ordered_in(files, r[i], r[j]));
                let (a, b) = choose|a: int, b: int|
                    0 <= a < b < files.len() && files[a] == r[i] && files[b] == r[j];
                assert(files[a] == r[i] && files[b] == r[j]);
            }
        }
    }
}

/// Manager for the recent files list.
#[derive(Debug)]
pub struct RecentFilesManager {
    /// List of recent files (most recent first)
    files: Vec<RecentFile>,
}

impl RecentFilesManager {
    /// The entries, most recent first.
    pub closed spec fn entries(&self) -> Seq<RecentFile> {
        self.files@
    }

    /// Create a new empty manager.
    pub fn new() -> (r: Self)
        ensures
            r.entries() == Seq::<RecentFile>::empty(),
    {
        RecentFilesManager { files: Vec::new() }
    }

    /// A manager holding `files` as they were stored, most recent first.
    pub fn from_files(files: Vec<RecentFile>) -> (r: Self)
        ensures
            r.entries() == files@,
    {
        RecentFilesManager { files }
    }

    /// Add a new recent file (or update the entry with its path): it goes
    /// first, the list keeps at most five entries. No later entry keeps its
    /// path, so adding a file again moves it to the front without a second
    /// entry; with plain paths, exactly the entries with another path text
    /// stay, in their order.
    pub fn add(&mut self, file: RecentFile)
        ensures
            final(self).entries() == after_add(old(self).entries(), file),
            forall|k: int|
                1 <= k < final(self).entries().len() ==> (#[trigger] final(self).entries()[k]).path@
                    != file.path@,
            plain_path(file.path@) && plain_paths(old(self).entries()) ==> final(self).entries()
                == (if 1 + others_by_text(old(self).entries(), file.path@).len() > MAX_RECENT_FILES {
                (seq![file] + others_by_text(old(self).entries(), file.path@)).take(
                    MAX_RECENT_FILES as int,
                )
            } else {
                seq![file] + others_by_text(old(self).entries(), file.path@)
            }),
    {
        let ghost orig = self.files@;
        let total = self.files.len();
        let mut rest: Vec<RecentFile> = Vec::new();
        std::mem::swap(&mut rest, &mut self.files);
        let mut kept: Vec<RecentFile> = Vec::new();
        let ghost p = file.path@;
        let mut consumed: usize = 0;
        while rest.len() > 0
            invariant
                consumed + rest@.len() == orig.len(),
                orig.len() == total,
                rest@ == orig.skip(consumed as int),
                kept@ == others(orig.take(consumed as int), p),
                forall|k: int| 0 <= k < kept@.len() ==> (#[trigger] kept@[k]).path@ != p,
                plain_path(p) && plain_paths(orig) ==> kept@ == others_by_text(
                    orig.take(consumed as int),
                    p,
                ),
                p == file.path@,
            decreases rest.len(),
        {
            let f = rest.remove(0);
            assert(f == orig[consumed as int]);
            assert(orig.take(consumed + 1).drop_last() =~= orig.take(consumed as int));
            assert(orig.take(consumed + 1).last() == orig[consumed as int]);
            let ghost before = kept@;
            proof {
                if plain_paths(orig) {
                    assert(plain_path(orig[consumed as int].path@));
                }
            }
            if !paths_equal(f.path.as_str(), file.path.as_str()) {
                kept.push(f);
                assert(kept@ =~= before.push(f));
            }
            consumed = consumed + 1;
            assert(rest@ =~= orig.skip(consumed as int));
        }
        assert(orig.take(consumed as int) =~= orig);
        let ghost tail = kept@;
        kept.insert(0, file);
        assert(kept@ =~= seq![file] + others(orig, p));
        assert(kept@ =~= seq![file] + tail);
        if kept.len() > MAX_RECENT_FILES {
            kept.truncate(MAX_RECENT_FILES);
        }
        self.files = kept;
    }

    /// Get all recent files (most recent first).
    pub fn get_all(&self) -> (r: &[RecentFile])
        ensures
            r@ == self.entries(),
    {
        self.files.as_slice()
    }

    /// Clear all recent files.
    pub fn clear(&mut self)
        ensures
            final(self).entries() == Seq::<RecentFile>::empty(),
    {
        self.files.clear();
    }

    /// Check if empty.
    pub fn is_empty(&self) -> (r: bool)
        ensures
            r == (self.entries().len() == 0),
    {
        self.files.is_empty()
    }

    /// Get count.
    pub fn len(&self) -> (r: usize)
        ensures
            r == self.entries().len(),
    {
        self.files.len()
    }
}

} // verus!
