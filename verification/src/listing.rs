//! What a reader finds under a base directory: experiments, runs and
//! artifacts. The directories are read by the caller; here their entries are
//! filtered, ordered and described.

use vstd::prelude::*;
use vstd::string::StrSliceExecFns;
use crate::order::{ascending, descending, reversed, sort_names, text_le};
use crate::table::strings_view;
use crate::text::str_eq;

verus! {

/// What an entry of a directory is.
#[derive(Debug, Clone, Copy, PartialEq, Eq, Structural)]
pub enum EntryKind {
    Directory,
    File,
    Other,
}

/// An entry of a directory, as the caller read it.
#[derive(Debug, Clone)]
pub struct DirEntry {
    pub name: String,
    pub kind: EntryKind,
    /// Size in bytes; of a file only.
    pub size: u64,
}

/// An entry as the contracts see it.
pub struct DirEntryView {
    pub name: Seq<char>,
    pub kind: EntryKind,
    pub size: u64,
}

impl View for DirEntry {
    type V = DirEntryView;

    open spec fn view(&self) -> DirEntryView {
        DirEntryView { name: self.name@, kind: self.kind, size: self.size }
    }
}

/// The contract-level content of a list of entries.
pub open spec fn dir_view(entries: Seq<DirEntry>) -> Seq<DirEntryView> {
    Seq::new(entries.len(), |i: int| entries[i]@)
}

/// The names of the directories among the entries, in their order.
pub open spec fn directory_names(entries: Seq<DirEntryView>) -> Seq<Seq<char>>
    decreases entries.len(),
{
    if entries.len() == 0 {
        Seq::empty()
    } else {
        let rest = directory_names(entries.drop_last());
        if entries.last().kind == EntryKind::Directory {
            rest.push(entries.last().name)
        } else {
            rest
        }
    }
}

/// The names of the runs among the entries of an experiment's directory: its
/// directories but for one called `artifacts`.
pub open spec fn run_names(entries: Seq<DirEntryView>) -> Seq<Seq<char>>
    decreases entries.len(),
{
    if entries.len() == 0 {
        Seq::empty()
    } else {
        let rest = run_names(entries.drop_last());
        if entries.last().kind == EntryKind::Directory && entries.last().name != "artifacts"@ {
            rest.push(entries.last().name)
        } else {
            rest
        }
    }
}

/// The experiments under a base directory: the names of its directories, in
/// ascending order.
pub fn list_experiments(entries: &[DirEntry]) -> (names: Vec<String>)
    ensures
        ascending(strings_view(names@)),
        strings_view(names@).to_multiset() == directory_names(dir_view(entries@)).to_multiset(),
{
    let ghost all = dir_view(entries@);
    let mut found: Vec<String> = Vec::new();
    let mut i: usize = 0;
    assert(all.take(0) =~= Seq::empty());
    assert(strings_view(found@) =~= Seq::empty());
    while i < entries.len()
        invariant
            i <= entries.len(),
            all == dir_view(entries@),
            strings_view(found@) == directory_names(all.take(i as int)),
        decreases entries.len() - i,
    {
        let ghost before = strings_view(found@);
        assert(all.take(i + 1).drop_last() =~= all.take(i as int));
        assert(all.take(i + 1).last() == entries@[i as int]@);
        if entries[i].kind == EntryKind::Directory {
            found.push(entries[i].name.clone());
            assert(strings_view(found@) =~= before.push(entries@[i as int].name@));
        }
        i += 1;
    }
    assert(all.take(i as int) =~= all);
    sort_names(found)
}

/// The runs under an experiment's directory: the names of its directories but
/// for `artifacts`, in descending order, which for names made of a time puts
/// the newest first.
pub fn list_runs(entries: &[DirEntry]) -> (names: Vec<String>)
    ensures
        descending(strings_view(names@)),
        strings_view(names@).to_multiset() == run_names(dir_view(entries@)).to_multiset(),
{
    let ghost all = dir_view(entries@);
    let mut found: Vec<String> = Vec::new();
    let mut i: usize = 0;
    assert(all.take(0) =~= Seq::empty());
    assert(strings_view(found@) =~= Seq::empty());
    while i < entries.len()
        invariant
            i <= entries.len(),
            all == dir_view(entries@),
            strings_view(found@) == run_names(all.take(i as int)),
        decreases entries.len() - i,
    {
        let ghost before = strings_view(found@);
        assert(all.take(i + 1).drop_last() =~= all.take(i as int));
        assert(all.take(i + 1).last() == entries@[i as int]@);
        if entries[i].kind == EntryKind::Directory && !str_eq(entries[i].name.as_str(), "artifacts") {
            found.push(entries[i].name.clone());
            assert(strings_view(found@) =~= before.push(entries@[i as int].name@));
        }
        i += 1;
    }
    assert(all.take(i as int) =~= all);
    let sorted = sort_names(found);
    let names = reversed(sorted);
    proof {
        let up = strings_view(sorted@);
        let down = strings_view(names@);
        assert(down =~= up.reverse());
        up.lemma_reverse_to_multiset();
        assert forall|a: int, b: int| 0 <= a < b < down.len() implies text_le(#[trigger] down[b], #[trigger] down[a]) by {
            assert(down[a] == up[up.len() - 1 - a]);
            assert(down[b] == up[up.len() - 1 - b]);
        }
    }
    names
}

/// The runs that go when only the `keep` newest stay: of a list that has the
/// newest first, all but the first `keep`.
pub open spec fn runs_beyond(runs: Seq<Seq<char>>, keep: nat) -> Seq<Seq<char>> {
    if keep <= runs.len() {
        runs.skip(keep as int)
    } else {
        Seq::empty()
    }
}

/// Picks the runs to remove so that the `keep` newest stay.
pub fn stale_runs(runs: Vec<String>, keep: usize) -> (stale: Vec<String>)
    ensures
        strings_view(stale@) == runs_beyond(strings_view(runs@), keep as nat),
{
    if keep > runs.len() {
        let none: Vec<String> = Vec::new();
        assert(strings_view(none@) =~= Seq::empty());
        return none;
    }
    let mut kept = runs;
    let stale = kept.split_off(keep);
    assert(strings_view(stale@) =~= strings_view(runs@).skip(keep as int));
    stale
}

/// A file of a run, as a reader is told of it.
#[derive(Debug, Clone)]
pub struct ArtifactInfo {
    /// Path below the run's directory for a reserved file, below its artifact
    /// directory for any other.
    pub path: String,
    /// File name.
    pub name: String,
    /// Size in bytes.
    pub size: u64,
    /// Extension of the file name, in lower case, without the dot.
    pub ext: String,
    /// Whether this is one of the files that the store itself keeps at the
    /// root of a run.
    pub is_default: bool,
}

/// An artifact as the contracts see it.
pub struct ArtifactView {
    pub path: Seq<char>,
    pub name: Seq<char>,
    pub size: u64,
    pub ext: Seq<char>,
    pub is_default: bool,
}

impl View for ArtifactInfo {
    type V = ArtifactView;

    open spec fn view(&self) -> ArtifactView {
        ArtifactView {
            path: self.path@,
            name: self.name@,
            size: self.size,
            ext: self.ext@,
            is_default: self.is_default,
        }
    }
}

/// The contract-level content of a list of artifacts.
pub open spec fn artifacts_view(artifacts: Seq<ArtifactInfo>) -> Seq<ArtifactView> {
    Seq::new(artifacts.len(), |i: int| artifacts[i]@)
}

/// The text in lower case, as `str::to_lowercase` gives it.
pub uninterp spec fn lowercase_text(text: Seq<char>) -> Seq<char>;

/// Calls `str::to_lowercase`.
#[verifier::external_body]
pub(crate) fn lowercase(text: &str) -> (r: String)
    ensures
        r@ == lowercase_text(text@),
{
    text.to_lowercase()
}

/// Index of the last dot of a name; -1 where it has none.
pub open spec fn last_dot(name: Seq<char>) -> int
    decreases name.len(),
{
    if name.len() == 0 {
        -1
    } else if name.last() == '.' {
        name.len() - 1
    } else {
        last_dot(name.drop_last())
    }
}

/// The extension of a file name: what follows its last dot, unless the name
/// has no dot or only the one it begins with.
pub open spec fn extension_of(name: Seq<char>) -> Seq<char> {
    let dot = last_dot(name);
    if dot <= 0 {
        Seq::empty()
    } else {
        name.subrange(dot + 1, name.len() as int)
    }
}

/// The extension of a file name, as it stands.
pub fn file_extension(name: &str) -> (r: String)
    ensures
        r@ == extension_of(name@),
{
    let len: usize = name.unicode_len();
    let mut i: usize = len;
    assert(name@.take(i as int) =~= name@);
    while i > 0
        invariant
            i <= len,
            len == name@.len(),
            last_dot(name@) == last_dot(name@.take(i as int)),
        decreases i,
    {
        assert(name@.take(i as int).drop_last() =~= name@.take(i - 1));
        assert(name@.take(i as int).last() == name@[i - 1]);
        if name.get_char(i - 1) == '.' {
            if i - 1 == 0 {
                return String::new();
            }
            return name.substring_char(i, len).to_owned();
        }
        i -= 1;
    }
    String::new()
}

/// Whether a file at the root of a run is one that the store itself keeps.
pub open spec fn is_reserved(name: Seq<char>) -> bool {
    ||| name == "metrics.parquet"@
    ||| name == "config.yaml"@
    ||| name == "run.yaml"@
    ||| name == "run.log"@
    ||| name == "console.log"@
}

/// Whether a file at the root of a run is one that the store itself keeps.
pub fn is_reserved_name(name: &str) -> (r: bool)
    ensures
        r == is_reserved(name@),
{
    str_eq(name, "metrics.parquet") || str_eq(name, "config.yaml") || str_eq(name, "run.yaml")
        || str_eq(name, "run.log") || str_eq(name, "console.log")
}

/// What a reader is told of a file.
pub open spec fn described(path: Seq<char>, name: Seq<char>, size: u64, is_default: bool) -> ArtifactView {
    ArtifactView { path, name, size, ext: lowercase_text(extension_of(name)), is_default }
}

/// Describes a file.
pub fn describe_file(path: &str, name: &str, size: u64, is_default: bool) -> (r: ArtifactInfo)
    ensures
        r@ == described(path@, name@, size, is_default),
{
    let ext = lowercase(file_extension(name).as_str());
    ArtifactInfo { path: path.to_owned(), name: name.to_owned(), size, ext, is_default }
}

/// A file found below a run's artifact directory.
#[derive(Debug, Clone)]
pub struct SavedFile {
    /// Path below the artifact directory.
    pub path: String,
    /// File name.
    pub name: String,
    /// Size in bytes.
    pub size: u64,
}

/// The reserved files among the entries of a run's directory, in their order.
pub open spec fn default_artifacts(entries: Seq<DirEntryView>) -> Seq<ArtifactView>
    decreases entries.len(),
{
    if entries.len() == 0 {
        Seq::empty()
    } else {
        let rest = default_artifacts(entries.drop_last());
        let e = entries.last();
        if e.kind == EntryKind::File && is_reserved(e.name) {
            rest.push(described(e.name, e.name, e.size, true))
        } else {
            rest
        }
    }
}

/// The files saved by the user, in their order.
pub open spec fn saved_artifacts(files: Seq<SavedFile>) -> Seq<ArtifactView> {
    Seq::new(files.len(), |i: int| described(files[i].path@, files[i].name@, files[i].size, false))
}

/// The files of a run: first the reserved files at its root, marked as such,
/// then the files below its artifact directory, each list in the order in
/// which it was found.
pub fn list_artifacts(root: &[DirEntry], saved: &[SavedFile]) -> (files: Vec<ArtifactInfo>)
    ensures
        artifacts_view(files@) == default_artifacts(dir_view(root@)) + saved_artifacts(saved@),
{
    let ghost all = dir_view(root@);
    let mut files: Vec<ArtifactInfo> = Vec::new();
    let mut i: usize = 0;
    assert(all.take(0) =~= Seq::empty());
    assert(artifacts_view(files@) =~= Seq::empty());
    while i < root.len()
        invariant
            i <= root.len(),
            all == dir_view(root@),
            artifacts_view(files@) == default_artifacts(all.take(i as int)),
        decreases root.len() - i,
    {
        let ghost before = artifacts_view(files@);
        assert(all.take(i + 1).drop_last() =~= all.take(i as int));
        assert(all.take(i + 1).last() == root@[i as int]@);
        let entry = &root[i];
        if entry.kind == EntryKind::File && is_reserved_name(entry.name.as_str()) {
            files.push(describe_file(entry.name.as_str(), entry.name.as_str(), entry.size, true));
            assert(artifacts_view(files@) =~= before.push(described(entry.name@, entry.name@, entry.size, true)));
        }
        i += 1;
    }
    assert(all.take(i as int) =~= all);
    let ghost defaults = artifacts_view(files@);
    let mut j: usize = 0;
    while j < saved.len()
        invariant
            j <= saved.len(),
            defaults == default_artifacts(all),
            artifacts_view(files@) == defaults + saved_artifacts(saved@).take(j as int),
        decreases saved.len() - j,
    {
        let ghost before = artifacts_view(files@);
        let file = &saved[j];
        files.push(describe_file(file.path.as_str(), file.name.as_str(), file.size, false));
        assert(artifacts_view(files@) =~= before.push(saved_artifacts(saved@)[j as int]));
        assert(saved_artifacts(saved@).take(j + 1) =~= saved_artifacts(saved@).take(j as int).push(
            saved_artifacts(saved@)[j as int],
        ));
        j += 1;
    }
    assert(saved_artifacts(saved@).take(j as int) =~= saved_artifacts(saved@));
    files
}

} // verus!
