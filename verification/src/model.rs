//! The mathematical model of the store: the trees directory as a sequence of
//! entries, and the create / list / delete operations as functions on that
//! model. The executable store's contracts are stated against these.

use vstd::prelude::*;
use vstd::string::StringExecFns;
use crate::naming::{valid_name, file_name_of, path_in_dir, is_workspace_file, stem_of};

verus! {

/// Why an operation failed.
#[derive(Clone, Copy, Debug, PartialEq, Eq, Structural)]
pub enum StoreError {
    /// The trees directory could not be resolved, created or read.
    DirectoryUnavailable,
    /// A workspace of that name already exists.
    Conflict,
    /// No workspace of that name exists.
    NotFound,
    /// The backing file could not be allocated, the name being unusable or
    /// the filesystem refusing it.
    FileCreateFailed,
    /// The backing file exists but could not be removed.
    FileDeleteFailed,
    /// A directory entry's metadata could not be read while listing.
    MetadataReadFailed,
}

impl StoreError {
    /// The human-readable message a failure carries across the boundary.
    pub fn message(&self) -> (r: String)
        ensures
            self is DirectoryUnavailable ==> r@ == "could not resolve or create the trees directory"@,
            self is Conflict ==> r@ == "a workspace of that name already exists"@,
            self is NotFound ==> r@ == "no workspace of that name exists"@,
            self is FileCreateFailed ==> r@ == "could not allocate the workspace file"@,
            self is FileDeleteFailed ==> r@ == "could not remove the workspace file"@,
            self is MetadataReadFailed ==> r@ == "could not read a workspace file's metadata"@,
    {
        match self {
            StoreError::DirectoryUnavailable => String::from_str(
                "could not resolve or create the trees directory",
            ),
            StoreError::Conflict => String::from_str("a workspace of that name already exists"),
            StoreError::NotFound => String::from_str("no workspace of that name exists"),
            StoreError::FileCreateFailed => String::from_str(
                "could not allocate the workspace file",
            ),
            StoreError::FileDeleteFailed => String::from_str("could not remove the workspace file"),
            StoreError::MetadataReadFailed => String::from_str(
                "could not read a workspace file's metadata",
            ),
        }
    }
}

/// One directory entry of the trees directory: its file name, the size of the
/// file, and its creation time when the filesystem exposed one.
pub struct EntryView {
    pub file_name: Seq<char>,
    pub size: u64,
    pub created: Option<u64>,
}

/// One workspace as reported to callers: its name, the full path of its
/// backing file, and the creation time of that file.
pub struct WorkspaceView {
    pub name: Seq<char>,
    pub path: Seq<char>,
    pub created_at: u64,
}

/// The whole store: where the trees directory lives, whether it exists yet,
/// and what it holds.
pub struct StoreView {
    pub trees_dir: Seq<char>,
    pub dir_exists: bool,
    pub entries: Seq<EntryView>,
}

/// Keeps the entries that do not back the workspace file `f`.
pub open spec fn keeps(f: Seq<char>) -> spec_fn(EntryView) -> bool {
    |e: EntryView| e.file_name != f
}

/// Selects the entries that are workspace files.
pub open spec fn is_ws_entry() -> spec_fn(EntryView) -> bool {
    |e: EntryView| is_workspace_file(e.file_name)
}

/// Turns a workspace entry of the directory `dir` into the workspace it backs.
pub open spec fn to_workspace(dir: Seq<char>) -> spec_fn(EntryView) -> WorkspaceView {
    |e: EntryView| WorkspaceView {
        name: stem_of(e.file_name),
        path: path_in_dir(dir, e.file_name),
        created_at: e.created->Some_0,
    }
}

impl StoreView {
    /// Well-formedness: entry file names are unique and themselves valid, and
    /// a directory that does not exist holds nothing.
    pub open spec fn wf(self) -> bool {
        &&& forall|i: int, j: int|
            0 <= i < self.entries.len() && 0 <= j < self.entries.len() && i != j
                ==> self.entries[i].file_name != self.entries[j].file_name
        &&& forall|i: int| 0 <= i < self.entries.len() ==> valid_name(#[trigger] self.entries[i].file_name)
        &&& !self.dir_exists ==> self.entries.len() == 0
    }

    /// Whether some entry carries the file name `f`.
    pub open spec fn has_file(self, f: Seq<char>) -> bool {
        exists|i: int| 0 <= i < self.entries.len() && self.entries[i].file_name == f
    }

    /// The entries that are workspace files, in directory order.
    pub open spec fn workspace_entries(self) -> Seq<EntryView> {
        self.entries.filter(is_ws_entry())
    }

    /// Every workspace file's creation time could be read.
    pub open spec fn all_metadata_present(self) -> bool {
        forall|i: int|
            0 <= i < self.entries.len() && is_workspace_file(#[trigger] self.entries[i].file_name)
                ==> self.entries[i].created is Some
    }

    /// What creating the workspace `n` at time `now` returns: the fresh
    /// workspace, or Conflict when the name is taken, or FileCreateFailed
    /// when the name is unusable.
    pub open spec fn create_result(self, n: Seq<char>, now: u64) -> Result<WorkspaceView, StoreError> {
        if !valid_name(n) {
            Err(StoreError::FileCreateFailed)
        } else if self.has_file(file_name_of(n)) {
            Err(StoreError::Conflict)
        } else {
            Ok(WorkspaceView {
                name: n,
                path: path_in_dir(self.trees_dir, file_name_of(n)),
                created_at: now,
            })
        }
    }

    /// The store after creating the workspace `n` at time `now`: on success
    /// the trees directory exists and holds one more entry, a zero-length
    /// file backing `n`; on failure the store is unchanged.
    pub open spec fn create_post(self, n: Seq<char>, now: u64) -> StoreView {
        if self.create_result(n, now) is Ok {
            StoreView {
                dir_exists: true,
                entries: self.entries.push(EntryView {
                    file_name: file_name_of(n),
                    size: 0,
                    created: Some(now),
                }),
                ..self
            }
        } else {
            self
        }
    }

    /// What listing returns: the workspaces backed by the directory's
    /// workspace files, in directory order; an absent directory lists as
    /// empty; a workspace file without readable metadata fails the listing.
    pub open spec fn list_result(self) -> Result<Seq<WorkspaceView>, StoreError> {
        if !self.dir_exists {
            Ok(Seq::<WorkspaceView>::empty())
        } else if !self.all_metadata_present() {
            Err(StoreError::MetadataReadFailed)
        } else {
            Ok(self.workspace_entries().map_values(to_workspace(self.trees_dir)))
        }
    }

    /// What deleting the workspace `n` returns: success exactly when a
    /// workspace of that name exists.
    pub open spec fn delete_result(self, n: Seq<char>) -> Result<(), StoreError> {
        if valid_name(n) && self.has_file(file_name_of(n)) {
            Ok(())
        } else {
            Err(StoreError::NotFound)
        }
    }

    /// The store after deleting the workspace `n`: on success its backing
    /// file is gone and everything else stays; on failure the store is
    /// unchanged.
    pub open spec fn delete_post(self, n: Seq<char>) -> StoreView {
        if self.delete_result(n) is Ok {
            StoreView { entries: self.entries.filter(keeps(file_name_of(n))), ..self }
        } else {
            self
        }
    }
}

/// Filtering a sequence extended by one element keeps the old result and
/// appends the element exactly when it passes.
pub proof fn lemma_filter_push<A>(s: Seq<A>, pred: spec_fn(A) -> bool, e: A)
    ensures
        pred(e) ==> s.push(e).filter(pred) == s.filter(pred).push(e),
        !pred(e) ==> s.push(e).filter(pred) == s.filter(pred),
{
    reveal(Seq::filter);
    assert(s.push(e).drop_last() =~= s);
    assert(s.push(e).last() == e);
}

/// Filtering a prefix one element longer extends the filtered prefix by that
/// element exactly when it passes.
pub proof fn lemma_filter_take_step<A>(s: Seq<A>, pred: spec_fn(A) -> bool, i: int)
    requires
        0 <= i < s.len(),
    ensures
        pred(s[i]) ==> s.take(i + 1).filter(pred) == s.take(i).filter(pred).push(s[i]),
        !pred(s[i]) ==> s.take(i + 1).filter(pred) == s.take(i).filter(pred),
{
    assert(s.take(i + 1) =~= s.take(i).push(s[i]));
    lemma_filter_push(s.take(i), pred, s[i]);
}

/// A filter that every element passes changes nothing.
pub proof fn lemma_filter_all_true<A>(s: Seq<A>, pred: spec_fn(A) -> bool)
    requires
        forall|i: int| 0 <= i < s.len() ==> pred(#[trigger] s[i]),
    ensures
        s.filter(pred) == s,
    decreases s.len(),
{
    reveal(Seq::filter);
    if s.len() > 0 {
        lemma_filter_all_true(s.drop_last(), pred);
        assert(s.drop_last().push(s.last()) =~= s);
    }
}

/// Every element of a filtered sequence is an element of the original.
pub proof fn lemma_filter_subset<A>(s: Seq<A>, pred: spec_fn(A) -> bool)
    ensures
        forall|i: int|
            0 <= i < s.filter(pred).len() ==> s.contains(#[trigger] s.filter(pred)[i]),
    decreases s.len(),
{
    reveal(Seq::filter);
    if s.len() > 0 {
        let rest = s.drop_last();
        lemma_filter_subset(rest, pred);
        assert forall|i: int|
            0 <= i < s.filter(pred).len() implies s.contains(#[trigger] s.filter(pred)[i]) by {
            if i < rest.filter(pred).len() {
                assert(rest.contains(rest.filter(pred)[i]));
                let j = choose|j: int| 0 <= j < rest.len() && rest[j] == rest.filter(pred)[i];
                assert(s[j] == s.filter(pred)[i]);
            } else {
                assert(s.filter(pred)[i] == s.last());
            }
        }
    }
}

/// Removing the one entry that carries a file name is the same as filtering
/// that file name out.
pub proof fn lemma_remove_unique_is_filter(s: Seq<EntryView>, f: Seq<char>, i: int)
    requires
        0 <= i < s.len(),
        s[i].file_name == f,
        forall|j: int| 0 <= j < s.len() && j != i ==> s[j].file_name != f,
    ensures
        s.remove(i) == s.filter(keeps(f)),
    decreases s.len(),
{
    reveal(Seq::filter);
    if i == s.len() - 1 {
        assert(s.remove(i) =~= s.drop_last());
        lemma_filter_all_true(s.drop_last(), keeps(f));
    } else {
        lemma_remove_unique_is_filter(s.drop_last(), f, i);
        assert(s.remove(i) =~= s.drop_last().remove(i).push(s.last()));
        assert(s.filter(keeps(f)) == s.drop_last().filter(keeps(f)).push(s.last()));
    }
}

} // verus!
