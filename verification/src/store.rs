//! The executable workspace store. It mirrors the trees directory as a
//! sequence of entries and carries out create, list and delete on that
//! mirror; every contract is stated against the model in `model`.

use vstd::prelude::*;
use vstd::string::StringExecFns;
use crate::naming::{
    valid_name, file_name_of, is_workspace_file, check_name, workspace_file_name, entry_path,
    parse_workspace_file, lemma_file_name_valid,
};
use crate::model::{
    StoreError, EntryView, WorkspaceView, StoreView, is_ws_entry, to_workspace, keeps,
    lemma_filter_take_step, lemma_remove_unique_is_filter,
};

verus! {

/// One directory entry of the trees directory, as the store mirrors it.
pub struct FileEntry {
    pub file_name: String,
    pub size: u64,
    pub created: Option<u64>,
}

impl View for FileEntry {
    type V = EntryView;

    open spec fn view(&self) -> EntryView {
        EntryView { file_name: self.file_name@, size: self.size, created: self.created }
    }
}

/// One workspace as handed to callers.
#[derive(Debug)]
pub struct Workspace {
    pub name: String,
    pub path: String,
    pub created_at: u64,
}

impl View for Workspace {
    type V = WorkspaceView;

    open spec fn view(&self) -> WorkspaceView {
        WorkspaceView { name: self.name@, path: self.path@, created_at: self.created_at }
    }
}

/// The view of each workspace in a listing.
pub open spec fn ws_view_fn() -> spec_fn(Workspace) -> WorkspaceView {
    |w: Workspace| w@
}

/// The store over one trees directory.
pub struct WorkspaceStore {
    trees_dir: String,
    dir_exists: bool,
    entries: Vec<FileEntry>,
}

impl View for WorkspaceStore {
    type V = StoreView;

    closed spec fn view(&self) -> StoreView {
        StoreView {
            trees_dir: self.trees_dir@,
            dir_exists: self.dir_exists,
            entries: self.entries@.map_values(|e: FileEntry| e@),
        }
    }
}

impl WorkspaceStore {
    /// A store over the trees directory at `trees_dir`, which is taken not
    /// to exist yet and so holds no workspace.
    pub fn new(trees_dir: String) -> (s: Self)
        ensures
            s@ == (StoreView {
                trees_dir: trees_dir@,
                dir_exists: false,
                entries: Seq::<EntryView>::empty(),
            }),
            s@.wf(),
    {
        let s = WorkspaceStore { trees_dir, dir_exists: false, entries: Vec::new() };
        proof {
            assert(s@.entries =~= Seq::<EntryView>::empty());
        }
        s
    }

    /// The location of the trees directory.
    pub fn trees_dir(&self) -> (r: &str)
        ensures
            r@ == self@.trees_dir,
    {
        self.trees_dir.as_str()
    }

    /// Notes that the trees directory exists, possibly empty.
    pub fn mark_dir_exists(&mut self)
        ensures
            final(self)@ == (StoreView { dir_exists: true, ..old(self)@ }),
            old(self)@.wf() ==> final(self)@.wf(),
    {
        self.dir_exists = true;
    }

    /// Records one directory entry found in the trees directory. The entry is
    /// taken exactly when its file name is usable and not recorded already;
    /// recording anything means the directory exists.
    pub fn record_entry(&mut self, file_name: String, size: u64, created: Option<u64>) -> (r: bool)
        requires
            old(self)@.wf(),
        ensures
            final(self)@.wf(),
            r == (valid_name(file_name@) && !old(self)@.has_file(file_name@)),
            r ==> final(self)@ == (StoreView {
                dir_exists: true,
                entries: old(self)@.entries.push(EntryView { file_name: file_name@, size, created }),
                ..old(self)@
            }),
            !r ==> final(self)@ == old(self)@,
    {
        if !check_name(file_name.as_str()) {
            return false;
        }
        let n = self.entries.len();
        let mut i: usize = 0;
        while i < n
            invariant
                old(self)@.wf(),
                self@ == old(self)@,
                n == self.entries.len(),
                i <= n,
                forall|j: int| 0 <= j < i ==> self@.entries[j].file_name != file_name@,
            decreases n - i,
        {
            if self.entries[i].file_name == file_name {
                proof {
                    assert(old(self)@.entries[i as int].file_name == file_name@);
                }
                return false;
            }
            i = i + 1;
        }
        self.entries.push(FileEntry { file_name, size, created });
        self.dir_exists = true;
        proof {
            assert(self@.entries =~= old(self)@.entries.push(
                EntryView { file_name: file_name@, size, created },
            ));
        }
        true
    }

    /// Creates the workspace `name` at time `now`: allocates a fresh
    /// zero-length backing file in the trees directory, bringing the
    /// directory into being if needed, and returns the new workspace.
    /// Fails with Conflict when the name is already taken, and with
    /// FileCreateFailed when the name is unusable; failure changes nothing.
    pub fn create_workspace(&mut self, name: &str, now: u64) -> (r: Result<Workspace, StoreError>)
        requires
            old(self)@.wf(),
        ensures
            final(self)@.wf(),
            final(self)@ == old(self)@.create_post(name@, now),
            (match old(self)@.create_result(name@, now) {
                Ok(wv) => r matches Ok(w) && w@ == wv,
                Err(e) => r matches Err(e2) && e2 == e,
            }),
    {
        if !check_name(name) {
            return Err(StoreError::FileCreateFailed);
        }
        let file_name = workspace_file_name(name);
        let n = self.entries.len();
        let mut i: usize = 0;
        while i < n
            invariant
                old(self)@.wf(),
                self@ == old(self)@,
                n == self.entries.len(),
                i <= n,
                valid_name(name@),
                file_name@ == file_name_of(name@),
                forall|j: int| 0 <= j < i ==> self@.entries[j].file_name != file_name@,
            decreases n - i,
        {
            if self.entries[i].file_name == file_name {
                proof {
                    assert(old(self)@.entries[i as int].file_name == file_name_of(name@));
                    assert(old(self)@.has_file(file_name_of(name@)));
                }
                return Err(StoreError::Conflict);
            }
            i = i + 1;
        }
        proof {
            assert(!old(self)@.has_file(file_name_of(name@)));
            lemma_file_name_valid(name@);
        }
        let path = entry_path(self.trees_dir.as_str(), file_name.as_str());
        let owned_name = String::from_str(name);
        self.entries.push(FileEntry { file_name, size: 0, created: Some(now) });
        self.dir_exists = true;
        proof {
            assert(self@.entries =~= old(self)@.entries.push(
                EntryView { file_name: file_name_of(name@), size: 0, created: Some(now) },
            ));
        }
        Ok(Workspace { name: owned_name, path, created_at: now })
    }

    /// Lists the workspaces the trees directory holds: one per file carrying
    /// the workspace suffix, in directory order; other files are ignored. An
    /// absent directory lists as empty. Fails with MetadataReadFailed when
    /// some workspace file's creation time could not be read.
    pub fn list_workspaces(&self) -> (r: Result<Vec<Workspace>, StoreError>)
        requires
            self@.wf(),
        ensures
            (match r {
                Ok(v) => self@.list_result() matches Ok(ws) && v@.map_values(ws_view_fn()) == ws,
                Err(e) => self@.list_result() matches Err(e2) && e2 == e,
            }),
    {
        if !self.dir_exists {
            let empty: Vec<Workspace> = Vec::new();
            proof {
                assert(empty@.map_values(ws_view_fn()) =~= Seq::<WorkspaceView>::empty());
            }
            return Ok(empty);
        }
        let mut out: Vec<Workspace> = Vec::new();
        let n = self.entries.len();
        let mut i: usize = 0;
        proof {
            assert(out@.map_values(ws_view_fn()) =~= self@.entries.take(0).filter(
                is_ws_entry(),
            ).map_values(to_workspace(self@.trees_dir)));
        }
        while i < n
            invariant
                self@.wf(),
                self@.dir_exists,
                n == self.entries.len(),
                i <= n,
                out@.map_values(ws_view_fn()) == self@.entries.take(i as int).filter(
                    is_ws_entry(),
                ).map_values(to_workspace(self@.trees_dir)),
                forall|j: int|
                    0 <= j < i && is_workspace_file(#[trigger] self@.entries[j].file_name)
                        ==> self@.entries[j].created is Some,
            decreases n - i,
        {
            let entry = &self.entries[i];
            let parsed = parse_workspace_file(entry.file_name.as_str());
            proof {
                lemma_filter_take_step(self@.entries, is_ws_entry(), i as int);
            }
            match parsed {
                Some(stem) => {
                    match entry.created {
                        Some(ts) => {
                            let path = entry_path(self.trees_dir.as_str(), entry.file_name.as_str());
                            let w = Workspace { name: stem, path, created_at: ts };
                            proof {
                                assert(w@ == to_workspace(self@.trees_dir)(
                                    self@.entries[i as int],
                                ));
                            }
                            proof {
                                assert(is_ws_entry()(self@.entries[i as int]));
                            }
                            out.push(w);
                            proof {
                                let e = self@.entries[i as int];
                                let prefix = self@.entries.take(i as int).filter(is_ws_entry());
                                assert(self@.entries.take(i as int + 1).filter(is_ws_entry())
                                    == prefix.push(e));
                                let g = to_workspace(self@.trees_dir);
                                assert(prefix.push(e).map_values(g) =~= prefix.map_values(
                                    g,
                                ).push(g(e)));
                                assert(out@.map_values(ws_view_fn()) =~= self@.entries.take(
                                    i as int + 1,
                                ).filter(is_ws_entry()).map_values(
                                    to_workspace(self@.trees_dir),
                                ));
                            }
                        },
                        None => {
                            proof {
                                assert(is_workspace_file(self@.entries[i as int].file_name));
                                assert(!self@.all_metadata_present());
                            }
                            return Err(StoreError::MetadataReadFailed);
                        },
                    }
                },
                None => {},
            }
            i = i + 1;
        }
        proof {
            assert(self@.entries.take(n as int) =~= self@.entries);
        }
        Ok(out)
    }

    /// Deletes the workspace `name`: removes its backing file from the trees
    /// directory, freeing the name for reuse. Fails with NotFound when no
    /// workspace of that name exists, a name no workspace can carry
    /// included; failure changes nothing.
    pub fn delete_workspace(&mut self, name: &str) -> (r: Result<(), StoreError>)
        requires
            old(self)@.wf(),
        ensures
            final(self)@.wf(),
            final(self)@ == old(self)@.delete_post(name@),
            r == old(self)@.delete_result(name@),
    {
        if !check_name(name) {
            return Err(StoreError::NotFound);
        }
        let file_name = workspace_file_name(name);
        let n = self.entries.len();
        let mut i: usize = 0;
        while i < n
            invariant
                old(self)@.wf(),
                self@ == old(self)@,
                n == self.entries.len(),
                i <= n,
                valid_name(name@),
                file_name@ == file_name_of(name@),
                forall|j: int| 0 <= j < i ==> self@.entries[j].file_name != file_name@,
            decreases n - i,
        {
            if self.entries[i].file_name == file_name {
                proof {
                    assert(old(self)@.entries[i as int].file_name == file_name_of(name@));
                    assert(old(self)@.has_file(file_name_of(name@)));
                }
                self.entries.remove(i);
                proof {
                    let f = file_name_of(name@);
                    let pre = old(self)@.entries;
                    assert(self@.entries =~= pre.remove(i as int));
                    assert forall|j: int|
                        0 <= j < pre.len() && j != i implies pre[j].file_name != f by {
                        assert(pre[j].file_name != pre[i as int].file_name);
                    }
                    lemma_remove_unique_is_filter(pre, f, i as int);
                    assert(self@ == (StoreView { entries: pre.filter(keeps(f)), ..old(self)@ }));
                    assert forall|a: int, b: int|
                        0 <= a < self@.entries.len() && 0 <= b < self@.entries.len() && a != b
                            implies self@.entries[a].file_name != self@.entries[b].file_name by {
                        let ra = if a < i { a } else { a + 1 };
                        let rb = if b < i { b } else { b + 1 };
                        assert(self@.entries[a] == pre[ra]);
                        assert(self@.entries[b] == pre[rb]);
                    }
                    assert forall|a: int|
                        0 <= a < self@.entries.len() implies valid_name(
                        #[trigger] self@.entries[a].file_name,
                    ) by {
                        let ra = if a < i { a } else { a + 1 };
                        assert(self@.entries[a] == pre[ra]);
                    }
                }
                return Ok(());
            }
            i = i + 1;
        }
        proof {
            assert(!old(self)@.has_file(file_name_of(name@)));
        }
        Err(StoreError::NotFound)
    }
}

} // verus!
