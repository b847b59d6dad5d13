use workspace_store::model::StoreError;
use workspace_store::store::WorkspaceStore;

fn fresh_store() -> WorkspaceStore {
    WorkspaceStore::new(String::from("/data/trees"))
}

#[test]
fn empty_store_lists_nothing() {
    let store = fresh_store();
    let listed = store.list_workspaces().unwrap();
    assert_eq!(listed.len(), 0);
}

#[test]
fn existing_empty_directory_lists_nothing() {
    let mut store = fresh_store();
    store.mark_dir_exists();
    let listed = store.list_workspaces().unwrap();
    assert_eq!(listed.len(), 0);
}

#[test]
fn create_then_list_round_trip() {
    let mut store = fresh_store();
    let w = store.create_workspace("alpha", 7).unwrap();
    assert_eq!(w.name, "alpha");
    assert_eq!(w.path, "/data/trees/alpha.db");
    assert_eq!(w.created_at, 7);

    let listed = store.list_workspaces().unwrap();
    assert_eq!(listed.len(), 1);
    assert_eq!(listed[0].name, "alpha");
    assert_eq!(listed[0].path, "/data/trees/alpha.db");
    assert_eq!(listed[0].created_at, 7);

    store.delete_workspace("alpha").unwrap();
    let listed = store.list_workspaces().unwrap();
    assert_eq!(listed.len(), 0);
}

#[test]
fn list_twice_identical() {
    let mut store = fresh_store();
    store.create_workspace("alpha", 1).unwrap();
    store.create_workspace("beta", 2).unwrap();
    let first = store.list_workspaces().unwrap();
    let second = store.list_workspaces().unwrap();
    let pairs = |ws: &Vec<workspace_store::store::Workspace>| {
        ws.iter().map(|w| (w.name.clone(), w.path.clone())).collect::<Vec<_>>()
    };
    assert_eq!(pairs(&first), pairs(&second));
}

#[test]
fn create_collision_rejected() {
    let mut store = fresh_store();
    store.create_workspace("a", 1).unwrap();
    let second = store.create_workspace("a", 2);
    assert_eq!(second.unwrap_err(), StoreError::Conflict);
    let listed = store.list_workspaces().unwrap();
    let named_a: Vec<_> = listed.iter().filter(|w| w.name == "a").collect();
    assert_eq!(named_a.len(), 1);
    assert_eq!(named_a[0].created_at, 1);
}

#[test]
fn delete_missing_not_found() {
    let mut store = fresh_store();
    let r = store.delete_workspace("ghost");
    assert_eq!(r.unwrap_err(), StoreError::NotFound);
    let listed = store.list_workspaces().unwrap();
    assert_eq!(listed.len(), 0);
}

#[test]
fn name_reuse_after_delete() {
    let mut store = fresh_store();
    store.create_workspace("x", 10).unwrap();
    store.delete_workspace("x").unwrap();
    let again = store.create_workspace("x", 20).unwrap();
    assert_eq!(again.name, "x");
    assert_eq!(again.created_at, 20);
    let listed = store.list_workspaces().unwrap();
    assert_eq!(listed.len(), 1);
    assert_eq!(listed[0].created_at, 20);
}

#[test]
fn non_workspace_files_ignored() {
    let mut store = fresh_store();
    assert!(store.record_entry(String::from("notes.txt"), 12, Some(1)));
    assert!(store.record_entry(String::from("beta.db"), 0, Some(5)));
    let listed = store.list_workspaces().unwrap();
    assert_eq!(listed.len(), 1);
    assert_eq!(listed[0].name, "beta");
    assert_eq!(listed[0].path, "/data/trees/beta.db");
    assert_eq!(listed[0].created_at, 5);
}

#[test]
fn missing_metadata_fails_listing() {
    let mut store = fresh_store();
    assert!(store.record_entry(String::from("a.db"), 0, None));
    let r = store.list_workspaces();
    assert_eq!(r.unwrap_err(), StoreError::MetadataReadFailed);
}

#[test]
fn missing_metadata_of_other_files_is_ignored() {
    let mut store = fresh_store();
    assert!(store.record_entry(String::from("notes.txt"), 3, None));
    let listed = store.list_workspaces().unwrap();
    assert_eq!(listed.len(), 0);
}

#[test]
fn invalid_names_rejected_on_create() {
    let mut store = fresh_store();
    assert_eq!(store.create_workspace("", 1).unwrap_err(), StoreError::FileCreateFailed);
    assert_eq!(store.create_workspace("a/b", 1).unwrap_err(), StoreError::FileCreateFailed);
    assert_eq!(store.create_workspace("a\\b", 1).unwrap_err(), StoreError::FileCreateFailed);
    assert_eq!(store.list_workspaces().unwrap().len(), 0);
}

#[test]
fn invalid_names_not_found_on_delete() {
    let mut store = fresh_store();
    assert_eq!(store.delete_workspace("").unwrap_err(), StoreError::NotFound);
    assert_eq!(store.delete_workspace("../a").unwrap_err(), StoreError::NotFound);
}

#[test]
fn record_entry_rejects_duplicates_and_bad_names() {
    let mut store = fresh_store();
    assert!(store.record_entry(String::from("a.db"), 0, Some(1)));
    assert!(!store.record_entry(String::from("a.db"), 0, Some(2)));
    assert!(!store.record_entry(String::from("x/y.db"), 0, Some(3)));
    assert!(!store.record_entry(String::new(), 0, Some(4)));
}

#[test]
fn trees_dir_is_kept() {
    let store = WorkspaceStore::new(String::from("/somewhere/else"));
    assert_eq!(store.trees_dir(), "/somewhere/else");
}

#[test]
fn error_messages() {
    assert_eq!(
        StoreError::DirectoryUnavailable.message(),
        "could not resolve or create the trees directory"
    );
    assert_eq!(StoreError::Conflict.message(), "a workspace of that name already exists");
    assert_eq!(StoreError::NotFound.message(), "no workspace of that name exists");
    assert_eq!(StoreError::FileCreateFailed.message(), "could not allocate the workspace file");
    assert_eq!(StoreError::FileDeleteFailed.message(), "could not remove the workspace file");
    assert_eq!(
        StoreError::MetadataReadFailed.message(),
        "could not read a workspace file's metadata"
    );
}
