use workspace_store::naming::{check_name, entry_path, parse_workspace_file, workspace_file_name};

#[test]
fn file_name_appends_suffix() {
    assert_eq!(workspace_file_name("a"), "a.db");
    assert_eq!(workspace_file_name("my notes"), "my notes.db");
}

#[test]
fn entry_path_joins_directory_and_file() {
    assert_eq!(entry_path("/data/trees", "a.db"), "/data/trees/a.db");
}

#[test]
fn parse_recognises_workspace_files() {
    assert_eq!(parse_workspace_file("a.db"), Some(String::from("a")));
    assert_eq!(parse_workspace_file("a.b.db"), Some(String::from("a.b")));
    assert_eq!(parse_workspace_file("notes.txt"), None);
    assert_eq!(parse_workspace_file(".db"), None);
    assert_eq!(parse_workspace_file("db"), None);
    assert_eq!(parse_workspace_file(""), None);
}

#[test]
fn name_validation() {
    assert!(check_name("a"));
    assert!(check_name("a.b"));
    assert!(!check_name(""));
    assert!(!check_name("a/b"));
    assert!(!check_name("a\\b"));
    assert!(!check_name("../escape"));
}
