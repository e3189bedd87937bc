use sandbox_fs::folder::Folder;
use sandbox_fs::error::AppErrorKind;

#[test]
fn parse_valid_path_succeeds() {
    let f = Folder::new("root+test_files+folder name").unwrap();
    assert_eq!(f.to_string(), "root+test_files+folder name");
    assert_eq!(f.name(), "folder name");
    assert!(!f.is_root());
}

#[test]
fn parse_root_succeeds() {
    let f = Folder::new("root").unwrap();
    assert!(f.is_root());
    assert_eq!(f.name(), "root");
    assert_eq!(f.to_string(), "root");
}

#[test]
fn parse_traversal_marker_fails() {
    let r = Folder::new("root+..+x");
    assert!(matches!(r, Err(AppErrorKind::FolderPathInvalid)));
}

#[test]
fn parse_missing_anchor_fails() {
    let r = Folder::new("docs");
    assert!(matches!(r, Err(AppErrorKind::FolderPathInvalid)));
}

#[test]
fn parse_anchor_prefix_is_not_anchor() {
    let r = Folder::new("rootabc+docs");
    assert!(matches!(r, Err(AppErrorKind::FolderPathInvalid)));
}

#[test]
fn parse_allows_dots_inside_longer_names() {
    let f = Folder::new("root+a..b").unwrap();
    assert_eq!(f.name(), "a..b");
}

#[test]
fn real_path_is_under_sandbox_root() {
    let f = Folder::new("root+docs+notes").unwrap();
    assert_eq!(f.to_path("files/"), "./files/docs/notes");
    let root = Folder::new("root").unwrap();
    assert_eq!(root.to_path("files/"), "./files/");
    assert!(f.to_path("files/").starts_with("./files/"));
}

#[test]
fn real_path_without_configured_base() {
    let f = Folder::new("root+docs").unwrap();
    assert_eq!(f.to_path(""), "./docs");
}

#[test]
fn root_folder_prefix() {
    assert_eq!(Folder::root_folder(Some("files")), "files/");
    assert_eq!(Folder::root_folder(None), "");
}

#[test]
fn join_then_parent_round_trip() {
    let p = Folder::new("root+docs").unwrap();
    let child = p.join("notes").unwrap();
    assert_eq!(child.to_string(), "root+docs+notes");
    let back = child.parent().unwrap();
    assert_eq!(back.to_string(), p.to_string());
}

#[test]
fn join_rejects_traversal() {
    let p = Folder::new("root+docs").unwrap();
    assert!(matches!(p.join(".."), Err(AppErrorKind::FolderPathInvalid)));
    assert!(matches!(p.join("a+..+b"), Err(AppErrorKind::FolderPathInvalid)));
}

#[test]
fn join_splits_multiple_segments() {
    let p = Folder::new("root").unwrap();
    let deep = p.join("a+b").unwrap();
    assert_eq!(deep.to_string(), "root+a+b");
    assert_eq!(deep.name(), "b");
}

#[test]
fn parent_of_root_fails() {
    let root = Folder::new("root").unwrap();
    assert!(matches!(root.parent(), Err(AppErrorKind::CannotGetParentOfRoot)));
}

#[test]
fn ancestors_with_self() {
    let f = Folder::new("root+a+b").unwrap();
    let crumbs: Vec<String> = f.ancestors(true).iter().map(|a| a.to_string()).collect();
    assert_eq!(crumbs, vec!["root".to_string(), "root+a".to_string(), "root+a+b".to_string()]);
}

#[test]
fn ancestors_without_self() {
    let f = Folder::new("root+a+b").unwrap();
    let crumbs: Vec<String> = f.ancestors(false).iter().map(|a| a.to_string()).collect();
    assert_eq!(crumbs, vec!["root".to_string(), "root+a".to_string()]);
}

#[test]
fn default_folder_is_root() {
    let f = Folder::default();
    assert!(f.is_root());
    assert_eq!(f.to_string(), "root");
}

#[test]
fn parse_rejects_separator_inside_segment() {
    assert!(matches!(Folder::new("root+a/.."), Err(AppErrorKind::FolderPathInvalid)));
    assert!(matches!(Folder::new("root+a/b"), Err(AppErrorKind::FolderPathInvalid)));
    assert!(matches!(Folder::new("root+a\\b"), Err(AppErrorKind::FolderPathInvalid)));
    assert!(matches!(Folder::new("root+a\u{0}b"), Err(AppErrorKind::FolderPathInvalid)));
}

#[test]
fn join_rejects_separator_inside_segment() {
    let p = Folder::new("root+docs").unwrap();
    assert!(matches!(p.join("a/.."), Err(AppErrorKind::FolderPathInvalid)));
    assert!(matches!(p.join("a\\b"), Err(AppErrorKind::FolderPathInvalid)));
    assert!(matches!(p.join("a\u{0}"), Err(AppErrorKind::FolderPathInvalid)));
}

#[test]
fn real_paths_never_hold_a_traversal_step() {
    for raw in ["root+a+b", "root+a..b", "root+.hidden", "root+name with spaces"] {
        let f = Folder::new(raw).unwrap();
        let real = f.to_path("base/");
        assert!(real.starts_with("./base/"));
        assert!(!real.split('/').any(|part| part == ".."));
    }
}
