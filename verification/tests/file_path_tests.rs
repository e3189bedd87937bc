use sandbox_fs::file_path::FilePath;

#[test]
fn new_rejects_traversal_substring() {
    let r = FilePath::new("a/../b".to_string());
    assert!(r.is_err());
    assert_eq!(r.err().unwrap(), "Path cannot be relative and include any ../");
}

#[test]
fn new_rejects_tilde() {
    let r = FilePath::new("~/secrets".to_string());
    assert!(r.is_err());
    assert_eq!(r.err().unwrap(), "Path cannot be relative and include ~/");
}

#[test]
fn new_accepts_plain_path() {
    let p = FilePath::new("docs+notes".to_string()).unwrap();
    assert_eq!(p.uri_path(), "docs+notes");
}

#[test]
fn file_path_replaces_delimiters() {
    let p = FilePath::new("docs+notes".to_string()).unwrap();
    assert_eq!(p.file_path(), "./docs/notes");
}

#[test]
fn file_path_of_empty() {
    let p = FilePath::new(String::new()).unwrap();
    assert_eq!(p.file_path(), "./");
}

#[test]
fn parent_drops_last_segment() {
    let p = FilePath::new("docs+notes+old".to_string()).unwrap();
    assert_eq!(p.parent().uri_path(), "docs+notes");
}

#[test]
fn parent_of_single_segment_is_empty() {
    let p = FilePath::new("docs".to_string()).unwrap();
    assert_eq!(p.parent().uri_path(), "");
}

#[test]
fn append_to_file_path_writes_separator() {
    let p = FilePath::new("docs".to_string()).unwrap();
    assert_eq!(p.append_to_file_path(&"a.txt".to_string()), "./docs/a.txt");
    let empty = FilePath::new(String::new()).unwrap();
    assert_eq!(empty.append_to_file_path(&"a.txt".to_string()), "./a.txt");
}

#[test]
fn append_to_uri_path_writes_delimiter() {
    let p = FilePath::new("docs".to_string()).unwrap();
    assert_eq!(p.append_to_uri_path(&"notes".to_string()), "docs+notes");
    let empty = FilePath::new(String::new()).unwrap();
    assert_eq!(empty.append_to_uri_path(&"notes".to_string()), "notes");
}

#[test]
fn path_list_aggrigate_builds_breadcrumbs() {
    let p = FilePath::new("a+b+c".to_string()).unwrap();
    let crumbs = p.path_list_aggrigate();
    assert_eq!(crumbs.len(), 3);
    assert_eq!(crumbs[0], ("a".to_string(), "a".to_string()));
    assert_eq!(crumbs[1], ("b".to_string(), "a+b".to_string()));
    assert_eq!(crumbs[2], ("c".to_string(), "a+b+c".to_string()));
}
