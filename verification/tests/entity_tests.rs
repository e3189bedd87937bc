use sandbox_fs::error::AppErrorKind;
use sandbox_fs::folder::Folder;
use sandbox_fs::forms::split_selected;
use sandbox_fs::listing::DirEntryInfo;
use sandbox_fs::metadata::MetadataView;
use sandbox_fs::metadata::effective_timestamp;

#[test]
fn rename_plan_and_commit_keep_handle_consistent() {
    let mut folder = Folder::new("root+a").unwrap();
    let renamed = folder.rename_plan("b").unwrap();
    assert_eq!(renamed.to_string(), "root+b");
    assert_eq!(renamed.to_path(""), "./b");
    assert_eq!(folder.to_path(""), "./a");
    folder.rename_commit(renamed);
    assert_eq!(folder.to_string(), "root+b");
}

#[test]
fn rename_plan_refuses_root() {
    let root = Folder::new("root").unwrap();
    assert!(matches!(root.rename_plan("b"), Err(AppErrorKind::CannotRenameRoot)));
}

#[test]
fn remove_plan_refuses_root() {
    let root = Folder::new("root").unwrap();
    assert!(matches!(root.remove_plan(), Err(AppErrorKind::CannotDeleteRoot)));
    let folder = Folder::new("root+a").unwrap();
    assert!(folder.remove_plan().is_ok());
}

#[test]
fn zip_plan_refuses_root() {
    let root = Folder::new("root").unwrap();
    assert!(matches!(root.zip_plan(), Err(AppErrorKind::CannotZipRoot)));
    let folder = Folder::new("root+a").unwrap();
    let (parent, name) = folder.zip_plan().unwrap();
    assert_eq!(parent.to_string(), "root");
    assert_eq!(name, "a");
}

#[test]
fn move_entity_plans_source_and_destination() {
    let src_folder = Folder::new("root+a").unwrap();
    let dst_folder = Folder::new("root+b").unwrap();
    let (source, destination) = src_folder.move_entity("file.txt", &dst_folder).unwrap();
    assert_eq!(source.to_string(), "root+a+file.txt");
    assert_eq!(destination.to_string(), "root+b+file.txt");
    assert_eq!(source.to_path(""), "./a/file.txt");
    assert_eq!(destination.to_path(""), "./b/file.txt");
}

#[test]
fn rename_file_plans_both_paths() {
    let folder = Folder::new("root+docs").unwrap();
    let (old_path, new_path) = folder.rename_file("a.txt", "b.txt").unwrap();
    assert_eq!(old_path.to_string(), "root+docs+a.txt");
    assert_eq!(new_path.to_string(), "root+docs+b.txt");
}

#[test]
fn unique_name_counts_from_two() {
    let file = Folder::new("root+a.txt").unwrap();
    let existing = vec!["a.txt".to_string()];
    assert_eq!(file.create_unique_name(&existing), "a(2).txt");
    let existing = vec!["a.txt".to_string(), "a(2).txt".to_string()];
    assert_eq!(file.create_unique_name(&existing), "a(3).txt");
}

#[test]
fn unique_name_without_collision_is_unchanged() {
    let file = Folder::new("root+a.txt").unwrap();
    let existing = vec!["b.txt".to_string()];
    assert_eq!(file.create_unique_name(&existing), "a.txt");
}

#[test]
fn unique_name_without_extension() {
    let folder = Folder::new("root+photos").unwrap();
    let existing = vec!["photos".to_string(), "photos(2)".to_string()];
    assert_eq!(folder.create_unique_name(&existing), "photos(3)");
}

#[test]
fn copy_plan_picks_free_sibling_name() {
    let folder = Folder::new("root+photos").unwrap();
    let existing = vec!["photos".to_string()];
    let (new_name, new_folder) = folder.copy_plan(&existing).unwrap();
    assert_eq!(new_name, "photos(2)");
    assert_eq!(new_folder.to_string(), "root+photos(2)");
}

#[test]
fn copy_plan_refuses_root() {
    let root = Folder::new("root").unwrap();
    assert!(matches!(root.copy_plan(&Vec::new()), Err(AppErrorKind::CannotCopyRoot)));
}

#[test]
fn copy_file_plan_builds_all_paths() {
    let folder = Folder::new("root+docs").unwrap();
    let existing = vec!["a.txt".to_string()];
    let (source, new_name, destination) = folder.copy_file_plan("a.txt", &existing).unwrap();
    assert_eq!(source.to_string(), "root+docs+a.txt");
    assert_eq!(new_name, "a(2).txt");
    assert_eq!(destination.to_string(), "root+docs+a(2).txt");
}

#[test]
fn entities_partitions_and_sorts() {
    let folder = Folder::new("root").unwrap();
    let listing = vec![
        DirEntryInfo { name: "zeta".to_string(), is_dir: true },
        DirEntryInfo { name: "beta.txt".to_string(), is_dir: false },
        DirEntryInfo { name: "alpha".to_string(), is_dir: true },
        DirEntryInfo { name: "alpha.txt".to_string(), is_dir: false },
    ];
    let (dirs, files) = folder.entities(&listing, false);
    let dir_names: Vec<String> = dirs.iter().map(|d| d.name().to_string()).collect();
    let file_names: Vec<String> = files.iter().map(|f| f.name().to_string()).collect();
    assert_eq!(dir_names, vec!["alpha".to_string(), "zeta".to_string()]);
    assert_eq!(file_names, vec!["alpha.txt".to_string(), "beta.txt".to_string()]);
    assert_eq!(dirs[0].to_string(), "root+alpha");
}

#[test]
fn entities_folders_only_skips_files() {
    let folder = Folder::new("root").unwrap();
    let listing = vec![
        DirEntryInfo { name: "beta.txt".to_string(), is_dir: false },
        DirEntryInfo { name: "alpha".to_string(), is_dir: true },
    ];
    let (dirs, files) = folder.entities(&listing, true);
    assert_eq!(dirs.len(), 1);
    assert_eq!(files.len(), 0);
}

#[test]
fn entities_skips_invalid_names() {
    let folder = Folder::new("root").unwrap();
    let listing = vec![
        DirEntryInfo { name: "..".to_string(), is_dir: true },
        DirEntryInfo { name: "fine".to_string(), is_dir: true },
    ];
    let (dirs, files) = folder.entities(&listing, false);
    assert_eq!(dirs.len(), 1);
    assert_eq!(dirs[0].name(), "fine");
    assert_eq!(files.len(), 0);
}

#[test]
fn split_selected_drops_empty_pieces() {
    let names = split_selected("a/b//c/");
    assert_eq!(names, vec!["a".to_string(), "b".to_string(), "c".to_string()]);
    assert_eq!(split_selected(""), Vec::<String>::new());
}

#[test]
fn error_messages_match_kinds() {
    assert_eq!(
        AppErrorKind::FolderPathInvalid.message(),
        "folder_path must start with 'root' and cannot have '..'"
    );
    assert_eq!(AppErrorKind::CannotDeleteRoot.message(), "cannot delete root folder");
    assert_eq!(AppErrorKind::Io("disk gone".to_string()).message(), "disk gone");
}

#[test]
fn io_errors_remap_not_found() {
    let e = AppErrorKind::from_io(true, "No such file".to_string());
    assert!(matches!(e, AppErrorKind::FolderPathNotFound));
    let e = AppErrorKind::from_io(false, "permission denied".to_string());
    assert!(matches!(e, AppErrorKind::Io(t) if t == "permission denied"));
}

#[test]
fn metadata_view_carries_stat_fields() {
    let view = MetadataView::new(42, true, Some(0), None, Some(86_400));
    assert_eq!(view.size, 42);
    assert!(view.readonly);
    assert!(!view.created.is_empty());
    assert!(!view.modified.is_empty());
    assert!(!view.accessed.is_empty());
}

#[test]
fn missing_timestamps_fall_back_to_epoch() {
    assert_eq!(effective_timestamp(None), 0);
    assert_eq!(effective_timestamp(Some(123)), 123);
}

#[test]
fn copy_file_plan_rejects_invalid_name() {
    let folder = Folder::new("root+docs").unwrap();
    let r = folder.copy_file_plan("..", &Vec::new());
    assert!(matches!(r, Err(AppErrorKind::FolderPathInvalid)));
}

#[test]
fn copy_plan_succeeds_off_root() {
    let folder = Folder::new("root+a+b").unwrap();
    let (name, copy) = folder.copy_plan(&Vec::new()).unwrap();
    assert_eq!(name, "b");
    assert_eq!(copy.to_string(), "root+a+b");
}
