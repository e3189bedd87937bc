use sandbox_fs::archive::PackEntry;
use sandbox_fs::archive::archive_file_name;
use sandbox_fs::archive::check_entry_path;
use sandbox_fs::archive::extract_zip_entries;
use sandbox_fs::archive::extracted_dir_name;
use sandbox_fs::archive::write_zip_from_folder;
use sandbox_fs::error::AppErrorKind;

#[test]
fn archive_round_trip_preserves_layout_and_bytes() {
    let entries = vec![
        PackEntry { name: "x.txt".to_string(), is_dir: false, data: b"hi".to_vec() },
        PackEntry { name: "sub".to_string(), is_dir: true, data: Vec::new() },
        PackEntry { name: "sub/y.txt".to_string(), is_dir: false, data: b"bye".to_vec() },
    ];
    let (archive_name, bytes) = write_zip_from_folder("stuff", &entries).unwrap();
    assert_eq!(archive_name, "stuff.zip");

    let out = extract_zip_entries(bytes).unwrap();
    assert_eq!(out.len(), 3);
    assert_eq!(out[0].name, "x.txt");
    assert!(!out[0].is_dir);
    assert_eq!(out[0].data, b"hi".to_vec());
    assert_eq!(out[1].name, "sub/");
    assert!(out[1].is_dir);
    assert_eq!(out[2].name, "sub/y.txt");
    assert!(!out[2].is_dir);
    assert_eq!(out[2].data, b"bye".to_vec());
}

#[test]
fn packed_entries_carry_permissions() {
    let entries = vec![PackEntry {
        name: "a.txt".to_string(),
        is_dir: false,
        data: b"data".to_vec(),
    }];
    let (_, bytes) = write_zip_from_folder("p", &entries).unwrap();
    let out = extract_zip_entries(bytes).unwrap();
    assert_eq!(out.len(), 1);
    let mode = out[0].unix_mode.unwrap();
    assert_eq!(mode & 0o777, 0o755);
}

#[test]
fn zip_slip_entry_is_rejected() {
    let mut writer = zip::ZipWriter::new(std::io::Cursor::new(Vec::new()));
    let options = zip::write::SimpleFileOptions::default();
    writer.start_file("../evil.txt", options).unwrap();
    std::io::Write::write_all(&mut writer, b"payload").unwrap();
    writer.start_file("fine.txt", options).unwrap();
    std::io::Write::write_all(&mut writer, b"ok").unwrap();
    let bytes = writer.finish().unwrap().into_inner();

    let out = extract_zip_entries(bytes).unwrap();
    assert_eq!(out.len(), 1);
    assert_eq!(out[0].name, "fine.txt");
}

#[test]
fn absolute_entry_is_rejected() {
    let mut writer = zip::ZipWriter::new(std::io::Cursor::new(Vec::new()));
    let options = zip::write::SimpleFileOptions::default();
    writer.start_file("/etc/owned", options).unwrap();
    std::io::Write::write_all(&mut writer, b"payload").unwrap();
    let bytes = writer.finish().unwrap().into_inner();

    let out = extract_zip_entries(bytes).unwrap();
    assert!(out.is_empty());
}

#[test]
fn entry_path_check() {
    assert!(check_entry_path("a/b/c.txt"));
    assert!(check_entry_path("sub/"));
    assert!(!check_entry_path("../evil"));
    assert!(!check_entry_path("a/../../evil"));
    assert!(!check_entry_path("/abs"));
    assert!(!check_entry_path("a\\b"));
    assert!(!check_entry_path(""));
    assert!(check_entry_path("a..b/ok"));
}

#[test]
fn corrupt_bytes_are_refused() {
    let r = extract_zip_entries(b"this is not an archive".to_vec());
    assert!(matches!(r, Err(AppErrorKind::FailedToUnzipFile)));
}

#[test]
fn archive_names() {
    assert_eq!(archive_file_name("photos"), "photos.zip");
    assert_eq!(extracted_dir_name("photos.zip"), "photos");
    assert_eq!(extracted_dir_name("backup.tar.bz2"), "backup");
    assert_eq!(extracted_dir_name("plain"), "plain");
}
