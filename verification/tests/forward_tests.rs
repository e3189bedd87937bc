use sandbox_fs::folder::Folder;
use sandbox_fs::forward::ForwardTo;
use sandbox_fs::forward::location;

#[test]
fn fixed_locations() {
    assert_eq!(location(&ForwardTo::Root), "/fs/root/files");
    assert_eq!(location(&ForwardTo::Login), "/login");
    assert_eq!(location(&ForwardTo::Timelapse), "/timelapse");
}

#[test]
fn folder_locations() {
    let folder = Folder::new("root+docs").unwrap();
    assert_eq!(location(&ForwardTo::Folder(folder)), "/fs/root+docs/files");
    let folder = Folder::new("root+docs").unwrap();
    assert_eq!(location(&ForwardTo::FolderDetail(folder)), "/fs/root+docs");
    let folder = Folder::new("root+docs").unwrap();
    assert_eq!(
        location(&ForwardTo::FileDetail(folder, "a.txt".to_string())),
        "/fs/root+docs/files/a.txt"
    );
}
