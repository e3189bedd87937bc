use sandbox_fs::error::AppErrorKind;
use sandbox_fs::user::User;
use sandbox_fs::user::UserAuthority;

#[test]
fn known_users_log_in_with_their_authority() {
    let admin = User::test_only_get_user("admin", "admin123").unwrap();
    assert_eq!(admin.username, "admin");
    assert_eq!(admin.authority, UserAuthority::Admin);

    let user = User::test_only_get_user("nick", "testing").unwrap();
    assert_eq!(user.authority, UserAuthority::User);

    let guest = User::test_only_get_user("guest", "guest").unwrap();
    assert_eq!(guest.authority, UserAuthority::Guest);
}

#[test]
fn wrong_password_is_rejected() {
    let r = User::test_only_get_user("admin", "password");
    assert!(matches!(r, Err(AppErrorKind::InvalidUserCredentials)));
}

#[test]
fn unknown_user_is_rejected() {
    let r = User::test_only_get_user("mallory", "guest");
    assert!(matches!(r, Err(AppErrorKind::InvalidUserCredentials)));
}

#[test]
fn default_user_is_guest() {
    let u = User::default();
    assert_eq!(u.username, "Guest");
    assert_eq!(u.authority, UserAuthority::Guest);
}

#[test]
fn save_and_delete_succeed() {
    let u = User::default();
    assert!(u.save().is_ok());
    assert!(u.delete().is_ok());
}
