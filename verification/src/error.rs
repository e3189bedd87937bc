//! The error kinds every operation of the library reports, and the one
//! user-visible message each kind maps to.

use vstd::prelude::*;

verus! {

/// Everything that can go wrong in the path model, the entity operations,
/// the archive engine or the session layer. Validation failures are
/// detected before any filesystem call; operating-system failures arrive
/// through `from_io`, which keeps the OS error text.
#[derive(Debug, PartialEq, Eq)]
pub enum AppErrorKind {
    FolderPathInvalid,
    FolderPathNotFound,
    FileNotFound,
    CannotGetParentOfRoot,
    CannotRenameRoot,
    CannotDeleteRoot,
    CannotCopyRoot,
    CannotMoveRoot,
    CannotZipRoot,
    CannotMoveAboveRoot,
    CannotMoveFolderIntoItself,
    FailedToReadFile,
    FailedToZipFolder,
    FailedToUnzipFile,
    InvalidUserCredentials,
    Io(String),
    Session(String),
}

/// The message that `message` returns for each kind.
pub open spec fn spec_message(e: AppErrorKind) -> Seq<char> {
    match e {
        AppErrorKind::FolderPathInvalid => "folder_path must start with 'root' and cannot have '..'"@,
        AppErrorKind::FolderPathNotFound => "folder_path does not match a system folder path"@,
        AppErrorKind::FileNotFound => "file could not be found"@,
        AppErrorKind::CannotGetParentOfRoot => "cannot get the parent of root"@,
        AppErrorKind::CannotRenameRoot => "cannot rename root folder"@,
        AppErrorKind::CannotDeleteRoot => "cannot delete root folder"@,
        AppErrorKind::CannotCopyRoot => "cannot copy root"@,
        AppErrorKind::CannotMoveRoot => "cannot move root"@,
        AppErrorKind::CannotZipRoot => "cannot zip root"@,
        AppErrorKind::CannotMoveAboveRoot => "cannot move above root"@,
        AppErrorKind::CannotMoveFolderIntoItself => "cannot move folder into itself"@,
        AppErrorKind::FailedToReadFile => "failed to read file"@,
        AppErrorKind::FailedToZipFolder => "failed to zip folder"@,
        AppErrorKind::FailedToUnzipFile => "failed to unzip file"@,
        AppErrorKind::InvalidUserCredentials => "failed to login username or password invalid"@,
        AppErrorKind::Io(text) => text@,
        AppErrorKind::Session(text) => text@,
    }
}

impl AppErrorKind {
    /// The one user-visible message for this error kind.
    pub fn message(&self) -> (r: String)
        ensures
            r@ == spec_message(*self),
    {
        match self {
            AppErrorKind::FolderPathInvalid => "folder_path must start with 'root' and cannot have '..'".to_owned(),
            AppErrorKind::FolderPathNotFound => "folder_path does not match a system folder path".to_owned(),
            AppErrorKind::FileNotFound => "file could not be found".to_owned(),
            AppErrorKind::CannotGetParentOfRoot => "cannot get the parent of root".to_owned(),
            AppErrorKind::CannotRenameRoot => "cannot rename root folder".to_owned(),
            AppErrorKind::CannotDeleteRoot => "cannot delete root folder".to_owned(),
            AppErrorKind::CannotCopyRoot => "cannot copy root".to_owned(),
            AppErrorKind::CannotMoveRoot => "cannot move root".to_owned(),
            AppErrorKind::CannotZipRoot => "cannot zip root".to_owned(),
            AppErrorKind::CannotMoveAboveRoot => "cannot move above root".to_owned(),
            AppErrorKind::CannotMoveFolderIntoItself => "cannot move folder into itself".to_owned(),
            AppErrorKind::FailedToReadFile => "failed to read file".to_owned(),
            AppErrorKind::FailedToZipFolder => "failed to zip folder".to_owned(),
            AppErrorKind::FailedToUnzipFile => "failed to unzip file".to_owned(),
            AppErrorKind::InvalidUserCredentials => "failed to login username or password invalid".to_owned(),
            AppErrorKind::Io(text) => text.clone(),
            AppErrorKind::Session(text) => text.clone(),
        }
    }

    /// Remaps an operating-system failure: a not-found error always becomes
    /// `FolderPathNotFound`, anything else keeps its error text.
    pub fn from_io(not_found: bool, text: String) -> (r: AppErrorKind)
        ensures
            not_found ==> r == AppErrorKind::FolderPathNotFound,
            !not_found ==> r == AppErrorKind::Io(text),
    {
        if not_found {
            AppErrorKind::FolderPathNotFound
        } else {
            AppErrorKind::Io(text)
        }
    }
}

} // verus!
