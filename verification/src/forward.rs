//! Where a caller is sent after an operation: each target maps to one
//! location string. Session-backed login redirects are recorded outside
//! the library; here the target's location is computed.

use vstd::prelude::*;

use crate::folder::Folder;
use crate::strutil::join_chars;

verus! {

/// A place the caller can be forwarded to.
#[derive(Debug)]
pub enum ForwardTo {
    Root,
    Login,
    Timelapse,
    Folder(Folder),
    FolderDetail(Folder),
    FileDetail(Folder, String),
}

/// The location each target maps to.
pub open spec fn spec_location(forward: ForwardTo) -> Seq<char> {
    match forward {
        ForwardTo::Root => "/fs/root/files"@,
        ForwardTo::Login => "/login"@,
        ForwardTo::Timelapse => "/timelapse"@,
        ForwardTo::Folder(folder) => "/fs/"@ + join_chars(folder@, '+') + "/files"@,
        ForwardTo::FolderDetail(folder) => "/fs/"@ + join_chars(folder@, '+'),
        ForwardTo::FileDetail(folder, file_name) => "/fs/"@ + join_chars(folder@, '+') + "/files/"@
            + file_name@,
    }
}

/// The location string of a forward target.
pub fn location(forward: &ForwardTo) -> (r: String)
    ensures
        r@ == spec_location(*forward),
{
    match forward {
        ForwardTo::Root => "/fs/root/files".to_owned(),
        ForwardTo::Login => "/login".to_owned(),
        ForwardTo::Timelapse => "/timelapse".to_owned(),
        ForwardTo::Folder(folder) => {
            let mut r = "/fs/".to_owned();
            r.append(folder.to_string().as_str());
            r.append("/files");
            r
        },
        ForwardTo::FolderDetail(folder) => {
            let mut r = "/fs/".to_owned();
            r.append(folder.to_string().as_str());
            r
        },
        ForwardTo::FileDetail(folder, file_name) => {
            let mut r = "/fs/".to_owned();
            r.append(folder.to_string().as_str());
            r.append("/files/");
            r.append(file_name.as_str());
            r
        },
    }
}

} // verus!
