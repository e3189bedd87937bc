//! The form values the operations take, and the parsing of multi-select
//! submissions: a `/`-separated list of entity names whose empty pieces
//! are dropped.

use vstd::prelude::*;

use crate::strutil::split_chars;
use crate::strutil::split_on;
use crate::strutil::views_of;

verus! {

/// A new folder request carrying a borrowed name.
#[derive(Debug)]
pub struct NewFolder<'f> {
    pub folder_name: &'f str,
}

/// A new folder, by name.
#[derive(Debug)]
pub struct NewFolderFormData {
    pub folder_name: String,
}

/// A folder's new name.
#[derive(Debug)]
pub struct RenameFolderFormData {
    pub folder_name: String,
}

/// The sibling folder to move a folder into.
#[derive(Debug)]
pub struct MoveFolderIntoFormData {
    pub folder_name: String,
}

/// A file's new name.
#[derive(Debug)]
pub struct RenameFileFormData {
    pub file_name: String,
}

/// The child folder to move a file into.
#[derive(Debug)]
pub struct MoveFileIntoFormData {
    pub folder_name: String,
}

/// A multi-select move: the selected folder and file names, and the
/// target folder.
#[derive(Debug)]
pub struct MoveEntitiesIntoFormData {
    pub selected_folders: String,
    pub selected_files: String,
    pub folder_name: String,
}

/// A multi-select removal: the selected folder and file names.
#[derive(Debug)]
pub struct RemoveEntitiesFormData {
    pub selected_folders: String,
    pub selected_files: String,
}

/// The non-empty pieces, in order.
pub open spec fn nonempty_pieces(parts: Seq<Seq<char>>) -> Seq<Seq<char>>
    decreases parts.len(),
{
    if parts.len() == 0 {
        Seq::<Seq<char>>::empty()
    } else if parts.last().len() > 0 {
        nonempty_pieces(parts.drop_last()).push(parts.last())
    } else {
        nonempty_pieces(parts.drop_last())
    }
}

/// Parses a multi-select form value: the names separated by `/`, with
/// empty selections dropped.
pub fn split_selected(selected: &str) -> (r: Vec<String>)
    ensures
        views_of(r@) == nonempty_pieces(split_chars(selected@, '/')),
{
    proof {
        reveal_strlit("/");
    }
    let pieces = split_on(selected, "/");
    let mut r: Vec<String> = Vec::new();
    let mut i: usize = 0;
    proof {
        assert(views_of(pieces@).take(0) =~= Seq::<Seq<char>>::empty());
        assert(views_of(r@) =~= nonempty_pieces(views_of(pieces@).take(0)));
    }
    while i < pieces.len()
        invariant
            views_of(pieces@) == split_chars(selected@, '/'),
            i <= pieces@.len(),
            views_of(r@) == nonempty_pieces(views_of(pieces@).take(i as int)),
        decreases pieces@.len() - i,
    {
        proof {
            assert(views_of(pieces@).take(i + 1).drop_last() =~= views_of(pieces@).take(i as int));
            assert(views_of(pieces@).take(i + 1).last() == views_of(pieces@)[i as int]);
            assert(views_of(pieces@)[i as int] == pieces@[i as int]@);
        }
        if pieces[i].as_str().unicode_len() > 0 {
            proof {
                assert(views_of(r@.push(pieces@[i as int])) =~= views_of(r@).push(
                    pieces@[i as int]@,
                ));
            }
            r.push(pieces[i].clone());
        }
        i += 1;
    }
    proof {
        assert(views_of(pieces@).take(pieces@.len() as int) =~= views_of(pieces@));
    }
    r
}

} // verus!
