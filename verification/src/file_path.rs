//! An earlier, string-based path model kept alongside `Folder`: the raw
//! `+`-separated path is stored as one string, and construction rejects
//! any occurrence of the traversal marker or of `~` anywhere in it.

use vstd::prelude::*;

use crate::strutil::contains_char;
use crate::strutil::contains_substring;
use crate::strutil::has_substring;
use crate::strutil::join_chars;
use crate::strutil::join_sep;
use crate::strutil::split_chars;
use crate::strutil::split_on;

verus! {

/// The real path a `FilePath` denotes: under the current directory, with
/// every `+` turned into the path separator.
pub open spec fn file_path_chars(path: Seq<char>) -> Seq<char> {
    "./"@ + join_chars(split_chars(path, '+'), '/')
}

/// A raw `+`-separated path, held as the string the caller supplied.
#[derive(Debug)]
pub struct FilePath {
    path: String,
}

impl View for FilePath {
    type V = Seq<char>;

    closed spec fn view(&self) -> Seq<char> {
        self.path@
    }
}

impl FilePath {
    /// Accepts a raw path unless it contains the traversal marker or a
    /// `~` anywhere; this check is over the whole string, not per
    /// segment, so it is stricter than the segment-based model.
    pub fn new(path: String) -> (r: Result<FilePath, &'static str>)
        ensures
            r is Ok <==> !has_substring(path@, ".."@) && !path@.contains('~'),
            r matches Ok(f) ==> f@ == path@,
    {
        if contains_substring(path.as_str(), "..") {
            return Err("Path cannot be relative and include any ../");
        }
        if contains_char(path.as_str(), '~') {
            return Err("Path cannot be relative and include ~/");
        }
        Ok(FilePath { path })
    }

    /// The raw path as it stands in a request.
    pub fn uri_path(&self) -> (r: String)
        ensures
            r@ == self@,
    {
        self.path.clone()
    }

    /// The real path: rooted at the current directory, segments joined
    /// with the path separator.
    pub fn file_path(&self) -> (r: String)
        ensures
            r@ == file_path_chars(self@),
    {
        proof {
            reveal_strlit("+");
            reveal_strlit("/");
            reveal_strlit("./");
        }
        let pieces = split_on(self.path.as_str(), "+");
        let joined = join_sep(&pieces, "/");
        let mut r = "./".to_owned();
        r.append(joined.as_str());
        r
    }

    /// The path with its final segment dropped; dropping the only
    /// segment leaves the empty path.
    pub fn parent(&self) -> (r: FilePath)
        ensures
            split_chars(self@, '+').len() > 1 ==> r@ == join_chars(
                split_chars(self@, '+').drop_last(),
                '+',
            ),
            split_chars(self@, '+').len() == 1 ==> r@ == Seq::<char>::empty(),
    {
        proof {
            reveal_strlit("+");
        }
        let mut pieces = split_on(self.path.as_str(), "+");
        let ghost before = pieces@;
        pieces.pop();
        proof {
            assert(crate::strutil::views_of(pieces@) =~= crate::strutil::views_of(
                before,
            ).drop_last());
        }
        if pieces.len() > 0 {
            let joined = join_sep(&pieces, "+");
            FilePath { path: joined }
        } else {
            FilePath { path: String::new() }
        }
    }

    /// The real path of a named child: the separator is written only
    /// when this path is non-empty.
    pub fn append_to_file_path(&self, name: &String) -> (r: String)
        ensures
            self@.len() > 0 ==> r@ == file_path_chars(self@) + seq!['/'] + name@,
            self@.len() == 0 ==> r@ == file_path_chars(self@) + name@,
    {
        proof {
            reveal_strlit("/");
        }
        let mut r = self.file_path();
        if self.path.as_str().unicode_len() > 0 {
            r.append("/");
        }
        r.append(name.as_str());
        r
    }

    /// The raw path of a named child: the delimiter is written only when
    /// this path is non-empty.
    pub fn append_to_uri_path(&self, name: &String) -> (r: String)
        ensures
            self@.len() > 0 ==> r@ == self@ + seq!['+'] + name@,
            self@.len() == 0 ==> r@ == name@,
    {
        proof {
            reveal_strlit("+");
        }
        if self.path.as_str().unicode_len() > 0 {
            let mut r = self.path.clone();
            r.append("+");
            r.append(name.as_str());
            r
        } else {
            name.clone()
        }
    }

    /// The breadcrumb trail: for each segment, its name and the raw path
    /// down to it.
    pub fn path_list_aggrigate(&self) -> (r: Vec<(String, String)>)
        ensures
            r@.len() == split_chars(self@, '+').len(),
            forall|i: int|
                0 <= i < r@.len() ==> (#[trigger] r@[i]).0@ == split_chars(self@, '+')[i]
                    && r@[i].1@ == join_chars(split_chars(self@, '+').take(i + 1), '+'),
    {
        proof {
            reveal_strlit("+");
        }
        let ghost segs = split_chars(self@, '+');
        let pieces = split_on(self.path.as_str(), "+");
        let mut r: Vec<(String, String)> = Vec::new();
        let mut cum = pieces[0].clone();
        proof {
            assert(segs.take(1) =~= seq![segs[0]]);
        }
        r.push((pieces[0].clone(), cum.clone()));
        let mut i: usize = 1;
        while i < pieces.len()
            invariant
                segs == split_chars(self@, '+'),
                segs == crate::strutil::views_of(pieces@),
                1 <= i <= pieces@.len(),
                cum@ == join_chars(segs.take(i as int), '+'),
                r@.len() == i,
                forall|j: int|
                    0 <= j < i ==> (#[trigger] r@[j]).0@ == segs[j] && r@[j].1@ == join_chars(
                        segs.take(j + 1),
                        '+',
                    ),
            decreases pieces@.len() - i,
        {
            cum.append("+");
            cum.append(pieces[i].as_str());
            proof {
                reveal_strlit("+");
                assert(segs.take(i + 1).drop_last() =~= segs.take(i as int));
                assert(segs.take(i + 1).last() == segs[i as int]);
                assert(crate::strutil::views_of(pieces@)[i as int] == pieces@[i as int]@);
                assert("+"@ =~= seq!['+']);
                assert(join_chars(segs.take(i as int), '+').push('+') + segs[i as int]
                    =~= join_chars(segs.take(i as int), '+') + "+"@ + pieces@[i as int]@);
            }
            r.push((pieces[i].clone(), cum.clone()));
            i += 1;
        }
        r
    }
}

} // verus!
