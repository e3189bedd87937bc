//! The virtual path model: a `Folder` is a non-empty sequence of named
//! segments anchored at the literal `root` segment, rendered for users as
//! the segments joined with `+` and rendered for the filesystem as a path
//! confined under the sandbox root directory.

use vstd::prelude::*;

use crate::error::AppErrorKind;
use crate::strutil::contains_char;
use crate::strutil::join_chars;
use crate::strutil::join_sep;
use crate::strutil::split_chars;
use crate::strutil::split_on;
use crate::strutil::str_eq;
use crate::strutil::views_of;

verus! {

/// The fixed first segment of every virtual path.
pub open spec fn anchor() -> Seq<char> {
    "root"@
}

/// What one segment may hold: it is not the traversal marker `..` —
/// checked as a whole segment, so names merely containing two dots stay
/// legal — and it holds neither the path delimiter, nor a separator,
/// backslash or null character, so a segment can never smuggle a
/// traversal step into the real path.
pub open spec fn is_valid_segment(seg: Seq<char>) -> bool {
    &&& seg != ".."@
    &&& !seg.contains('+')
    &&& !seg.contains('/')
    &&& !seg.contains('\\')
    &&& !seg.contains('\u{0}')
}

/// A segment sequence is a valid virtual path when it is non-empty,
/// starts at the anchor, and every segment is valid on its own.
pub open spec fn is_valid_path(segs: Seq<Seq<char>>) -> bool {
    &&& segs.len() >= 1
    &&& segs[0] == anchor()
    &&& forall|i: int| 0 <= i < segs.len() ==> is_valid_segment(#[trigger] segs[i])
}

/// The real filesystem path of a virtual path: the anchor maps to
/// `./<root_folder>`, and the remaining segments follow, joined with the
/// path separator.
pub open spec fn real_path_chars(root_folder: Seq<char>, segs: Seq<Seq<char>>) -> Seq<char> {
    "./"@ + root_folder + join_chars(segs.drop_first(), '/')
}

/// An immutable virtual path: an ordered, non-empty list of segments, the
/// first always the anchor.
#[derive(Debug)]
pub struct Folder {
    segments: Vec<String>,
}

impl View for Folder {
    type V = Seq<Seq<char>>;

    closed spec fn view(&self) -> Seq<Seq<char>> {
        views_of(self.segments@)
    }
}

impl Default for Folder {
    /// The sandbox root itself.
    fn default() -> (r: Folder)
        ensures
            r@ == seq![anchor()],
            r.wf(),
    {
        let mut segments: Vec<String> = Vec::new();
        segments.push("root".to_owned());
        proof {
            lemma_anchor_not_marker();
            assert(views_of(segments@) =~= seq![anchor()]);
        }
        Folder { segments }
    }
}

fn clone_strings(v: &Vec<String>) -> (r: Vec<String>)
    ensures
        r@.len() == v@.len(),
        views_of(r@) == views_of(v@),
{
    let mut r: Vec<String> = Vec::new();
    let mut i: usize = 0;
    while i < v.len()
        invariant
            i <= v@.len(),
            r@.len() == i,
            forall|j: int| 0 <= j < i ==> r@[j]@ == v@[j]@,
        decreases v@.len() - i,
    {
        r.push(v[i].clone());
        i += 1;
    }
    proof {
        assert(views_of(r@) =~= views_of(v@));
    }
    r
}

impl Folder {
    /// Whether this value satisfies the virtual path invariant; every
    /// constructor establishes it and every operation preserves it.
    pub open spec fn wf(&self) -> bool {
        is_valid_path(self@)
    }

    /// Parses a raw `+`-separated path. Succeeds exactly on valid paths:
    /// the first segment must be the anchor and every segment must be a
    /// valid name — not the traversal marker, and free of separators,
    /// backslashes and null characters, so no segment can smuggle a
    /// traversal step into the real path. Anything else is
    /// `FolderPathInvalid`, found before any filesystem call.
    pub fn new(path: &str) -> (r: Result<Folder, AppErrorKind>)
        ensures
            r matches Ok(f) ==> f@ == split_chars(path@, '+') && f.wf(),
            r is Ok <==> is_valid_path(split_chars(path@, '+')),
            r matches Err(e) ==> e == AppErrorKind::FolderPathInvalid,
    {
        proof {
            reveal_strlit("+");
        }
        let ghost segs = split_chars(path@, '+');
        let segments = split_on(path, "+");
        proof {
            assert(views_of(segments@)[0] == segments@[0]@);
        }
        if !str_eq(segments[0].as_str(), "root") {
            proof {
                assert(segs[0] != anchor());
                assert(!is_valid_path(split_chars(path@, '+')));
            }
            return Err(AppErrorKind::FolderPathInvalid);
        }
        let mut i: usize = 0;
        while i < segments.len()
            invariant
                segs == split_chars(path@, '+'),
                segs == views_of(segments@),
                segments@.len() >= 1,
                i <= segments@.len(),
                forall|j: int|
                    0 <= j < i ==> #[trigger] views_of(segments@)[j] != ".."@ && !views_of(
                        segments@,
                    )[j].contains('/') && !views_of(segments@)[j].contains('\\') && !views_of(
                        segments@,
                    )[j].contains('\u{0}'),
            decreases segments@.len() - i,
        {
            proof {
                assert(views_of(segments@)[i as int] == segments@[i as int]@);
            }
            let piece = segments[i].as_str();
            if str_eq(piece, "..") || contains_char(piece, '/') || contains_char(piece, '\\')
                || contains_char(piece, '\u{0}') {
                proof {
                    assert(!is_valid_segment(segs[i as int]));
                    assert(!is_valid_path(split_chars(path@, '+')));
                }
                return Err(AppErrorKind::FolderPathInvalid);
            }
            i += 1;
        }
        proof {
            crate::strutil::lemma_split_chars_no_sep(path@, '+');
            assert forall|j: int| 0 <= j < segs.len() implies is_valid_segment(
                #[trigger] segs[j],
            ) by {
                assert(views_of(segments@)[j] == segs[j]);
            }
        }
        Ok(Folder { segments })
    }

    /// The `+`-joined form of the path, as a user sees it.
    pub fn to_string(&self) -> (r: String)
        ensures
            r@ == join_chars(self@, '+'),
    {
        proof {
            reveal_strlit("+");
            if self.segments@.len() == 0 {
                assert(views_of(self.segments@) =~= Seq::<Seq<char>>::empty());
            }
        }
        if self.segments.len() == 0 {
            // A `Folder` always has at least one segment; an empty list
            // would join to the empty string.
            String::new()
        } else {
            join_sep(&self.segments, "+")
        }
    }

    /// The real filesystem path: `./<root_folder>` followed by every
    /// segment after the anchor, joined with the path separator. By
    /// construction the result always stays under the sandbox root.
    pub fn to_path(&self, root_folder: &str) -> (r: String)
        requires
            self.wf(),
        ensures
            r@ == real_path_chars(root_folder@, self@),
    {
        proof {
            reveal_strlit("/");
            reveal_strlit("./");
        }
        let mut r = "./".to_owned();
        r.append(root_folder);
        if self.segments.len() > 1 {
            let mut rest: Vec<String> = Vec::new();
            let mut i: usize = 1;
            while i < self.segments.len()
                invariant
                    1 <= i <= self.segments@.len(),
                    rest@.len() == i - 1,
                    forall|j: int| 0 <= j < i - 1 ==> rest@[j]@ == self.segments@[j + 1]@,
                decreases self.segments@.len() - i,
            {
                rest.push(self.segments[i].clone());
                i += 1;
            }
            proof {
                assert(views_of(rest@) =~= self@.drop_first());
            }
            let tail = join_sep(&rest, "/");
            r.append(tail.as_str());
        } else {
            proof {
                assert(self@.drop_first() =~= Seq::<Seq<char>>::empty());
            }
        }
        r
    }

    /// Appends one or more `+`-separated segments and re-validates them
    /// by the same segment rule as parsing.
    pub fn join(&self, path: &str) -> (r: Result<Folder, AppErrorKind>)
        requires
            self.wf(),
        ensures
            r is Ok <==> is_valid_path(self@ + split_chars(path@, '+')),
            r matches Ok(f) ==> f@ == self@ + split_chars(path@, '+') && f.wf(),
            r matches Err(e) ==> e == AppErrorKind::FolderPathInvalid,
    {
        proof {
            reveal_strlit("+");
        }
        let ghost appended = split_chars(path@, '+');
        let pieces = split_on(path, "+");
        let mut segments = clone_strings(&self.segments);
        let ghost base = self@;
        proof {
            assert(base + views_of(pieces@).take(0) =~= base);
            assert(views_of(segments@) == base + views_of(pieces@).take(0));
        }
        let mut i: usize = 0;
        while i < pieces.len()
            invariant
                appended == split_chars(path@, '+'),
                appended == views_of(pieces@),
                base == self@,
                self.wf(),
                base.len() >= 1,
                i <= pieces@.len(),
                views_of(segments@) == base + views_of(pieces@).take(i as int),
                forall|j: int|
                    0 <= j < i ==> #[trigger] views_of(pieces@)[j] != ".."@ && !views_of(
                        pieces@,
                    )[j].contains('/') && !views_of(pieces@)[j].contains('\\') && !views_of(
                        pieces@,
                    )[j].contains('\u{0}'),
            decreases pieces@.len() - i,
        {
            proof {
                assert(views_of(pieces@)[i as int] == pieces@[i as int]@);
            }
            let piece = pieces[i].as_str();
            if str_eq(piece, "..") || contains_char(piece, '/') || contains_char(piece, '\\')
                || contains_char(piece, '\u{0}') {
                proof {
                    assert(!is_valid_segment(appended[i as int]));
                    assert(!is_valid_segment((base + appended)[base.len() + i]));
                }
                return Err(AppErrorKind::FolderPathInvalid);
            }
            proof {
                assert(views_of(segments@.push(pieces@[i as int])) =~= views_of(segments@).push(
                    pieces@[i as int]@,
                ));
                assert(views_of(segments@).push(pieces@[i as int]@) =~= base + views_of(
                    pieces@,
                ).take(i + 1));
            }
            segments.push(pieces[i].clone());
            i += 1;
        }
        proof {
            assert(views_of(pieces@).take(pieces@.len() as int) =~= views_of(pieces@));
            assert(views_of(segments@) == base + split_chars(path@, '+'));
            let joined = base + appended;
            assert(joined[0] == base[0]);
            crate::strutil::lemma_split_chars_no_sep(path@, '+');
            assert forall|k: int| 0 <= k < joined.len() implies is_valid_segment(
                #[trigger] joined[k],
            ) by {
                if k < base.len() {
                    assert(joined[k] == base[k]);
                } else {
                    assert(joined[k] == appended[k - base.len()]);
                    assert(views_of(pieces@)[k - base.len()] == appended[k - base.len()]);
                }
            }
        }
        Ok(Folder { segments })
    }

    /// The display name of the path: its final segment.
    pub fn name(&self) -> (r: &str)
        requires
            self@.len() >= 1,
        ensures
            r@ == self@.last(),
    {
        self.segments[self.segments.len() - 1].as_str()
    }

    /// Whether this is the sandbox root, the only path of depth one.
    pub fn is_root(&self) -> (r: bool)
        ensures
            r == (self@.len() == 1),
    {
        self.segments.len() == 1
    }

    /// The parent path: every segment but the last. The root has no
    /// parent.
    pub fn parent(&self) -> (r: Result<Folder, AppErrorKind>)
        requires
            self.wf(),
        ensures
            r is Ok <==> self@.len() > 1,
            r matches Ok(p) ==> p@ == self@.drop_last() && p.wf(),
            r matches Err(e) ==> e == AppErrorKind::CannotGetParentOfRoot,
    {
        if self.is_root() {
            return Err(AppErrorKind::CannotGetParentOfRoot);
        }
        let mut segments = clone_strings(&self.segments);
        segments.pop();
        proof {
            assert(views_of(segments@) =~= self@.drop_last());
        }
        Ok(Folder { segments })
    }

    /// Every path from the anchor down to this one (or to its parent when
    /// `include_self` is false), in root-first order: the breadcrumb
    /// trail.
    pub fn ancestors(&self, include_self: bool) -> (r: Vec<Folder>)
        requires
            self.wf(),
        ensures
            r@.len() == self@.len() - (if include_self { 0int } else { 1int }),
            forall|i: int|
                0 <= i < r@.len() ==> #[trigger] r@[i]@ == self@.take(i + 1) && r@[i].wf(),
    {
        let total = self.segments.len();
        let last = if include_self {
            total
        } else {
            total - 1
        };
        let mut r: Vec<Folder> = Vec::new();
        let mut k: usize = 0;
        while k < last
            invariant
                last <= self.segments@.len() <= usize::MAX,
                self.wf(),
                k <= last,
                r@.len() == k,
                forall|i: int|
                    0 <= i < r@.len() ==> #[trigger] r@[i]@ == self@.take(i + 1) && r@[i].wf(),
            decreases last - k,
        {
            let mut prefix: Vec<String> = Vec::new();
            let mut i: usize = 0;
            while i <= k
                invariant
                    k < self.segments@.len() <= usize::MAX,
                    i <= k + 1,
                    prefix@.len() == i,
                    forall|j: int| 0 <= j < i ==> prefix@[j]@ == self.segments@[j]@,
                decreases k + 1 - i,
            {
                prefix.push(self.segments[i].clone());
                i += 1;
            }
            proof {
                assert(views_of(prefix@) =~= self@.take(k + 1));
            }
            r.push(Folder { segments: prefix });
            k += 1;
        }
        r
    }

    /// The prefix every real path starts with, from the configured base
    /// directory: the base followed by the path separator, or nothing when
    /// no base is configured.
    pub fn root_folder(base: Option<&str>) -> (r: String)
        ensures
            base matches Some(v) ==> r@ == v@ + seq!['/'],
            base is None ==> r@ == Seq::<char>::empty(),
    {
        proof {
            reveal_strlit("/");
        }
        match base {
            Some(v) => {
                let mut s = v.to_owned();
                s.append("/");
                proof {
                    assert("/"@ =~= seq!['/']);
                }
                s
            },
            None => String::new(),
        }
    }
}


/// Planning of the filesystem operations: each operation first computes,
/// and checks, the virtual paths it will touch; the filesystem call itself
/// happens outside the library, on the real paths of the returned values.
impl Folder {
    /// Plans a rename of this folder to a sibling name: refused on the
    /// root, otherwise the renamed path is the parent joined with the new
    /// name.
    pub fn rename_plan(&self, name: &str) -> (r: Result<Folder, AppErrorKind>)
        requires
            self.wf(),
        ensures
            self@.len() == 1 ==> (r matches Err(e) && e == AppErrorKind::CannotRenameRoot),
            r is Ok <==> self@.len() > 1 && is_valid_path(
                self@.drop_last() + split_chars(name@, '+'),
            ),
            r matches Ok(f) ==> f@ == self@.drop_last() + split_chars(name@, '+') && f.wf(),
    {
        if self.is_root() {
            return Err(AppErrorKind::CannotRenameRoot);
        }
        let parent = match self.parent() {
            Ok(p) => p,
            Err(e) => { return Err(e) },
        };
        parent.join(name)
    }

    /// Commits a successful rename: the caller hands back the planned
    /// path once the filesystem rename went through, and this value takes
    /// it over, so the in-memory path stays consistent with disk state.
    pub fn rename_commit(&mut self, renamed: Folder)
        ensures
            final(self)@ == renamed@,
    {
        *self = renamed;
    }

    /// Plans a rename of a child entity: the source and destination paths
    /// inside this folder.
    pub fn rename_file(&self, old_name: &str, new_name: &str) -> (r: Result<
        (Folder, Folder),
        AppErrorKind,
    >)
        requires
            self.wf(),
        ensures
            r is Ok <==> is_valid_path(self@ + split_chars(old_name@, '+')) && is_valid_path(
                self@ + split_chars(new_name@, '+'),
            ),
            r matches Ok(p) ==> p.0@ == self@ + split_chars(old_name@, '+') && p.1@ == self@
                + split_chars(new_name@, '+'),
            r matches Err(e) ==> e == AppErrorKind::FolderPathInvalid,
    {
        let source = self.join(old_name)?;
        let destination = self.join(new_name)?;
        Ok((source, destination))
    }

    /// Plans moving a child entity into another folder: the source is the
    /// entity under this folder, the destination the same name under the
    /// target folder.
    pub fn move_entity(&self, entity_name: &str, new_folder: &Folder) -> (r: Result<
        (Folder, Folder),
        AppErrorKind,
    >)
        requires
            self.wf(),
            new_folder.wf(),
        ensures
            r is Ok <==> is_valid_path(self@ + split_chars(entity_name@, '+')) && is_valid_path(
                new_folder@ + split_chars(entity_name@, '+'),
            ),
            r matches Ok(p) ==> p.0@ == self@ + split_chars(entity_name@, '+') && p.1@
                == new_folder@ + split_chars(entity_name@, '+'),
            r matches Err(e) ==> e == AppErrorKind::FolderPathInvalid,
    {
        let source = self.join(entity_name)?;
        let destination = new_folder.join(entity_name)?;
        Ok((source, destination))
    }

    /// Plans a recursive delete of this folder: the root may never be
    /// deleted.
    pub fn remove_plan(&self) -> (r: Result<(), AppErrorKind>)
        requires
            self.wf(),
        ensures
            r is Ok <==> self@.len() > 1,
            r matches Err(e) ==> e == AppErrorKind::CannotDeleteRoot,
    {
        if self.is_root() {
            return Err(AppErrorKind::CannotDeleteRoot);
        }
        Ok(())
    }

    /// Plans packing this folder into an archive: refused on the root;
    /// otherwise the archive is written beside the folder, so the plan is
    /// the parent folder and this folder's name.
    pub fn zip_plan(&self) -> (r: Result<(Folder, String), AppErrorKind>)
        requires
            self.wf(),
        ensures
            r is Ok <==> self@.len() > 1,
            r matches Ok(p) ==> p.0@ == self@.drop_last() && p.0.wf() && p.1@ == self@.last(),
            r matches Err(e) ==> e == AppErrorKind::CannotZipRoot,
    {
        if self.is_root() {
            return Err(AppErrorKind::CannotZipRoot);
        }
        let parent = match self.parent() {
            Ok(p) => p,
            Err(_) => { return Err(AppErrorKind::CannotZipRoot) },
        };
        let name = self.name().to_owned();
        Ok((parent, name))
    }
}

/// The anchor is itself a valid segment.
pub proof fn lemma_anchor_not_marker()
    ensures
        is_valid_segment(anchor()),
{
    reveal_strlit("root");
    reveal_strlit("..");
    assert(anchor().len() == 4);
    assert(".."@.len() == 2);
    assert forall|j: int|
        0 <= j < anchor().len() implies anchor()[j] != '+' && anchor()[j] != '/' && anchor()[j]
        != '\\' && anchor()[j] != '\u{0}' by {
        assert(anchor()[0] == 'r');
        assert(anchor()[1] == 'o');
        assert(anchor()[2] == 'o');
        assert(anchor()[3] == 't');
    }
}

/// Every successfully parsed path renders to a real path lexically
/// confined under the sandbox root, by construction: the rendering
/// always begins with `./<root_folder>`, and what follows that prefix
/// splits on the separator into exactly the virtual segments — so no
/// component of the real path below the sandbox root is the traversal
/// marker, whatever the user-supplied string was.
pub proof fn lemma_parse_stays_in_sandbox(s: Seq<char>, root_folder: Seq<char>)
    requires
        is_valid_path(split_chars(s, '+')),
    ensures
        ("./"@ + root_folder).is_prefix_of(real_path_chars(root_folder, split_chars(s, '+'))),
        split_chars(s, '+').len() > 1 ==> split_chars(
            real_path_chars(root_folder, split_chars(s, '+')).skip(("./"@ + root_folder).len() as int),
            '/',
        ) == split_chars(s, '+').drop_first(),
        forall|i: int|
            0 <= i < split_chars(s, '+').drop_first().len() ==> #[trigger] split_chars(
                s,
                '+',
            ).drop_first()[i] != ".."@,
{
    let segs = split_chars(s, '+');
    let prefix = "./"@ + root_folder;
    let full = real_path_chars(root_folder, segs);
    assert(full.take(prefix.len() as int) =~= prefix);
    assert forall|i: int| 0 <= i < segs.drop_first().len() implies #[trigger] segs.drop_first()[i]
        != ".."@ by {
        assert(segs.drop_first()[i] == segs[i + 1]);
    }
    if segs.len() > 1 {
        let rest = segs.drop_first();
        assert(full.skip(prefix.len() as int) =~= join_chars(rest, '/'));
        assert forall|i: int| 0 <= i < rest.len() implies !(#[trigger] rest[i]).contains('/') by {
            assert(rest[i] == segs[i + 1]);
        }
        crate::strutil::lemma_join_split_inverse(rest, '/');
    }
}

/// Joining a single valid segment onto a valid path and taking the
/// parent gives the original path back.
pub proof fn lemma_join_parent_round_trip(p: Seq<Seq<char>>, n: Seq<char>)
    requires
        is_valid_path(p),
        split_chars(n, '+').len() == 1,
        is_valid_segment(split_chars(n, '+')[0]),
    ensures
        is_valid_path(p + split_chars(n, '+')),
        (p + split_chars(n, '+')).len() > 1,
        (p + split_chars(n, '+')).drop_last() == p,
{
    let joined = p + split_chars(n, '+');
    assert(joined[0] == p[0]);
    assert forall|i: int| 0 <= i < joined.len() implies is_valid_segment(
        #[trigger] joined[i],
    ) by {
        if i < p.len() {
            assert(joined[i] == p[i]);
        } else {
            assert(joined[i] == split_chars(n, '+')[i - p.len()]);
        }
    }
    assert(joined.drop_last() =~= p);
}

} // verus!
