//! Directory listings: partitioning raw entries into folders and files,
//! building each child's virtual path, and sorting both partitions
//! lexicographically by name.

use vstd::prelude::*;

use crate::folder::Folder;
use vstd::multiset::Multiset;
use crate::folder::is_valid_path;
use crate::strutil::lex_le;
use crate::strutil::lemma_lex_le_total;
use crate::strutil::lemma_lex_le_trans;
use crate::strutil::split_chars;

verus! {

/// A single named entry discovered while listing a directory.
pub struct DirEntryInfo {
    pub name: String,
    pub is_dir: bool,
}

/// The views of the folders in a sequence.
pub open spec fn folder_views(s: Seq<Folder>) -> Seq<Seq<Seq<char>>> {
    s.map_values(|f: Folder| f@)
}

/// Every folder in the sequence satisfies the path invariant.
pub open spec fn all_wf(s: Seq<Folder>) -> bool {
    forall|i: int| 0 <= i < s.len() ==> (#[trigger] s[i]).wf()
}

/// The folders are ordered by display name, lexicographically by code
/// point.
pub open spec fn sorted_by_name(s: Seq<Folder>) -> bool {
    forall|i: int, j: int| 0 <= i < j < s.len() ==> lex_le(#[trigger] s[i]@.last(), #[trigger] s[j]@.last())
}

/// The child paths a listing produces under `base`: entries whose kind
/// matches `want_dir` and whose name joins onto `base` as a valid path,
/// in listing order.
pub open spec fn child_paths(
    base: Seq<Seq<char>>,
    entries: Seq<DirEntryInfo>,
    want_dir: bool,
) -> Seq<Seq<Seq<char>>>
    decreases entries.len(),
{
    if entries.len() == 0 {
        Seq::<Seq<Seq<char>>>::empty()
    } else {
        let rest = child_paths(base, entries.drop_last(), want_dir);
        let e = entries.last();
        if e.is_dir == want_dir && is_valid_path(base + split_chars(e.name@, '+')) {
            rest.push(base + split_chars(e.name@, '+'))
        } else {
            rest
        }
    }
}

/// Inserts a folder into a name-sorted vector, keeping it sorted.
fn insert_sorted(r: &mut Vec<Folder>, x: Folder)
    requires
        sorted_by_name(old(r)@),
        all_wf(old(r)@),
        x.wf(),
    ensures
        sorted_by_name(final(r)@),
        all_wf(final(r)@),
        final(r)@.to_multiset() == old(r)@.to_multiset().insert(x),
        folder_views(final(r)@).to_multiset() == folder_views(old(r)@).to_multiset().insert(x@),
{
    broadcast use vstd::seq_lib::group_to_multiset_ensures;

    let ghost s = r@;
    let mut pos: usize = r.len();
    while pos > 0 && !crate::strutil::lex_le_exec(r[pos - 1].name(), x.name())
        invariant
            r@ == s,
            sorted_by_name(s),
            all_wf(s),
            x.wf(),
            pos <= s.len(),
            forall|k: int| pos <= k < s.len() ==> lex_le(x@.last(), (#[trigger] s[k])@.last()),
        decreases pos,
    {
        proof {
            lemma_lex_le_total(s[pos - 1]@.last(), x@.last());
        }
        pos = pos - 1;
    }
    let ghost p = pos as int;
    r.insert(pos, x);
    proof {
        let t = s.insert(p, x);
        assert(r@ == t);
        assert forall|i: int, j: int| 0 <= i < j < t.len() implies lex_le(
            (#[trigger] t[i])@.last(),
            (#[trigger] t[j])@.last(),
        ) by {
            if i < p && j == p {
                assert(t[i] == s[i]);
                assert(t[j] == x);
                assert(lex_le(s[p - 1]@.last(), x@.last()));
                if i < p - 1 {
                    assert(lex_le(s[i]@.last(), s[p - 1]@.last()));
                    lemma_lex_le_trans(s[i]@.last(), s[p - 1]@.last(), x@.last());
                }
            } else if i < p && j > p {
                assert(t[i] == s[i]);
                assert(t[j] == s[j - 1]);
            } else if i == p {
                assert(t[i] == x);
                assert(t[j] == s[j - 1]);
            } else if i > p {
                assert(t[i] == s[i - 1]);
                assert(t[j] == s[j - 1]);
            } else {
                assert(t[i] == s[i]);
                assert(t[j] == s[j]);
            }
        }
        assert(all_wf(t)) by {
            assert forall|i: int| 0 <= i < t.len() implies (#[trigger] t[i]).wf() by {
                if i < p {
                    assert(t[i] == s[i]);
                } else if i > p {
                    assert(t[i] == s[i - 1]);
                }
            }
        }
        vstd::seq_lib::to_multiset_insert(s, p, x);
        assert(folder_views(t) =~= folder_views(s).insert(p, x@));
        vstd::seq_lib::to_multiset_insert(folder_views(s), p, x@);
    }
}

/// Sorts folders by display name; the result holds exactly the same
/// folders.
pub fn sort_folders_by_name(v: Vec<Folder>) -> (r: Vec<Folder>)
    requires
        all_wf(v@),
    ensures
        sorted_by_name(r@),
        all_wf(r@),
        r@.to_multiset() == v@.to_multiset(),
        folder_views(r@).to_multiset() == folder_views(v@).to_multiset(),
{
    broadcast use vstd::seq_lib::group_to_multiset_ensures;
    broadcast use vstd::multiset::group_multiset_axioms;

    let ghost orig = v@;
    let mut v = v;
    let mut r: Vec<Folder> = Vec::new();
    proof {
        assert(folder_views(orig) =~= folder_views(r@) + folder_views(v@));
        assert(r@.to_multiset().add(v@.to_multiset()) =~= orig.to_multiset());
        assert(folder_views(r@).to_multiset().add(folder_views(v@).to_multiset())
            =~= folder_views(orig).to_multiset());
    }
    while v.len() > 0
        invariant
            sorted_by_name(r@),
            all_wf(r@),
            all_wf(v@),
            r@.to_multiset().add(v@.to_multiset()) == orig.to_multiset(),
            folder_views(r@).to_multiset().add(folder_views(v@).to_multiset()) == folder_views(
                orig,
            ).to_multiset(),
        decreases v@.len(),
    {
        let ghost vs = v@;
        let x = v.remove(0);
        proof {
            assert(x == vs[0]);
            assert(v@ == vs.remove(0));
            vstd::seq_lib::to_multiset_remove(vs, 0);
            assert(folder_views(vs.remove(0)) =~= folder_views(vs).remove(0));
            vstd::seq_lib::to_multiset_remove(folder_views(vs), 0);
            assert(folder_views(vs)[0] == x@);
            assert(vs.contains(x));
            vstd::seq_lib::to_multiset_contains(vs, x);
            assert(vs.to_multiset().count(x) > 0);
            assert(folder_views(vs).contains(x@)) by {
                assert(folder_views(vs)[0] == x@);
            }
            vstd::seq_lib::to_multiset_contains(folder_views(vs), x@);
            assert(folder_views(vs).to_multiset().count(x@) > 0);
            assert(all_wf(v@)) by {
                assert forall|i: int| 0 <= i < v@.len() implies (#[trigger] v@[i]).wf() by {
                    assert(v@[i] == vs[i + 1]);
                }
            }
        }
        let ghost rs = r@;
        insert_sorted(&mut r, x);
        proof {
            assert(r@.to_multiset().add(v@.to_multiset()) =~= orig.to_multiset());
            assert(folder_views(r@).to_multiset().add(folder_views(v@).to_multiset())
                =~= folder_views(orig).to_multiset());
        }
    }
    proof {
        assert(v@.to_multiset() =~= Multiset::<Folder>::empty());
        assert(folder_views(v@) =~= Seq::<Seq<Seq<char>>>::empty());
        assert(folder_views(v@).to_multiset() =~= Multiset::<Seq<Seq<char>>>::empty());
        assert(r@.to_multiset() =~= orig.to_multiset());
        assert(folder_views(r@).to_multiset() =~= folder_views(orig).to_multiset());
    }
    r
}

impl Folder {
    /// Partitions a directory listing of this folder into child folders
    /// and child files, each as a virtual path, both partitions sorted by
    /// name. An entry whose name does not form a valid path is silently
    /// skipped, never fatal; with `folders_only` the file partition stays
    /// empty.
    pub fn entities(&self, listing: &Vec<DirEntryInfo>, folders_only: bool) -> (r: (
        Vec<Folder>,
        Vec<Folder>,
    ))
        requires
            self.wf(),
        ensures
            sorted_by_name(r.0@),
            sorted_by_name(r.1@),
            all_wf(r.0@),
            all_wf(r.1@),
            folder_views(r.0@).to_multiset() == child_paths(self@, listing@, true).to_multiset(),
            !folders_only ==> folder_views(r.1@).to_multiset() == child_paths(
                self@,
                listing@,
                false,
            ).to_multiset(),
            folders_only ==> r.1@.len() == 0,
    {
        let mut dirs: Vec<Folder> = Vec::new();
        let mut files: Vec<Folder> = Vec::new();
        let mut i: usize = 0;
        proof {
            assert(listing@.take(0) =~= Seq::<DirEntryInfo>::empty());
        }
        while i < listing.len()
            invariant
                self.wf(),
                i <= listing@.len(),
                all_wf(dirs@),
                all_wf(files@),
                folder_views(dirs@) == child_paths(self@, listing@.take(i as int), true),
                !folders_only ==> folder_views(files@) == child_paths(
                    self@,
                    listing@.take(i as int),
                    false,
                ),
                folders_only ==> files@.len() == 0,
            decreases listing@.len() - i,
        {
            let entry = &listing[i];
            proof {
                assert(listing@.take(i + 1).drop_last() =~= listing@.take(i as int));
                assert(listing@.take(i + 1).last() == listing@[i as int]);
            }
            match self.join(entry.name.as_str()) {
                Ok(child) => {
                    if entry.is_dir {
                        proof {
                            assert(folder_views(dirs@.push(child)) =~= folder_views(dirs@).push(
                                child@,
                            ));
                        }
                        dirs.push(child);
                    } else if !folders_only {
                        proof {
                            assert(folder_views(files@.push(child)) =~= folder_views(files@).push(
                                child@,
                            ));
                        }
                        files.push(child);
                    }
                },
                Err(_) => {},
            }
            i += 1;
        }
        proof {
            assert(listing@.take(listing@.len() as int) =~= listing@);
        }
        let dirs = sort_folders_by_name(dirs);
        let files = if folders_only {
            files
        } else {
            sort_folders_by_name(files)
        };
        (dirs, files)
    }
}

} // verus!
