//! Collision-free naming: given a name that already exists among its
//! siblings, derive `stem(n).ext` (or `stem(n)` without an extension),
//! with `n` counting up from 2 until a free name is found.

use vstd::prelude::*;

use crate::error::AppErrorKind;
use crate::folder::Folder;
use crate::folder::is_valid_path;
use crate::folder::is_valid_segment;
use crate::strutil::dec_chars;
use crate::strutil::lemma_dec_chars_injective;
use crate::strutil::split_chars;
use crate::strutil::str_eq;
use crate::strutil::u64_to_string;
use crate::strutil::views_of;

verus! {

/// The index of the last occurrence of `c` in `s`, or -1 when absent.
pub open spec fn last_index_of(s: Seq<char>, c: char) -> int
    decreases s.len(),
{
    if s.len() == 0 {
        -1
    } else if s.last() == c {
        s.len() - 1
    } else {
        last_index_of(s.drop_last(), c)
    }
}

/// What `last_index_of` returns: a valid index of `c` with nothing but
/// other characters after it, or -1 when `c` does not occur at all.
pub proof fn lemma_last_index_of(s: Seq<char>, c: char)
    ensures
        -1 <= last_index_of(s, c) < s.len(),
        last_index_of(s, c) >= 0 ==> s[last_index_of(s, c)] == c,
        forall|j: int| last_index_of(s, c) < j < s.len() ==> s[j] != c,
    decreases s.len(),
{
    if s.len() > 0 && s.last() != c {
        lemma_last_index_of(s.drop_last(), c);
        assert forall|j: int| last_index_of(s, c) < j < s.len() implies s[j] != c by {
            if j < s.len() - 1 {
                assert(s.drop_last()[j] == s[j]);
            }
        }
    }
}

/// The stem of a file name: everything before the last dot, unless the
/// dot is absent or leads the name.
pub open spec fn stem_of(name: Seq<char>) -> Seq<char> {
    let li = last_index_of(name, '.');
    if li > 0 {
        name.take(li)
    } else {
        name
    }
}

/// The extension of a file name: everything after the last dot, when the
/// dot exists and does not lead the name.
pub open spec fn ext_of(name: Seq<char>) -> Option<Seq<char>> {
    let li = last_index_of(name, '.');
    if li > 0 {
        Some(name.skip(li + 1))
    } else {
        None
    }
}

/// The candidate derived from `name` for the counter value `n`:
/// `stem(n).ext`, or `stem(n)` when the name has no extension.
pub open spec fn candidate_name(name: Seq<char>, n: nat) -> Seq<char> {
    let tail = match ext_of(name) {
        Some(e) => seq!['.'] + e,
        None => Seq::<char>::empty(),
    };
    stem_of(name) + seq!['('] + dec_chars(n) + seq![')'] + tail
}

/// Candidates for distinct counter values are distinct names.
pub proof fn lemma_candidate_injective(name: Seq<char>, n1: nat, n2: nat)
    requires
        candidate_name(name, n1) == candidate_name(name, n2),
    ensures
        n1 == n2,
{
    let stem = stem_of(name);
    let tail = match ext_of(name) {
        Some(e) => seq!['.'] + e,
        None => Seq::<char>::empty(),
    };
    let c1 = candidate_name(name, n1);
    let c2 = candidate_name(name, n2);
    assert(c1.len() == stem.len() + 1 + dec_chars(n1).len() + 1 + tail.len());
    assert(c2.len() == stem.len() + 1 + dec_chars(n2).len() + 1 + tail.len());
    assert(dec_chars(n1).len() == dec_chars(n2).len());
    assert(dec_chars(n1) =~= dec_chars(n2)) by {
        assert forall|t: int| 0 <= t < dec_chars(n1).len() implies dec_chars(n1)[t] == dec_chars(
            n2,
        )[t] by {
            assert(c1[stem.len() + 1 + t] == dec_chars(n1)[t]);
            assert(c2[stem.len() + 1 + t] == dec_chars(n2)[t]);
        }
    }
    lemma_dec_chars_injective(n1, n2);
}

/// `k` is the first free counter value: every smaller candidate from 2 on
/// is taken, and the candidate for `k` is not.
pub open spec fn is_first_free(name: Seq<char>, taken: Seq<Seq<char>>, k: nat) -> bool {
    &&& 2 <= k
    &&& !taken.contains(candidate_name(name, k))
    &&& forall|m: nat| 2 <= m < k ==> taken.contains(#[trigger] candidate_name(name, m))
}

/// What a collision-free name for `name` among `taken` looks like: it is
/// free; it is `name` itself when that is already free, and otherwise the
/// candidate of the first free counter value.
pub open spec fn unique_name_ok(name: Seq<char>, taken: Seq<Seq<char>>, r: Seq<char>) -> bool {
    &&& !taken.contains(r)
    &&& !taken.contains(name) ==> r == name
    &&& taken.contains(name) ==> exists|k: nat| #[trigger] is_first_free(name, taken, k) && r
        == candidate_name(name, k)
}

/// Whether any of the names is the target.
pub fn names_contain(names: &Vec<String>, target: &str) -> (r: bool)
    ensures
        r == views_of(names@).contains(target@),
{
    let mut i: usize = 0;
    while i < names.len()
        invariant
            i <= names@.len(),
            forall|j: int| 0 <= j < i ==> views_of(names@)[j] != target@,
        decreases names@.len() - i,
    {
        proof {
            assert(views_of(names@)[i as int] == names@[i as int]@);
        }
        if str_eq(names[i].as_str(), target) {
            return true;
        }
        i += 1;
    }
    false
}

/// Splits a name into its stem and extension.
fn split_stem_ext(name: &str) -> (r: (String, Option<String>))
    ensures
        r.0@ == stem_of(name@),
        r.1 matches Some(e) ==> ext_of(name@) matches Some(x) && x == e@,
        r.1 is None ==> ext_of(name@) is None,
{
    proof {
        lemma_last_index_of(name@, '.');
    }
    let n = name.unicode_len();
    let mut i: usize = n;
    let mut dot_found = false;
    let mut dot: usize = 0;
    while i > 0
        invariant
            i <= n,
            n == name@.len(),
            dot_found ==> dot < n && name@[dot as int] == '.' && (forall|k: int|
                dot < k < n ==> name@[k] != '.'),
            !dot_found ==> (forall|k: int| i <= k < n ==> name@[k] != '.'),
            dot_found ==> i <= dot,
        decreases i,
    {
        i = i - 1;
        let c = name.get_char(i);
        if !dot_found && c == '.' {
            dot = i;
            dot_found = true;
        }
    }
    proof {
        lemma_last_index_of(name@, '.');
        if dot_found {
            assert(last_index_of(name@, '.') == dot);
        } else {
            assert(last_index_of(name@, '.') == -1) by {
                if last_index_of(name@, '.') >= 0 {
                    assert(name@[last_index_of(name@, '.')] == '.');
                }
            }
        }
    }
    if dot_found && dot > 0 {
        let stem = name.substring_char(0, dot).to_owned();
        let ext = name.substring_char(dot + 1, n).to_owned();
        proof {
            assert(name@.subrange(0, dot as int) =~= name@.take(dot as int));
            assert(name@.subrange(dot + 1, n as int) =~= name@.skip(dot + 1));
        }
        (stem, Some(ext))
    } else {
        (name.to_owned(), None)
    }
}

/// Builds `stem(n)` or `stem(n).ext` for the given counter value.
fn build_candidate(stem: &str, ext: &Option<String>, n: u64) -> (r: String)
    ensures
        r@ == stem@ + seq!['('] + dec_chars(n as nat) + seq![')'] + (match ext {
            Some(e) => seq!['.'] + e@,
            None => Seq::<char>::empty(),
        }),
{
    proof {
        reveal_strlit("(");
        reveal_strlit(")");
        reveal_strlit(".");
        assert("("@ =~= seq!['(']);
        assert(")"@ =~= seq![')']);
        assert("."@ =~= seq!['.']);
    }
    let mut r = stem.to_owned();
    r.append("(");
    let digits = u64_to_string(n);
    r.append(digits.as_str());
    r.append(")");
    match ext {
        Some(e) => {
            r.append(".");
            r.append(e.as_str());
        },
        None => {},
    }
    r
}

/// A candidate derived from a valid segment is itself one valid
/// segment: not the traversal marker, and free of the delimiter, the
/// separator, backslashes and null characters.
pub proof fn lemma_candidate_segment(name: Seq<char>, k: nat)
    requires
        is_valid_segment(name),
    ensures
        is_valid_segment(candidate_name(name, k)),
{
    let li = last_index_of(name, '.');
    let stem = stem_of(name);
    let dl = dec_chars(k).len();
    let tail = match ext_of(name) {
        Some(e) => seq!['.'] + e,
        None => Seq::<char>::empty(),
    };
    let c = candidate_name(name, k);
    lemma_last_index_of(name, '.');
    crate::strutil::lemma_dec_chars_nonempty(k);
    crate::strutil::lemma_dec_chars_digits(k);
    assert(c.len() >= 3);
    assert(".."@.len() == 2) by {
        reveal_strlit("..");
    }
    assert(c != ".."@);
    assert forall|j: int|
        0 <= j < c.len() implies c[j] != '+' && c[j] != '/' && c[j] != '\\' && c[j]
        != '\u{0}' by {
        let sl = stem.len() as int;
        if j < sl {
            if li > 0 {
                assert(c[j] == name.take(li)[j]);
                assert(c[j] == name[j]);
            } else {
                assert(c[j] == name[j]);
            }
            if c[j] == '+' {
                assert(name.contains('+'));
            }
            if c[j] == '/' {
                assert(name.contains('/'));
            }
            if c[j] == '\\' {
                assert(name.contains('\\'));
            }
            if c[j] == '\u{0}' {
                assert(name.contains('\u{0}'));
            }
        } else if j == sl {
            assert(c[j] == '(');
        } else if j < sl + 1 + dl {
            assert(c[j] == dec_chars(k)[j - sl - 1]);
            if c[j] == '+' {
                assert(dec_chars(k).contains('+'));
            }
            if c[j] == '/' {
                assert(dec_chars(k).contains('/'));
            }
            if c[j] == '\\' {
                assert(dec_chars(k).contains('\\'));
            }
            if c[j] == '\u{0}' {
                assert(dec_chars(k).contains('\u{0}'));
            }
        } else if j == sl + 1 + dl {
            assert(c[j] == ')');
        } else {
            let t = j - (sl + 2 + dl);
            assert(c[j] == tail[t]);
            if t == 0 {
                assert(tail[t] == '.');
            } else {
                let e = ext_of(name).unwrap();
                assert(tail[t] == e[t - 1]);
                assert(e[t - 1] == name.skip(li + 1)[t - 1]);
                assert(e[t - 1] == name[li + 1 + t - 1]);
                if c[j] == '+' {
                    assert(name.contains('+'));
                }
                if c[j] == '/' {
                    assert(name.contains('/'));
                }
                if c[j] == '\\' {
                    assert(name.contains('\\'));
                }
                if c[j] == '\u{0}' {
                    assert(name.contains('\u{0}'));
                }
            }
        }
    }
    assert forall|x: char|
        x == '+' || x == '/' || x == '\\' || x == '\u{0}' implies !c.contains(x) by {
        if c.contains(x) {
            let j = choose|j: int| 0 <= j < c.len() && c[j] == x;
        }
    }
}

impl Folder {
    /// A collision-free variant of this entity's name among the given
    /// sibling names: the name itself when free, otherwise `stem(n).ext`
    /// for the smallest `n` from 2 up whose candidate is free.
    pub fn create_unique_name(&self, existing: &Vec<String>) -> (r: String)
        requires
            self.wf(),
            existing@.len() + 3 <= usize::MAX,
        ensures
            unique_name_ok(self@.last(), views_of(existing@), r@),
    {
        broadcast use vstd::seq_lib::group_seq_properties;

        let name = self.name().to_owned();
        if !names_contain(existing, name.as_str()) {
            return name;
        }
        let ghost nm = self@.last();
        let ghost taken = views_of(existing@);
        let parts = split_stem_ext(name.as_str());
        let stem = parts.0;
        let ext = parts.1;
        let mut n: u64 = 2;
        loop
            invariant
                self.wf(),
                nm == self@.last(),
                taken == views_of(existing@),
                existing@.len() + 3 <= usize::MAX,
                stem@ == stem_of(nm),
                (ext matches Some(e) ==> ext_of(nm) matches Some(x) && x == e@),
                (ext is None ==> ext_of(nm) is None),
                2 <= n,
                n - 2 <= existing@.len(),
                forall|m: nat| 2 <= m < n ==> taken.contains(#[trigger] candidate_name(nm, m)),
                taken.contains(nm),
            decreases existing@.len() + 2 - n,
        {
            let cand = build_candidate(stem.as_str(), &ext, n);
            proof {
                assert(cand@ == candidate_name(nm, n as nat));
            }
            if !names_contain(existing, cand.as_str()) {
                proof {
                    assert(is_first_free(nm, taken, n as nat));
                }
                return cand;
            }
            proof {
                lemma_candidates_bounded(nm, taken, (n + 1) as nat);
                assert(taken.len() == existing@.len());
            }
            n = n + 1;
        }
    }
}


/// A collision-free name for a valid segment is itself a valid segment.
pub proof fn lemma_unique_name_is_clean_segment(
    name: Seq<char>,
    taken: Seq<Seq<char>>,
    r: Seq<char>,
)
    requires
        is_valid_segment(name),
        unique_name_ok(name, taken, r),
    ensures
        is_valid_segment(r),
{
    if taken.contains(name) {
        let k = choose|k: nat| #[trigger] is_first_free(name, taken, k) && r == candidate_name(
            name,
            k,
        );
        lemma_candidate_segment(name, k);
    }
}

impl Folder {
    /// Plans copying this folder to a collision-free sibling: refused on
    /// the root, and only on the root; otherwise the copy's name is a
    /// collision-free variant of this folder's name among the given
    /// sibling names, and the copy sits beside this folder.
    pub fn copy_plan(&self, existing: &Vec<String>) -> (r: Result<(String, Folder), AppErrorKind>)
        requires
            self.wf(),
            existing@.len() + 3 <= usize::MAX,
        ensures
            r is Ok <==> self@.len() > 1,
            r matches Ok(p) ==> unique_name_ok(self@.last(), views_of(existing@), p.0@) && p.1@
                == self@.drop_last().push(p.0@) && p.1.wf(),
            r matches Err(e) ==> e == AppErrorKind::CannotCopyRoot,
    {
        if self.is_root() {
            return Err(AppErrorKind::CannotCopyRoot);
        }
        let new_name = self.create_unique_name(existing);
        let parent = match self.parent() {
            Ok(p) => p,
            Err(_) => { return Err(AppErrorKind::CannotCopyRoot) },
        };
        proof {
            lemma_unique_name_is_clean_segment(self@.last(), views_of(existing@), new_name@);
            crate::strutil::lemma_split_chars_whole(new_name@, '+');
            let target = parent@ + split_chars(new_name@, '+');
            assert(target =~= self@.drop_last().push(new_name@));
            assert(is_valid_path(target)) by {
                assert(target[0] == self@[0]);
                assert forall|i: int|
                    0 <= i < target.len() implies target[i] != ".."@ && !(#[trigger] target[
                    i]).contains('+') by {
                    if i < target.len() - 1 {
                        assert(target[i] == self@[i]);
                    } else {
                        assert(target[i] == new_name@);
                    }
                }
            }
        }
        let new_folder = parent.join(new_name.as_str())?;
        proof {
            assert(new_folder@ =~= self@.drop_last().push(new_name@));
        }
        Ok((new_name, new_folder))
    }

    /// Plans copying a child file to a collision-free name in the same
    /// folder: the source path, the chosen name, and the destination
    /// path. It fails exactly when the entity's name does not join onto
    /// this folder as a valid path.
    pub fn copy_file_plan(&self, entity_name: &str, existing: &Vec<String>) -> (r: Result<
        (Folder, String, Folder),
        AppErrorKind,
    >)
        requires
            self.wf(),
            existing@.len() + 3 <= usize::MAX,
        ensures
            r is Ok <==> is_valid_path(self@ + split_chars(entity_name@, '+')),
            r matches Ok(p) ==> p.0@ == self@ + split_chars(entity_name@, '+') && unique_name_ok(
                p.0@.last(),
                views_of(existing@),
                p.1@,
            ) && p.2@ == self@.push(p.1@) && p.0.wf() && p.2.wf(),
            r matches Err(e) ==> e == AppErrorKind::FolderPathInvalid,
    {
        let source = self.join(entity_name)?;
        let new_name = source.create_unique_name(existing);
        proof {
            lemma_unique_name_is_clean_segment(source@.last(), views_of(existing@), new_name@);
            crate::strutil::lemma_split_chars_whole(new_name@, '+');
            let target = self@ + split_chars(new_name@, '+');
            assert(target =~= self@.push(new_name@));
            assert(is_valid_path(target)) by {
                assert(target[0] == self@[0]);
                assert forall|i: int|
                    0 <= i < target.len() implies target[i] != ".."@ && !(#[trigger] target[
                    i]).contains('+') by {
                    if i < target.len() - 1 {
                        assert(target[i] == self@[i]);
                    } else {
                        assert(target[i] == new_name@);
                    }
                }
            }
        }
        let destination = self.join(new_name.as_str())?;
        proof {
            assert(destination@ =~= self@.push(new_name@));
        }
        Ok((source, new_name, destination))
    }
}

/// When every candidate from 2 below `n` is taken, there are at least
/// `n - 2` taken names: the candidates are pairwise distinct.
proof fn lemma_candidates_bounded(name: Seq<char>, taken: Seq<Seq<char>>, n: nat)
    requires
        2 <= n,
        forall|m: nat| 2 <= m < n ==> taken.contains(#[trigger] candidate_name(name, m)),
    ensures
        n - 2 <= taken.len(),
{
    broadcast use vstd::seq_lib::group_seq_properties;

    let cands = Seq::new((n - 2) as nat, |i: int| candidate_name(name, (i + 2) as nat));
    assert(cands.no_duplicates()) by {
        assert forall|i: int, j: int|
            0 <= i < cands.len() && 0 <= j < cands.len() && i != j implies cands[i]
            != cands[j] by {
            if cands[i] == cands[j] {
                lemma_candidate_injective(name, (i + 2) as nat, (j + 2) as nat);
            }
        }
    }
    cands.unique_seq_to_set();
    assert(cands.to_set().len() == n - 2);
    assert(cands.to_set().subset_of(taken.to_set())) by {
        assert forall|x: Seq<char>| cands.to_set().contains(x) implies taken.to_set().contains(
            x,
        ) by {
            let i = choose|i: int| 0 <= i < cands.len() && cands[i] == x;
            assert(taken.contains(candidate_name(name, (i + 2) as nat)));
        }
    }
    taken.lemma_cardinality_of_set();
    vstd::set_lib::lemma_len_subset(cands.to_set(), taken.to_set());
}

} // verus!
