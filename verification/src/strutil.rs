//! Character-sequence helpers shared by the path model, the archive engine
//! and the background worker: splitting and joining on a separator,
//! substring search, decimal rendering, and lexicographic comparison.

use vstd::prelude::*;

verus! {

/// Splitting a character sequence on `sep`, defined by peeling characters
/// off the end; the empty sequence splits into one empty piece.
pub open spec fn split_chars(s: Seq<char>, sep: char) -> Seq<Seq<char>>
    decreases s.len(),
{
    if s.len() == 0 {
        seq![Seq::<char>::empty()]
    } else if s.last() == sep {
        split_chars(s.drop_last(), sep) + seq![Seq::<char>::empty()]
    } else {
        let rest = split_chars(s.drop_last(), sep);
        rest.update(rest.len() - 1, rest.last().push(s.last()))
    }
}

/// A split always yields at least one piece.
pub proof fn lemma_split_chars_len(s: Seq<char>, sep: char)
    ensures
        split_chars(s, sep).len() >= 1,
    decreases s.len(),
{
    if s.len() > 0 {
        lemma_split_chars_len(s.drop_last(), sep);
    }
}

/// Joining pieces with `sep` between consecutive pieces.
pub open spec fn join_chars(parts: Seq<Seq<char>>, sep: char) -> Seq<char>
    decreases parts.len(),
{
    if parts.len() == 0 {
        Seq::<char>::empty()
    } else if parts.len() == 1 {
        parts[0]
    } else {
        join_chars(parts.drop_last(), sep).push(sep) + parts.last()
    }
}

/// The views of the strings in a vector.
pub open spec fn views_of(parts: Seq<String>) -> Seq<Seq<char>> {
    parts.map_values(|p: String| p@)
}

/// Splits `s` at every occurrence of the single character in `sep`.
pub fn split_on(s: &str, sep: &str) -> (r: Vec<String>)
    requires
        sep@.len() == 1,
    ensures
        views_of(r@) == split_chars(s@, sep@[0]),
        r@.len() >= 1,
{
    let ghost sc: char = sep@[0];
    let n = s.unicode_len();
    let mut r: Vec<String> = Vec::new();
    let mut start: usize = 0;
    let mut i: usize = 0;
    proof {
        assert(s@.take(0) =~= Seq::<char>::empty());
        assert(views_of(r@).push(s@.subrange(0, 0)) =~= seq![Seq::<char>::empty()]);
    }
    while i < n
        invariant
            sep@.len() == 1,
            sc == sep@[0],
            start <= i <= n,
            n == s@.len(),
            views_of(r@).push(s@.subrange(start as int, i as int)) == split_chars(
                s@.take(i as int),
                sep@[0],
            ),
        decreases n - i,
    {
        let c = s.get_char(i);
        proof {
            assert(s@.take(i + 1).drop_last() =~= s@.take(i as int));
            assert(s@.take(i + 1).last() == s@[i as int]);
        }
        if c == sep.get_char(0) {
            let piece = s.substring_char(start, i).to_owned();
            proof {
                assert(views_of(r@.push(piece)) =~= views_of(r@).push(piece@));
                assert(views_of(r@.push(piece)).push(Seq::<char>::empty()) =~= split_chars(
                    s@.take(i as int),
                    sc,
                ) + seq![Seq::<char>::empty()]);
                assert(s@.subrange(i + 1, i + 1) =~= Seq::<char>::empty());
            }
            r.push(piece);
            start = i + 1;
        } else {
            proof {
                let rest = split_chars(s@.take(i as int), sc);
                lemma_split_chars_len(s@.take(i as int), sc);
                assert(rest.last() == s@.subrange(start as int, i as int));
                assert(s@.subrange(start as int, i as int).push(s@[i as int]) =~= s@.subrange(
                    start as int,
                    i + 1,
                ));
                assert(rest.update(rest.len() - 1, rest.last().push(s@[i as int]))
                    =~= views_of(r@).push(s@.subrange(start as int, i + 1)));
            }
        }
        i += 1;
    }
    let piece = s.substring_char(start, n).to_owned();
    proof {
        assert(s@.take(n as int) =~= s@);
        assert(views_of(r@.push(piece)) =~= views_of(r@).push(piece@));
    }
    r.push(piece);
    r
}

/// Joins the given strings, writing the single character in `sep` between
/// consecutive entries.
pub fn join_sep(parts: &Vec<String>, sep: &str) -> (r: String)
    requires
        sep@.len() == 1,
        parts@.len() >= 1,
    ensures
        r@ == join_chars(views_of(parts@), sep@[0]),
{
    let ghost sc: char = sep@[0];
    let mut r: String = parts[0].clone();
    let mut i: usize = 1;
    while i < parts.len()
        invariant
            sep@.len() == 1,
            sc == sep@[0],
            1 <= i <= parts@.len(),
            r@ == join_chars(views_of(parts@).take(i as int), sc),
        decreases parts@.len() - i,
    {
        r.append(sep);
        r.append(parts[i].as_str());
        proof {
            let vs = views_of(parts@);
            assert(vs.take(i + 1).drop_last() =~= vs.take(i as int));
            assert(vs.take(i + 1).last() == vs[i as int]);
            assert(join_chars(vs.take(i as int), sc).push(sc) + vs[i as int] =~= join_chars(
                vs.take(i as int),
                sc,
            ) + sep@ + parts@[i as int]@);
        }
        i += 1;
    }
    proof {
        assert(views_of(parts@).take(parts@.len() as int) =~= views_of(parts@));
    }
    r
}

/// Character-by-character string equality.
pub fn str_eq(a: &str, b: &str) -> (r: bool)
    ensures
        r == (a@ == b@),
{
    let n = a.unicode_len();
    if n != b.unicode_len() {
        return false;
    }
    let mut i: usize = 0;
    while i < n
        invariant
            i <= n,
            n == a@.len() == b@.len(),
            forall|j: int| 0 <= j < i ==> a@[j] == b@[j],
        decreases n - i,
    {
        if a.get_char(i) != b.get_char(i) {
            return false;
        }
        i += 1;
    }
    proof {
        assert(a@ =~= b@);
    }
    true
}

/// Whether `c` occurs in `s`.
pub fn contains_char(s: &str, c: char) -> (r: bool)
    ensures
        r == s@.contains(c),
{
    let n = s.unicode_len();
    let mut i: usize = 0;
    while i < n
        invariant
            i <= n,
            n == s@.len(),
            forall|j: int| 0 <= j < i ==> s@[j] != c,
        decreases n - i,
    {
        if s.get_char(i) == c {
            return true;
        }
        i += 1;
    }
    false
}

/// Whether `p` occurs in `s` as a contiguous substring.
pub open spec fn has_substring(s: Seq<char>, p: Seq<char>) -> bool {
    exists|i: int|
        0 <= i <= s.len() - p.len() && #[trigger] s.subrange(i, i + p.len() as int) == p
}

/// Substring search by direct comparison at every offset.
pub fn contains_substring(s: &str, p: &str) -> (r: bool)
    ensures
        r == has_substring(s@, p@),
{
    let n = s.unicode_len();
    let m = p.unicode_len();
    if m > n {
        return false;
    }
    if m == 0 {
        proof {
            assert(s@.subrange(0, 0 + p@.len() as int) =~= p@);
        }
        return true;
    }
    let mut i: usize = 0;
    while i <= n - m
        invariant
            1 <= m <= n,
            n == s@.len(),
            m == p@.len(),
            i <= n - m + 1,
            forall|k: int| 0 <= k < i ==> #[trigger] s@.subrange(k, k + p@.len() as int) != p@,
        decreases n - i,
    {
        let mut j: usize = 0;
        let mut all_match = true;
        while j < m
            invariant
                m <= n,
                n == s@.len(),
                m == p@.len(),
                i <= n - m,
                j <= m,
                all_match ==> forall|t: int| 0 <= t < j ==> s@[i + t] == p@[t],
                !all_match ==> s@.subrange(i as int, i + p@.len() as int) != p@,
            decreases m - j,
        {
            if s.get_char(i + j) != p.get_char(j) {
                proof {
                    assert(s@.subrange(i as int, i + p@.len() as int)[j as int] == s@[i + j]);
                }
                all_match = false;
                j = m;
            } else {
                j += 1;
            }
        }
        if all_match {
            proof {
                assert(s@.subrange(i as int, i + p@.len() as int) =~= p@);
            }
            return true;
        }
        i += 1;
    }
    false
}

/// The character for one decimal digit.
pub open spec fn digit_char(d: int) -> char {
    if d == 0 {
        '0'
    } else if d == 1 {
        '1'
    } else if d == 2 {
        '2'
    } else if d == 3 {
        '3'
    } else if d == 4 {
        '4'
    } else if d == 5 {
        '5'
    } else if d == 6 {
        '6'
    } else if d == 7 {
        '7'
    } else if d == 8 {
        '8'
    } else {
        '9'
    }
}

/// The decimal rendering of a natural number, most significant digit first.
pub open spec fn dec_chars(n: nat) -> Seq<char>
    decreases n,
{
    if n < 10 {
        seq![digit_char(n as int)]
    } else {
        dec_chars(n / 10).push(digit_char((n % 10) as int))
    }
}

fn digit_str(d: u64) -> (r: &'static str)
    requires
        d < 10,
    ensures
        r@ == seq![digit_char(d as int)],
{
    proof {
        reveal_strlit("0");
        reveal_strlit("1");
        reveal_strlit("2");
        reveal_strlit("3");
        reveal_strlit("4");
        reveal_strlit("5");
        reveal_strlit("6");
        reveal_strlit("7");
        reveal_strlit("8");
        reveal_strlit("9");
    }
    let r = match d {
        0 => "0",
        1 => "1",
        2 => "2",
        3 => "3",
        4 => "4",
        5 => "5",
        6 => "6",
        7 => "7",
        8 => "8",
        _ => "9",
    };
    proof {
        assert(r@ =~= seq![digit_char(d as int)]);
    }
    r
}

/// Renders a number in decimal.
pub fn u64_to_string(n: u64) -> (r: String)
    ensures
        r@ == dec_chars(n as nat),
    decreases n,
{
    if n < 10 {
        digit_str(n).to_owned()
    } else {
        let mut r = u64_to_string(n / 10);
        r.append(digit_str(n % 10));
        proof {
            assert(dec_chars((n / 10) as nat) + seq![digit_char((n % 10) as int)] =~= dec_chars(
                n as nat,
            ));
        }
        r
    }
}

/// Decimal renderings are unique: equal renderings come from equal numbers.
pub proof fn lemma_dec_chars_injective(a: nat, b: nat)
    requires
        dec_chars(a) == dec_chars(b),
    ensures
        a == b,
    decreases a,
{
    if a < 10 && b < 10 {
        assert(dec_chars(a) == seq![digit_char(a as int)]);
        assert(dec_chars(b) == seq![digit_char(b as int)]);
        assert(seq![digit_char(a as int)][0] == digit_char(a as int));
        assert(seq![digit_char(b as int)][0] == digit_char(b as int));
        assert(digit_char(a as int) == digit_char(b as int));
        assert(a == b);
    } else if a < 10 && b >= 10 {
        assert(dec_chars(b).len() >= 2) by {
            lemma_dec_chars_nonempty(b / 10);
        }
    } else if a >= 10 && b < 10 {
        assert(dec_chars(a).len() >= 2) by {
            lemma_dec_chars_nonempty(a / 10);
        }
    } else {
        assert(dec_chars(a).last() == digit_char((a % 10) as int));
        assert(dec_chars(b).last() == digit_char((b % 10) as int));
        assert(a % 10 == b % 10);
        assert(dec_chars(a).drop_last() =~= dec_chars(a / 10));
        assert(dec_chars(b).drop_last() =~= dec_chars(b / 10));
        lemma_dec_chars_injective(a / 10, b / 10);
        assert(a == 10 * (a / 10) + a % 10) by {
            vstd::arithmetic::div_mod::lemma_fundamental_div_mod(a as int, 10);
        }
        assert(b == 10 * (b / 10) + b % 10) by {
            vstd::arithmetic::div_mod::lemma_fundamental_div_mod(b as int, 10);
        }
    }
}

/// A decimal rendering has at least one character.
pub proof fn lemma_dec_chars_nonempty(n: nat)
    ensures
        dec_chars(n).len() >= 1,
{
}

/// Strict order on characters by code point.
pub open spec fn char_lt(x: char, y: char) -> bool {
    (x as u32) < (y as u32)
}

/// Characters are equal exactly when neither is below the other.
pub proof fn lemma_char_order(x: char, y: char)
    ensures
        x == y <==> !char_lt(x, y) && !char_lt(y, x),
{
}

/// No piece of a split contains the separator it was split on.
pub proof fn lemma_split_chars_no_sep(s: Seq<char>, sep: char)
    ensures
        forall|i: int|
            0 <= i < split_chars(s, sep).len() ==> !(#[trigger] split_chars(s, sep)[i]).contains(
                sep,
            ),
    decreases s.len(),
{
    if s.len() == 0 {
        assert forall|i: int|
            0 <= i < split_chars(s, sep).len() implies !(#[trigger] split_chars(s, sep)[
            i]).contains(sep) by {
            assert(split_chars(s, sep)[i] =~= Seq::<char>::empty());
        }
    } else {
        lemma_split_chars_no_sep(s.drop_last(), sep);
        let rest = split_chars(s.drop_last(), sep);
        lemma_split_chars_len(s.drop_last(), sep);
        if s.last() == sep {
            assert forall|i: int|
                0 <= i < split_chars(s, sep).len() implies !(#[trigger] split_chars(s, sep)[
                i]).contains(sep) by {
                if i < rest.len() {
                    assert(split_chars(s, sep)[i] == rest[i]);
                } else {
                    assert(split_chars(s, sep)[i] =~= Seq::<char>::empty());
                }
            }
        } else {
            assert forall|i: int|
                0 <= i < split_chars(s, sep).len() implies !(#[trigger] split_chars(s, sep)[
                i]).contains(sep) by {
                if i < rest.len() - 1 {
                    assert(split_chars(s, sep)[i] == rest[i]);
                } else {
                    assert(split_chars(s, sep)[i] == rest.last().push(s.last()));
                    assert(!rest.last().contains(sep));
                    assert forall|j: int|
                        0 <= j < rest.last().push(s.last()).len() implies rest.last().push(
                        s.last(),
                    )[j] != sep by {
                        if j < rest.last().len() {
                            assert(rest.last().push(s.last())[j] == rest.last()[j]);
                        }
                    }
                }
            }
        }
    }
}

/// A sequence free of the separator splits into exactly itself.
pub proof fn lemma_split_chars_whole(s: Seq<char>, sep: char)
    requires
        !s.contains(sep),
    ensures
        split_chars(s, sep) == seq![s],
    decreases s.len(),
{
    if s.len() == 0 {
        assert(s =~= Seq::<char>::empty());
        assert(split_chars(s, sep) =~= seq![s]);
    } else {
        assert(!s.drop_last().contains(sep)) by {
            if s.drop_last().contains(sep) {
                let j = choose|j: int| 0 <= j < s.drop_last().len() && s.drop_last()[j] == sep;
                assert(s[j] == sep);
            }
        }
        lemma_split_chars_whole(s.drop_last(), sep);
        assert(s.last() != sep);
        let rest = split_chars(s.drop_last(), sep);
        assert(rest == seq![s.drop_last()]);
        assert(rest.len() == 1);
        assert(rest.last() == s.drop_last());
        assert(split_chars(s, sep) == rest.update(0, rest.last().push(s.last())));
        assert(s.drop_last().push(s.last()) =~= s);
        assert(rest.update(0, s.drop_last().push(s.last())) =~= seq![s]);
    }
}

/// A decimal rendering never holds a delimiter, separator, backslash or
/// null character.
pub proof fn lemma_dec_chars_digits(n: nat)
    ensures
        !dec_chars(n).contains('+'),
        !dec_chars(n).contains('/'),
        !dec_chars(n).contains('\\'),
        !dec_chars(n).contains('\u{0}'),
    decreases n,
{
    if n < 10 {
        assert forall|j: int| 0 <= j < dec_chars(n).len() implies dec_chars(n)[j] != '+'
            && dec_chars(n)[j] != '/' && dec_chars(n)[j] != '\\' && dec_chars(n)[j]
            != '\u{0}' by {
            assert(dec_chars(n)[j] == digit_char(n as int));
        }
    } else {
        lemma_dec_chars_digits(n / 10);
        assert forall|j: int| 0 <= j < dec_chars(n).len() implies dec_chars(n)[j] != '+'
            && dec_chars(n)[j] != '/' && dec_chars(n)[j] != '\\' && dec_chars(n)[j]
            != '\u{0}' by {
            if j < dec_chars(n / 10).len() {
                assert(dec_chars(n)[j] == dec_chars(n / 10)[j]);
            } else {
                assert(dec_chars(n)[j] == digit_char((n % 10) as int));
            }
        }
    }
}

/// Splitting after appending a separator and a separator-free piece adds
/// exactly that piece.
pub proof fn lemma_split_append_clean(x: Seq<char>, y: Seq<char>, sep: char)
    requires
        !y.contains(sep),
    ensures
        split_chars(x + seq![sep] + y, sep) == split_chars(x, sep) + seq![y],
    decreases y.len(),
{
    if y.len() == 0 {
        assert(x + seq![sep] + y =~= x + seq![sep]);
        assert((x + seq![sep]).drop_last() =~= x);
        assert((x + seq![sep]).last() == sep);
        assert(split_chars(x + seq![sep], sep) == split_chars(x, sep) + seq![
            Seq::<char>::empty()
        ]);
        assert(y =~= Seq::<char>::empty());
        assert(split_chars(x, sep) + seq![Seq::<char>::empty()] =~= split_chars(x, sep) + seq![y]);
    } else {
        assert(!y.drop_last().contains(sep)) by {
            if y.drop_last().contains(sep) {
                let j = choose|j: int| 0 <= j < y.drop_last().len() && y.drop_last()[j] == sep;
                assert(y[j] == sep);
            }
        }
        lemma_split_append_clean(x, y.drop_last(), sep);
        let whole = x + seq![sep] + y;
        assert(whole.drop_last() =~= x + seq![sep] + y.drop_last());
        assert(whole.last() == y.last());
        assert(y.last() != sep);
        let rest = split_chars(x + seq![sep] + y.drop_last(), sep);
        lemma_split_chars_len(x + seq![sep] + y.drop_last(), sep);
        assert(rest == split_chars(x, sep) + seq![y.drop_last()]);
        assert(rest.last() == y.drop_last());
        assert(split_chars(whole, sep) == rest.update(
            rest.len() - 1,
            rest.last().push(y.last()),
        ));
        assert(y.drop_last().push(y.last()) =~= y);
        assert(rest.update(rest.len() - 1, y) =~= split_chars(x, sep) + seq![y]);
    }
}

/// Splitting undoes joining, for separator-free pieces.
pub proof fn lemma_join_split_inverse(parts: Seq<Seq<char>>, sep: char)
    requires
        parts.len() >= 1,
        forall|i: int| 0 <= i < parts.len() ==> !(#[trigger] parts[i]).contains(sep),
    ensures
        split_chars(join_chars(parts, sep), sep) == parts,
    decreases parts.len(),
{
    if parts.len() == 1 {
        lemma_split_chars_whole(parts[0], sep);
        assert(join_chars(parts, sep) == parts[0]);
        assert(split_chars(join_chars(parts, sep), sep) =~= parts);
    } else {
        assert forall|i: int|
            0 <= i < parts.drop_last().len() implies !(#[trigger] parts.drop_last()[i]).contains(
            sep,
        ) by {
            assert(parts.drop_last()[i] == parts[i]);
        }
        lemma_join_split_inverse(parts.drop_last(), sep);
        let front = join_chars(parts.drop_last(), sep);
        assert(join_chars(parts, sep) == front.push(sep) + parts.last());
        assert(front.push(sep) + parts.last() =~= front + seq![sep] + parts.last());
        lemma_split_append_clean(front, parts.last(), sep);
        assert(split_chars(front, sep) + seq![parts.last()] =~= parts);
    }
}

/// Lexicographic order on character sequences, by code point.
pub open spec fn lex_le(a: Seq<char>, b: Seq<char>) -> bool
    decreases a.len(),
{
    if a.len() == 0 {
        true
    } else if b.len() == 0 {
        false
    } else if char_lt(a[0], b[0]) {
        true
    } else if a[0] == b[0] {
        lex_le(a.drop_first(), b.drop_first())
    } else {
        false
    }
}

/// The order is total: one of the two directions always holds.
pub proof fn lemma_lex_le_total(a: Seq<char>, b: Seq<char>)
    ensures
        lex_le(a, b) || lex_le(b, a),
    decreases a.len(),
{
    if a.len() > 0 && b.len() > 0 {
        lemma_char_order(a[0], b[0]);
        if a[0] == b[0] {
            lemma_lex_le_total(a.drop_first(), b.drop_first());
        }
    }
}

/// The order is transitive.
pub proof fn lemma_lex_le_trans(a: Seq<char>, b: Seq<char>, c: Seq<char>)
    requires
        lex_le(a, b),
        lex_le(b, c),
    ensures
        lex_le(a, c),
    decreases a.len(),
{
    if a.len() > 0 {
        if a[0] == b[0] && b[0] == c[0] {
            lemma_lex_le_trans(a.drop_first(), b.drop_first(), c.drop_first());
        }
    }
}

/// Lexicographic comparison of two strings.
pub fn lex_le_exec(a: &str, b: &str) -> (r: bool)
    ensures
        r == lex_le(a@, b@),
{
    let la = a.unicode_len();
    let lb = b.unicode_len();
    let mut i: usize = 0;
    proof {
        assert(a@.skip(0) =~= a@);
        assert(b@.skip(0) =~= b@);
    }
    while i < la && i < lb
        invariant
            i <= la,
            i <= lb,
            la == a@.len(),
            lb == b@.len(),
            lex_le(a@, b@) == lex_le(a@.skip(i as int), b@.skip(i as int)),
        decreases la - i,
    {
        let ca = a.get_char(i);
        let cb = b.get_char(i);
        proof {
            assert(a@.skip(i as int)[0] == a@[i as int]);
            assert(b@.skip(i as int)[0] == b@[i as int]);
            lemma_char_order(ca, cb);
        }
        if (ca as u32) < (cb as u32) {
            return true;
        }
        if (ca as u32) > (cb as u32) {
            return false;
        }
        proof {
            assert(ca == cb);
            assert(a@.skip(i as int).drop_first() =~= a@.skip(i + 1));
            assert(b@.skip(i as int).drop_first() =~= b@.skip(i + 1));
        }
        i += 1;
    }
    proof {
        if i == la {
            assert(a@.skip(i as int).len() == 0);
        } else {
            assert(b@.skip(i as int).len() == 0);
            assert(a@.skip(i as int).len() > 0);
        }
    }
    la <= lb
}

} // verus!
