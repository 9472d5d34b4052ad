//! Character-level text utilities: searching, comparison, case folding,
//! whitespace and separator splitting, and joining with a separator.
//!
//! The recipe text is handled as a vector of characters; every function here
//! is specified against a recursive spec function over `Seq<char>`.

use vstd::prelude::*;

verus! {

/// The ASCII whitespace characters, the token separators of a field value.
pub open spec fn is_ws(c: char) -> bool {
    c == ' ' || c == '\t' || c == '\n' || c == '\r' || c == '\x0c'
}

/// Executable mirror of [`is_ws`].
pub fn char_is_ws(c: char) -> (b: bool)
    ensures
        b == is_ws(c),
{
    c == ' ' || c == '\t' || c == '\n' || c == '\r' || c == '\x0c'
}

/// ASCII lower-casing of one character; anything but `A`..`Z` is unchanged.
pub open spec fn lower_char(c: char) -> char {
    if 'A' <= c && c <= 'Z' {
        (((c as u8) + 32) as char)
    } else {
        c
    }
}

/// ASCII lower-casing of a whole sequence.
pub open spec fn lower_seq(s: Seq<char>) -> Seq<char> {
    s.map_values(|c: char| lower_char(c))
}

/// Lower-cases the ASCII letters of `v`.
pub fn to_lower(v: &Vec<char>) -> (r: Vec<char>)
    ensures
        r@ == lower_seq(v@),
{
    let mut r: Vec<char> = Vec::new();
    let n = v.len();
    let mut i: usize = 0;
    while i < n
        invariant
            n == v@.len(),
            i <= n,
            r@.len() == i,
            forall|k: int| 0 <= k < i ==> r@[k] == lower_char(v@[k]),
        decreases n - i,
    {
        let c = v[i];
        if 'A' <= c && c <= 'Z' {
            r.push(((c as u8) + 32) as char);
        } else {
            r.push(c);
        }
        i += 1;
    }
    proof {
        assert(r@ =~= lower_seq(v@));
    }
    r
}

/// The first position `j >= i` with `s[j] == c`, if any.
pub open spec fn find_char_from(s: Seq<char>, i: int, c: char) -> Option<int>
    decreases s.len() - i,
{
    if i < 0 || i >= s.len() {
        None
    } else if s[i] == c {
        Some(i)
    } else {
        find_char_from(s, i + 1, c)
    }
}

/// What [`find_char_from`] returns: the first occurrence at or after `i`.
pub proof fn lemma_find_char_from(s: Seq<char>, i: int, c: char)
    requires
        0 <= i <= s.len(),
    ensures
        match find_char_from(s, i, c) {
            Some(j) => i <= j < s.len() && s[j] == c && forall|k: int| i <= k < j ==> s[k] != c,
            None => forall|k: int| i <= k < s.len() ==> s[k] != c,
        },
    decreases s.len() - i,
{
    if i < s.len() && s[i] != c {
        lemma_find_char_from(s, i + 1, c);
    }
}

/// Scans `text` from `from` for the first occurrence of `c`.
pub fn find_char(text: &Vec<char>, from: usize, c: char) -> (r: Option<usize>)
    requires
        from <= text@.len(),
    ensures
        match r {
            Some(j) => find_char_from(text@, from as int, c) == Some(j as int),
            None => find_char_from(text@, from as int, c) is None,
        },
{
    let n = text.len();
    let mut i: usize = from;
    while i < n
        invariant
            n == text@.len(),
            from <= i <= n,
            find_char_from(text@, from as int, c) == find_char_from(text@, i as int, c),
        decreases n - i,
    {
        if text[i] == c {
            return Some(i);
        }
        i += 1;
    }
    None
}

/// `pat` occurs in `s` at position `i`.
pub open spec fn match_at(s: Seq<char>, pat: Seq<char>, i: int) -> bool {
    &&& 0 <= i
    &&& i + pat.len() <= s.len()
    &&& s.subrange(i, i + pat.len() as int) == pat
}

/// The first position `j >= i` where `pat` occurs in `s`, if any.
pub open spec fn find_sub_from(s: Seq<char>, pat: Seq<char>, i: int) -> Option<int>
    decreases s.len() - i + 1,
{
    if i < 0 || i + pat.len() > s.len() {
        None
    } else if match_at(s, pat, i) {
        Some(i)
    } else {
        find_sub_from(s, pat, i + 1)
    }
}

/// What [`find_sub_from`] returns: the first match at or after `i`.
pub proof fn lemma_find_sub_from(s: Seq<char>, pat: Seq<char>, i: int)
    requires
        0 <= i,
    ensures
        match find_sub_from(s, pat, i) {
            Some(j) => i <= j && match_at(s, pat, j) && forall|k: int|
                i <= k < j ==> !match_at(s, pat, k),
            None => forall|k: int| i <= k ==> !match_at(s, pat, k),
        },
    decreases s.len() - i + 1,
{
    if i + pat.len() > s.len() {
        assert forall|k: int| i <= k implies !match_at(s, pat, k) by {}
    } else if !match_at(s, pat, i) {
        lemma_find_sub_from(s, pat, i + 1);
    }
}

/// Tests whether `pat` occurs in `text` at position `i`.
pub fn occurs_at(text: &Vec<char>, pat: &Vec<char>, i: usize) -> (r: bool)
    requires
        i + pat@.len() <= text@.len(),
    ensures
        r == match_at(text@, pat@, i as int),
{
    let n = text.len();
    let m = pat.len();
    let mut j: usize = 0;
    while j < m
        invariant
            n == text@.len(),
            m == pat@.len(),
            i + m <= n,
            j <= m,
            text@.subrange(i as int, i + j) =~= pat@.subrange(0, j as int),
        decreases m - j,
    {
        if text[i + j] != pat[j] {
            proof {
                assert(text@.subrange(i as int, i + m)[j as int] == text@[i + j]);
                assert(pat@.subrange(0, m as int)[j as int] == pat@[j as int]);
                assert(pat@.subrange(0, m as int) =~= pat@);
                assert(!match_at(text@, pat@, i as int));
            }
            return false;
        }
        proof {
            assert(text@.subrange(i as int, i + j + 1) =~= text@.subrange(i as int, i + j).push(
                text@[i + j],
            ));
            assert(pat@.subrange(0, j as int + 1) =~= pat@.subrange(0, j as int).push(
                pat@[j as int],
            ));
        }
        j += 1;
    }
    proof {
        assert(text@.subrange(i as int, i + m) =~= pat@);
    }
    true
}

/// Scans `text` from `from` for the first occurrence of `pat`.
pub fn find_sub(text: &Vec<char>, pat: &Vec<char>, from: usize) -> (r: Option<usize>)
    requires
        from <= text@.len(),
    ensures
        match r {
            Some(j) => find_sub_from(text@, pat@, from as int) == Some(j as int),
            None => find_sub_from(text@, pat@, from as int) is None,
        },
{
    let n = text.len();
    let m = pat.len();
    if m == 0 {
        proof {
            assert(text@.subrange(from as int, from as int) =~= pat@);
        }
        return Some(from);
    }
    if m > n || from > n - m {
        return None;
    }
    let mut i: usize = from;
    while i <= n - m
        invariant
            n == text@.len(),
            m == pat@.len(),
            1 <= m <= n,
            from <= i <= n - m + 1,
            find_sub_from(text@, pat@, from as int) == find_sub_from(text@, pat@, i as int),
        decreases n - i,
    {
        if occurs_at(text, pat, i) {
            return Some(i);
        }
        i += 1;
    }
    None
}

/// Copies `src[from..to]` into a fresh vector.
pub fn subvec(src: &Vec<char>, from: usize, to: usize) -> (r: Vec<char>)
    requires
        from <= to <= src@.len(),
    ensures
        r@ == src@.subrange(from as int, to as int),
{
    let mut r: Vec<char> = Vec::new();
    let mut i: usize = from;
    while i < to
        invariant
            from <= i <= to <= src@.len(),
            r@ == src@.subrange(from as int, i as int),
        decreases to - i,
    {
        r.push(src[i]);
        proof {
            assert(src@.subrange(from as int, i + 1) =~= src@.subrange(from as int, i as int).push(
                src@[i as int],
            ));
        }
        i += 1;
    }
    r
}

/// Appends `src[from..to]` to `dst`.
pub fn push_range(dst: &mut Vec<char>, src: &Vec<char>, from: usize, to: usize)
    requires
        from <= to <= src@.len(),
    ensures
        final(dst)@ == old(dst)@ + src@.subrange(from as int, to as int),
{
    let mut i: usize = from;
    while i < to
        invariant
            from <= i <= to <= src@.len(),
            dst@ == old(dst)@ + src@.subrange(from as int, i as int),
        decreases to - i,
    {
        dst.push(src[i]);
        proof {
            assert(src@.subrange(from as int, i + 1) =~= src@.subrange(from as int, i as int).push(
                src@[i as int],
            ));
            assert(dst@ =~= old(dst)@ + src@.subrange(from as int, i + 1));
        }
        i += 1;
    }
}

/// Appends all of `src` to `dst`.
pub fn push_all(dst: &mut Vec<char>, src: &Vec<char>)
    ensures
        final(dst)@ == old(dst)@ + src@,
{
    push_range(dst, src, 0, src.len());
    proof {
        assert(src@.subrange(0, src@.len() as int) =~= src@);
    }
}

/// Appends the characters of the string slice `s` to `dst`.
pub fn push_str(dst: &mut Vec<char>, s: &str)
    ensures
        final(dst)@ == old(dst)@ + s@,
{
    let n = s.unicode_len();
    let mut i: usize = 0;
    while i < n
        invariant
            n == s@.len(),
            i <= n,
            dst@ == old(dst)@ + s@.subrange(0, i as int),
        decreases n - i,
    {
        dst.push(s.get_char(i));
        proof {
            assert(s@.subrange(0, i + 1) =~= s@.subrange(0, i as int).push(s@[i as int]));
            assert(dst@ =~= old(dst)@ + s@.subrange(0, i + 1));
        }
        i += 1;
    }
    proof {
        assert(s@.subrange(0, n as int) =~= s@);
    }
}

/// The characters of `s`, one vector element per character.
pub fn chars_of(s: &str) -> (r: Vec<char>)
    ensures
        r@ == s@,
{
    let mut r: Vec<char> = Vec::new();
    push_str(&mut r, s);
    r
}

/// Collects a character vector back into a string.
///
/// Relies on `core::iter::Iterator::collect` into `String`, whose
/// documentation states that the collected string consists of exactly the
/// iterated characters in order.
#[verifier::external_body]
pub fn string_from_chars(v: &Vec<char>) -> (r: String)
    ensures
        r@ == v@,
{
    v.iter().collect()
}

/// Compares two string slices character by character.
pub fn str_eq_str(a: &str, b: &str) -> (r: bool)
    ensures
        r == (a@ == b@),
{
    let n = a.unicode_len();
    if n != b.unicode_len() {
        return false;
    }
    let mut i: usize = 0;
    while i < n
        invariant
            n == a@.len() == b@.len(),
            i <= n,
            a@.subrange(0, i as int) =~= b@.subrange(0, i as int),
        decreases n - i,
    {
        if a.get_char(i) != b.get_char(i) {
            proof {
                assert(a@[i as int] != b@[i as int]);
            }
            return false;
        }
        proof {
            assert(a@.subrange(0, i + 1) =~= a@.subrange(0, i as int).push(a@[i as int]));
            assert(b@.subrange(0, i + 1) =~= b@.subrange(0, i as int).push(b@[i as int]));
        }
        i += 1;
    }
    proof {
        assert(a@.subrange(0, n as int) =~= a@);
        assert(b@.subrange(0, n as int) =~= b@);
    }
    true
}

/// Compares a character vector against a string slice.
pub fn eq_str(v: &Vec<char>, s: &str) -> (r: bool)
    ensures
        r == (v@ == s@),
{
    let n = s.unicode_len();
    if v.len() != n {
        proof {
            if v@ == s@ {
                assert(v@.len() == s@.len());
            }
        }
        return false;
    }
    let mut i: usize = 0;
    while i < n
        invariant
            n == v@.len() == s@.len(),
            i <= n,
            v@.subrange(0, i as int) =~= s@.subrange(0, i as int),
        decreases n - i,
    {
        if v[i] != s.get_char(i) {
            proof {
                assert(v@[i as int] != s@[i as int]);
            }
            return false;
        }
        proof {
            assert(v@.subrange(0, i + 1) =~= v@.subrange(0, i as int).push(v@[i as int]));
            assert(s@.subrange(0, i + 1) =~= s@.subrange(0, i as int).push(s@[i as int]));
        }
        i += 1;
    }
    proof {
        assert(v@.subrange(0, n as int) =~= v@);
        assert(s@.subrange(0, n as int) =~= s@);
    }
    true
}

/// `p` is a prefix of `s`.
pub open spec fn has_prefix(s: Seq<char>, p: Seq<char>) -> bool {
    p.len() <= s.len() && s.subrange(0, p.len() as int) == p
}

/// Tests whether the string slice `p` is a prefix of `v`.
pub fn starts_with(v: &Vec<char>, p: &str) -> (r: bool)
    ensures
        r == has_prefix(v@, p@),
{
    let n = p.unicode_len();
    if v.len() < n {
        return false;
    }
    let mut i: usize = 0;
    while i < n
        invariant
            n == p@.len(),
            n <= v@.len(),
            i <= n,
            v@.subrange(0, i as int) =~= p@.subrange(0, i as int),
        decreases n - i,
    {
        if v[i] != p.get_char(i) {
            proof {
                assert(v@.subrange(0, n as int)[i as int] == v@[i as int]);
                assert(v@[i as int] != p@[i as int]);
            }
            return false;
        }
        proof {
            assert(v@.subrange(0, i + 1) =~= v@.subrange(0, i as int).push(v@[i as int]));
            assert(p@.subrange(0, i + 1) =~= p@.subrange(0, i as int).push(p@[i as int]));
        }
        i += 1;
    }
    proof {
        assert(p@.subrange(0, n as int) =~= p@);
    }
    true
}

/// The end of the whitespace-free token that starts at `i`: the first
/// position at or after `i` holding whitespace, or the end of `s`.
pub open spec fn tok_end(s: Seq<char>, i: int) -> int
    decreases s.len() - i + 1,
{
    if i < 0 || i >= s.len() || is_ws(s[i]) {
        i
    } else {
        tok_end(s, i + 1)
    }
}

/// Bounds and content of the token delimited by [`tok_end`].
pub proof fn lemma_tok_end(s: Seq<char>, i: int)
    requires
        0 <= i <= s.len(),
    ensures
        i <= tok_end(s, i) <= s.len(),
        forall|k: int| i <= k < tok_end(s, i) ==> !is_ws(s[k]),
        tok_end(s, i) == s.len() || is_ws(s[tok_end(s, i)]),
    decreases s.len() - i + 1,
{
    if i < s.len() && !is_ws(s[i]) {
        lemma_tok_end(s, i + 1);
    }
}

/// The whitespace-split tokens of `s`, starting at position `i`.
pub open spec fn split_ws_from(s: Seq<char>, i: int) -> Seq<Seq<char>>
    decreases s.len() - i,
    via split_ws_from_decreases
{
    if i < 0 || i >= s.len() {
        Seq::empty()
    } else if is_ws(s[i]) {
        split_ws_from(s, i + 1)
    } else {
        seq![s.subrange(i, tok_end(s, i))] + split_ws_from(s, tok_end(s, i))
    }
}

#[via_fn]
proof fn split_ws_from_decreases(s: Seq<char>, i: int) {
    if 0 <= i < s.len() && !is_ws(s[i]) {
        lemma_tok_end(s, i + 1);
    }
}

/// The whitespace-split tokens of a whole sequence.
pub open spec fn split_ws(s: Seq<char>) -> Seq<Seq<char>> {
    split_ws_from(s, 0)
}

/// The element views of a vector of character vectors.
pub open spec fn views_of(v: Seq<Vec<char>>) -> Seq<Seq<char>> {
    v.map_values(|t: Vec<char>| t@)
}

/// Splits `v` on runs of whitespace; no token is empty or holds whitespace.
pub fn split_whitespace(v: &Vec<char>) -> (r: Vec<Vec<char>>)
    ensures
        views_of(r@) == split_ws(v@),
{
    let n = v.len();
    let mut r: Vec<Vec<char>> = Vec::new();
    let mut i: usize = 0;
    proof {
        assert(views_of(r@) + split_ws_from(v@, 0) =~= split_ws(v@));
    }
    while i < n
        invariant
            n == v@.len(),
            i <= n,
            views_of(r@) + split_ws_from(v@, i as int) == split_ws(v@),
        decreases n - i,
    {
        if char_is_ws(v[i]) {
            i += 1;
        } else {
            let mut j: usize = i;
            while j < n && !char_is_ws(v[j])
                invariant
                    n == v@.len(),
                    i <= j <= n,
                    tok_end(v@, i as int) == tok_end(v@, j as int),
                decreases n - j,
            {
                j += 1;
            }
            proof {
                assert(tok_end(v@, j as int) == j);
            }
            let tok = subvec(v, i, j);
            let ghost prev = views_of(r@);
            r.push(tok);
            proof {
                assert(views_of(r@) =~= prev + seq![v@.subrange(i as int, j as int)]);
                assert(split_ws_from(v@, i as int) == seq![v@.subrange(i as int, j as int)]
                    + split_ws_from(v@, j as int));
                assert(views_of(r@) + split_ws_from(v@, j as int) =~= split_ws(v@));
            }
            i = j;
        }
    }
    proof {
        assert(views_of(r@) =~= split_ws(v@));
    }
    r
}

/// A double-colon separator stands at position `i` of `s`.
pub open spec fn sep_at(s: Seq<char>, i: int) -> bool {
    0 <= i && i + 2 <= s.len() && s[i] == ':' && s[i + 1] == ':'
}

/// The first double-colon separator at or after `i`, if any.
pub open spec fn find_sep_from(s: Seq<char>, i: int) -> Option<int>
    decreases s.len() - i + 1,
{
    if i < 0 || i + 2 > s.len() {
        None
    } else if sep_at(s, i) {
        Some(i)
    } else {
        find_sep_from(s, i + 1)
    }
}

/// What [`find_sep_from`] returns: the first separator at or after `i`.
pub proof fn lemma_find_sep_from(s: Seq<char>, i: int)
    requires
        0 <= i,
    ensures
        match find_sep_from(s, i) {
            Some(j) => i <= j && sep_at(s, j) && forall|k: int| i <= k < j ==> !sep_at(s, k),
            None => forall|k: int| i <= k ==> !sep_at(s, k),
        },
    decreases s.len() - i + 1,
{
    if !(i < 0 || i + 2 > s.len()) && !sep_at(s, i) {
        lemma_find_sep_from(s, i + 1);
    }
}

/// The segments of `s` split on `::`, starting at position `i`.  There is
/// always at least one segment; segments may be empty.
pub open spec fn split_sep_from(s: Seq<char>, i: int) -> Seq<Seq<char>>
    decreases s.len() - i + 1,
    via split_sep_from_decreases
{
    match find_sep_from(s, i) {
        None => seq![s.subrange(i, s.len() as int)],
        Some(j) => seq![s.subrange(i, j)] + split_sep_from(s, j + 2),
    }
}

#[via_fn]
proof fn split_sep_from_decreases(s: Seq<char>, i: int) {
    if i >= 0 {
        lemma_find_sep_from(s, i);
    }
}

/// The segments of a whole token split on `::`.
pub open spec fn split_sep(s: Seq<char>) -> Seq<Seq<char>> {
    split_sep_from(s, 0)
}

/// Scans `v` from `from` for the first `::` separator.
fn find_sep_at(v: &Vec<char>, from: usize) -> (r: Option<usize>)
    requires
        from <= v@.len(),
    ensures
        match r {
            Some(j) => find_sep_from(v@, from as int) == Some(j as int) && from <= j && j + 2
                <= v@.len(),
            None => find_sep_from(v@, from as int) is None,
        },
{
    let n = v.len();
    if n < 2 || from > n - 2 {
        return None;
    }
    let mut i: usize = from;
    while i <= n - 2
        invariant
            n == v@.len(),
            2 <= n,
            from <= i <= n - 1,
            find_sep_from(v@, from as int) == find_sep_from(v@, i as int),
        decreases n - i,
    {
        if v[i] == ':' && v[i + 1] == ':' {
            return Some(i);
        }
        i += 1;
    }
    None
}

/// Splits `v` on each occurrence of `::`.
pub fn split_double_colon(v: &Vec<char>) -> (r: Vec<Vec<char>>)
    ensures
        views_of(r@) == split_sep(v@),
        r@.len() >= 1,
{
    let n = v.len();
    let mut r: Vec<Vec<char>> = Vec::new();
    let mut i: usize = 0;
    proof {
        assert(views_of(r@) + split_sep_from(v@, 0) =~= split_sep(v@));
    }
    loop
        invariant
            n == v@.len(),
            i <= n,
            views_of(r@) + split_sep_from(v@, i as int) == split_sep(v@),
        ensures
            views_of(r@) == split_sep(v@),
            r@.len() >= 1,
        decreases n - i,
    {
        let ghost prev = views_of(r@);
        let sep = find_sep_at(v, i);
        match sep {
            None => {
                let tok = subvec(v, i, n);
                r.push(tok);
                proof {
                    assert(views_of(r@) =~= prev + seq![v@.subrange(i as int, n as int)]);
                    assert(split_sep_from(v@, i as int) == seq![
                        v@.subrange(i as int, n as int),
                    ]);
                    assert(views_of(r@) =~= split_sep(v@));
                }
                return r;
            },
            Some(j) => {
                let tok = subvec(v, i, j);
                r.push(tok);
                proof {
                    lemma_find_sep_from(v@, i as int);
                    assert(views_of(r@) =~= prev + seq![v@.subrange(i as int, j as int)]);
                    assert(split_sep_from(v@, i as int) == seq![v@.subrange(i as int, j as int)]
                        + split_sep_from(v@, j + 2));
                    assert(views_of(r@) + split_sep_from(v@, j + 2) =~= split_sep(v@));
                }
                i = j + 2;
            },
        }
    }
}

/// The concatenation of `toks` with `sep` between adjacent tokens.
pub open spec fn join_with(toks: Seq<Seq<char>>, sep: Seq<char>) -> Seq<char>
    decreases toks.len(),
{
    if toks.len() == 0 {
        Seq::empty()
    } else if toks.len() == 1 {
        toks[0]
    } else {
        toks[0] + sep + join_with(toks.drop_first(), sep)
    }
}

/// Appending one token to a joined list appends one separator and the token.
pub proof fn lemma_join_push(toks: Seq<Seq<char>>, sep: Seq<char>, t: Seq<char>)
    requires
        toks.len() >= 1,
    ensures
        join_with(toks.push(t), sep) == join_with(toks, sep) + sep + t,
    decreases toks.len(),
{
    if toks.len() == 1 {
        assert(toks.push(t).drop_first() =~= seq![t]);
        assert(join_with(seq![t], sep) == t);
        assert(join_with(toks.push(t), sep) == toks.push(t)[0] + sep + join_with(
            toks.push(t).drop_first(),
            sep,
        ));
        assert(toks.push(t)[0] == toks[0]);
        assert(join_with(toks, sep) == toks[0]);
    } else {
        lemma_join_push(toks.drop_first(), sep, t);
        assert(toks.push(t).drop_first() =~= toks.drop_first().push(t));
        assert(join_with(toks.push(t), sep) == toks.push(t)[0] + sep + join_with(
            toks.push(t).drop_first(),
            sep,
        ));
        assert(join_with(toks, sep) == toks[0] + sep + join_with(toks.drop_first(), sep));
        assert(toks.push(t)[0] == toks[0]);
        assert(join_with(toks.push(t), sep) =~= join_with(toks, sep) + sep + t);
    }
}

/// Joins the tokens of `toks` with `sep` between adjacent tokens.
pub fn join_tokens(toks: &Vec<Vec<char>>, sep: &Vec<char>) -> (r: Vec<char>)
    ensures
        r@ == join_with(views_of(toks@), sep@),
{
    let mut r: Vec<char> = Vec::new();
    let n = toks.len();
    if n == 0 {
        return r;
    }
    push_all(&mut r, &toks[0]);
    proof {
        assert(r@ =~= toks@[0]@);
        assert(views_of(toks@).subrange(0, 1) =~= seq![toks@[0]@]);
        assert(join_with(seq![toks@[0]@], sep@) == toks@[0]@);
    }
    let mut i: usize = 1;
    while i < n
        invariant
            n == toks@.len(),
            1 <= i <= n,
            r@ == join_with(views_of(toks@).subrange(0, i as int), sep@),
        decreases n - i,
    {
        push_all(&mut r, sep);
        push_all(&mut r, &toks[i]);
        proof {
            let pre = views_of(toks@).subrange(0, i as int);
            assert(pre.len() >= 1);
            lemma_join_push(pre, sep@, toks@[i as int]@);
            assert(pre.push(toks@[i as int]@) =~= views_of(toks@).subrange(0, i + 1));
            assert(r@ =~= join_with(views_of(toks@).subrange(0, i + 1), sep@));
        }
        i += 1;
    }
    proof {
        assert(views_of(toks@).subrange(0, n as int) =~= views_of(toks@));
    }
    r
}

/// `s` with every double-quote character removed.
pub open spec fn drop_quotes(s: Seq<char>) -> Seq<char>
    decreases s.len(),
{
    if s.len() == 0 {
        Seq::empty()
    } else if s[0] == '"' {
        drop_quotes(s.drop_first())
    } else {
        seq![s[0]] + drop_quotes(s.drop_first())
    }
}

/// Removes every double-quote character from `v`.
pub fn remove_quotes(v: &Vec<char>) -> (r: Vec<char>)
    ensures
        r@ == drop_quotes(v@),
{
    let n = v.len();
    let mut r: Vec<char> = Vec::new();
    let mut i: usize = 0;
    proof {
        assert(v@.skip(0) =~= v@);
    }
    while i < n
        invariant
            n == v@.len(),
            i <= n,
            r@ + drop_quotes(v@.skip(i as int)) == drop_quotes(v@),
        decreases n - i,
    {
        proof {
            assert(v@.skip(i as int).drop_first() =~= v@.skip(i + 1));
            assert(v@.skip(i as int)[0] == v@[i as int]);
        }
        if v[i] != '"' {
            r.push(v[i]);
            proof {
                assert(r@ + drop_quotes(v@.skip(i + 1)) =~= drop_quotes(v@));
            }
        } else {
            proof {
                assert(r@ + drop_quotes(v@.skip(i + 1)) =~= drop_quotes(v@));
            }
        }
        i += 1;
    }
    proof {
        assert(v@.skip(n as int) =~= Seq::<char>::empty());
        assert(r@ =~= drop_quotes(v@));
    }
    r
}

/// The views of a sequence of strings.
pub open spec fn string_views(v: Seq<String>) -> Seq<Seq<char>> {
    v.map_values(|s: String| s@)
}

/// The separator placed between checksum tokens in a patched field: a
/// backslash-continued line break, indented to align the next token under
/// the opening quote of `KEY="`.
pub open spec fn continuation_sep(key: Seq<char>) -> Seq<char> {
    seq![' ', '\\', '\n'] + Seq::new(key.len() + 2, |i: int| ' ')
}

/// Builds the continuation separator for `key`.
pub fn continuation_sep_exec(key: &Vec<char>) -> (r: Vec<char>)
    ensures
        r@ == continuation_sep(key@),
{
    let mut r: Vec<char> = Vec::new();
    r.push(' ');
    r.push('\\');
    r.push('\n');
    let n = key.len();
    let mut i: usize = 0;
    while i < n
        invariant
            n == key@.len(),
            i <= n,
            r@.len() == 3 + i,
            r@[0] == ' ' && r@[1] == '\\' && r@[2] == '\n',
            forall|k: int| 3 <= k < r@.len() ==> r@[k] == ' ',
        decreases n - i,
    {
        r.push(' ');
        i += 1;
    }
    r.push(' ');
    r.push(' ');
    proof {
        assert(r@ =~= continuation_sep(key@));
    }
    r
}


/// Converts each string of `v` into its character vector.
pub fn strings_to_charvecs(v: &Vec<String>) -> (r: Vec<Vec<char>>)
    ensures
        views_of(r@) == string_views(v@),
{
    let n = v.len();
    let mut r: Vec<Vec<char>> = Vec::new();
    let mut i: usize = 0;
    while i < n
        invariant
            n == v@.len(),
            i <= n,
            r@.len() == i,
            forall|k: int| 0 <= k < i ==> r@[k]@ == v@[k]@,
        decreases n - i,
    {
        r.push(chars_of(v[i].as_str()));
        i += 1;
    }
    proof {
        assert(views_of(r@) =~= string_views(v@));
    }
    r
}

/// Collects each character vector of `v` back into a string.
pub fn charvecs_to_strings(v: &Vec<Vec<char>>) -> (r: Vec<String>)
    ensures
        string_views(r@) == views_of(v@),
{
    let n = v.len();
    let mut r: Vec<String> = Vec::new();
    let mut i: usize = 0;
    while i < n
        invariant
            n == v@.len(),
            i <= n,
            r@.len() == i,
            forall|k: int| 0 <= k < i ==> r@[k]@ == v@[k]@,
        decreases n - i,
    {
        r.push(string_from_chars(&v[i]));
        i += 1;
    }
    proof {
        assert(string_views(r@) =~= views_of(v@));
    }
    r
}

/// Compares two character vectors.
pub fn eq_chars(a: &Vec<char>, b: &Vec<char>) -> (r: bool)
    ensures
        r == (a@ == b@),
{
    let n = a.len();
    if n != b.len() {
        proof {
            if a@ == b@ {
                assert(a@.len() == b@.len());
            }
        }
        return false;
    }
    let mut i: usize = 0;
    while i < n
        invariant
            n == a@.len() == b@.len(),
            i <= n,
            a@.subrange(0, i as int) =~= b@.subrange(0, i as int),
        decreases n - i,
    {
        if a[i] != b[i] {
            proof {
                assert(a@[i as int] != b@[i as int]);
            }
            return false;
        }
        proof {
            assert(a@.subrange(0, i + 1) =~= a@.subrange(0, i as int).push(a@[i as int]));
            assert(b@.subrange(0, i + 1) =~= b@.subrange(0, i as int).push(b@[i as int]));
        }
        i += 1;
    }
    proof {
        assert(a@.subrange(0, n as int) =~= a@);
        assert(b@.subrange(0, n as int) =~= b@);
    }
    true
}


} // verus!
