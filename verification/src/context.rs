//! The recipe context: an ordered map from field name to raw field value,
//! built once per recipe by an external key=value parser (or by the naive
//! line-split fallback verified here) and consumed by the planner, the
//! change detector and the patcher.

use vstd::prelude::*;

use crate::text::chars_of;
use crate::text::drop_quotes;
use crate::text::find_char;
use crate::text::find_char_from;
use crate::text::remove_quotes;
use crate::text::string_views;
use crate::text::subvec;
use crate::text::string_from_chars;
use crate::text::str_eq_str;

verus! {

/// The character-level views of a sequence of string pairs.
pub open spec fn pairs_view(ps: Seq<(String, String)>) -> Seq<(Seq<char>, Seq<char>)> {
    ps.map_values(|p: (String, String)| (p.0@, p.1@))
}

/// The map induced by a pair sequence; a later pair with the same key wins.
pub open spec fn pairs_map(ps: Seq<(Seq<char>, Seq<char>)>) -> Map<Seq<char>, Seq<char>>
    decreases ps.len(),
{
    if ps.len() == 0 {
        Map::empty()
    } else {
        pairs_map(ps.drop_last()).insert(ps.last().0, ps.last().1)
    }
}

/// The first index of `ps` holding key `k`, if any.
pub open spec fn find_key_from(ps: Seq<(Seq<char>, Seq<char>)>, k: Seq<char>, i: int) -> Option<
    int,
>
    decreases ps.len() - i,
{
    if i < 0 || i >= ps.len() {
        None
    } else if ps[i].0 == k {
        Some(i)
    } else {
        find_key_from(ps, k, i + 1)
    }
}

/// A key of a pair list is in its map exactly when some pair holds it, and
/// with unique keys the map value is that pair's value.
proof fn lemma_pairs_map_index(ps: Seq<(Seq<char>, Seq<char>)>, i: int)
    requires
        0 <= i < ps.len(),
        forall|a: int, b: int| 0 <= a < b < ps.len() ==> ps[a].0 != ps[b].0,
    ensures
        pairs_map(ps).contains_key(ps[i].0),
        pairs_map(ps)[ps[i].0] == ps[i].1,
    decreases ps.len(),
{
    if i == ps.len() - 1 {
    } else {
        assert(forall|a: int, b: int|
            0 <= a < b < ps.drop_last().len() ==> ps.drop_last()[a].0 != ps.drop_last()[b].0);
        lemma_pairs_map_index(ps.drop_last(), i);
        assert(ps[i].0 != ps.last().0);
    }
}

/// A key held by no pair is not in the map.
proof fn lemma_pairs_map_absent(ps: Seq<(Seq<char>, Seq<char>)>, k: Seq<char>)
    requires
        forall|i: int| 0 <= i < ps.len() ==> ps[i].0 != k,
    ensures
        !pairs_map(ps).contains_key(k),
    decreases ps.len(),
{
    if ps.len() > 0 {
        lemma_pairs_map_absent(ps.drop_last(), k);
    }
}

/// Updating the pair that holds `k` updates the map at `k`.
proof fn lemma_pairs_map_update(ps: Seq<(Seq<char>, Seq<char>)>, i: int, v: Seq<char>)
    requires
        0 <= i < ps.len(),
        forall|a: int, b: int| 0 <= a < b < ps.len() ==> ps[a].0 != ps[b].0,
    ensures
        pairs_map(ps.update(i, (ps[i].0, v))) == pairs_map(ps).insert(ps[i].0, v),
    decreases ps.len(),
{
    let k = ps[i].0;
    let qs = ps.update(i, (k, v));
    if i == ps.len() - 1 {
        assert(qs.drop_last() =~= ps.drop_last());
        assert(pairs_map(qs) =~= pairs_map(ps).insert(k, v));
    } else {
        assert(qs.drop_last() =~= ps.drop_last().update(i, (k, v)));
        assert(forall|a: int, b: int|
            0 <= a < b < ps.drop_last().len() ==> ps.drop_last()[a].0 != ps.drop_last()[b].0);
        lemma_pairs_map_update(ps.drop_last(), i, v);
        assert(qs.last() == ps.last());
        assert(ps.last().0 != k);
        assert(pairs_map(qs) =~= pairs_map(ps).insert(k, v));
    }
}

/// The recipe's field map, keys unique, insertion order kept.
#[derive(Debug)]
pub struct Context {
    fields: Vec<(String, String)>,
}

impl Context {
    /// The ordered field pairs, as character sequences.
    pub closed spec fn pairs(self) -> Seq<(Seq<char>, Seq<char>)> {
        pairs_view(self.fields@)
    }

    /// The field map.
    pub open spec fn as_map(self) -> Map<Seq<char>, Seq<char>> {
        pairs_map(self.pairs())
    }

    /// Keys are unique.
    pub closed spec fn wf(self) -> bool {
        forall|a: int, b: int| 0 <= a < b < self.pairs().len() ==> self.pairs()[a].0
            != self.pairs()[b].0
    }

    /// An empty context.
    pub fn new() -> (r: Context)
        ensures
            r.wf(),
            r.pairs() == Seq::<(Seq<char>, Seq<char>)>::empty(),
            r.as_map() == Map::<Seq<char>, Seq<char>>::empty(),
    {
        let r = Context { fields: Vec::new() };
        proof {
            assert(r.pairs() =~= Seq::<(Seq<char>, Seq<char>)>::empty());
        }
        r
    }

    /// The number of fields.
    pub fn len(&self) -> (r: usize)
        ensures
            r == self.pairs().len(),
    {
        self.fields.len()
    }

    /// The field name at position `i`.
    pub fn key_at(&self, i: usize) -> (r: &String)
        requires
            i < self.pairs().len(),
        ensures
            r@ == self.pairs()[i as int].0,
    {
        &self.fields[i].0
    }

    /// The raw field value at position `i`.
    pub fn value_at(&self, i: usize) -> (r: &String)
        requires
            i < self.pairs().len(),
        ensures
            r@ == self.pairs()[i as int].1,
    {
        &self.fields[i].1
    }

    /// Looks a field up by name.
    pub fn get(&self, key: &String) -> (r: Option<&String>)
        requires
            self.wf(),
        ensures
            match r {
                Some(v) => self.as_map().contains_key(key@) && v@ == self.as_map()[key@],
                None => !self.as_map().contains_key(key@),
            },
    {
        let n = self.fields.len();
        let mut i: usize = 0;
        while i < n
            invariant
                self.wf(),
                n == self.pairs().len(),
                i <= n,
                forall|k: int| 0 <= k < i ==> self.pairs()[k].0 != key@,
            decreases n - i,
        {
            if str_eq_str(self.fields[i].0.as_str(), key.as_str()) {
                proof {
                    lemma_pairs_map_index(self.pairs(), i as int);
                }
                return Some(&self.fields[i].1);
            }
            i += 1;
        }
        proof {
            lemma_pairs_map_absent(self.pairs(), key@);
        }
        None
    }

    /// Inserts or overwrites a field; an existing field keeps its position,
    /// a new one is appended.
    pub fn insert(&mut self, key: String, value: String)
        requires
            old(self).wf(),
        ensures
            final(self).wf(),
            final(self).as_map() == old(self).as_map().insert(key@, value@),
            match find_key_from(old(self).pairs(), key@, 0) {
                Some(i) => final(self).pairs() == old(self).pairs().update(
                    i,
                    (key@, value@),
                ),
                None => final(self).pairs() == old(self).pairs().push((key@, value@)),
            },
    {
        let n = self.fields.len();
        let mut i: usize = 0;
        while i < n
            invariant
                old(self).wf(),
                self == old(self),
                n == self.pairs().len(),
                i <= n,
                find_key_from(self.pairs(), key@, 0) == find_key_from(self.pairs(), key@, i as int),
                forall|k: int| 0 <= k < i ==> self.pairs()[k].0 != key@,
            decreases n - i,
        {
            if str_eq_str(self.fields[i].0.as_str(), key.as_str()) {
                let ghost ps = self.pairs();
                self.fields.set(i, (key, value));
                proof {
                    assert(ps[i as int].0 == key@);
                    assert(final(self).pairs() =~= ps.update(i as int, (key@, value@)));
                    lemma_pairs_map_update(ps, i as int, value@);
                    assert(pairs_map(ps).insert(ps[i as int].0, value@) =~= pairs_map(ps).insert(
                        key@,
                        value@,
                    ));
                    assert forall|a: int, b: int|
                        0 <= a < b < final(self).pairs().len() implies final(self).pairs()[a].0
                        != final(self).pairs()[b].0 by {
                        assert(final(self).pairs()[a].0 == ps[a].0);
                        assert(final(self).pairs()[b].0 == ps[b].0);
                    }
                }
                return ;
            }
            i += 1;
        }
        let ghost ps = self.pairs();
        self.fields.push((key, value));
        proof {
            assert(final(self).pairs() =~= ps.push((key@, value@)));
            assert(final(self).pairs().drop_last() =~= ps);
            assert(find_key_from(ps, key@, 0) is None) by {
                if find_key_from(ps, key@, 0) is Some {
                    lemma_find_key_from(ps, key@, 0);
                }
            }
            assert forall|a: int, b: int|
                0 <= a < b < final(self).pairs().len() implies final(self).pairs()[a].0
                != final(self).pairs()[b].0 by {
                if b < ps.len() {
                    assert(final(self).pairs()[a].0 == ps[a].0);
                    assert(final(self).pairs()[b].0 == ps[b].0);
                } else {
                    assert(final(self).pairs()[a].0 == ps[a].0);
                    assert(final(self).pairs()[b].0 == key@);
                }
            }
        }
    }
}

/// What [`find_key_from`] returns: the first pair with the key.
pub proof fn lemma_find_key_from(ps: Seq<(Seq<char>, Seq<char>)>, k: Seq<char>, i: int)
    requires
        0 <= i <= ps.len(),
    ensures
        match find_key_from(ps, k, i) {
            Some(j) => i <= j < ps.len() && ps[j].0 == k && forall|x: int|
                i <= x < j ==> ps[x].0 != k,
            None => forall|x: int| i <= x < ps.len() ==> ps[x].0 != k,
        },
    decreases ps.len() - i,
{
    if i < ps.len() && ps[i].0 != k {
        lemma_find_key_from(ps, k, i + 1);
    }
}

/// The messages of the external strict parser, kept verbatim when strict
/// parsing fails and the caller forbade the fallback.
#[derive(Debug)]
pub struct ParseErrors {
    messages: Vec<String>,
}

impl ParseErrors {
    /// The reported messages, one per parse error.
    pub closed spec fn view(self) -> Seq<Seq<char>> {
        string_views(self.messages@)
    }

    /// Wraps the messages of a failed strict parse.
    pub fn new(messages: Vec<String>) -> (r: ParseErrors)
        ensures
            r@ == string_views(messages@),
    {
        ParseErrors { messages }
    }

    /// Reads the messages back.
    pub fn messages(&self) -> (r: &Vec<String>)
        ensures
            string_views(r@) == self@,
    {
        &self.messages
    }
}

/// The lines of `s` split on newline characters; every line appears, empty
/// lines included.
pub open spec fn split_nl_from(s: Seq<char>, i: int) -> Seq<Seq<char>>
    decreases s.len() - i + 1,
    via split_nl_from_decreases
{
    match find_char_from(s, i, '\n') {
        None => seq![s.subrange(i, s.len() as int)],
        Some(j) => seq![s.subrange(i, j)] + split_nl_from(s, j + 1),
    }
}

#[via_fn]
proof fn split_nl_from_decreases(s: Seq<char>, i: int) {
    if find_char_from(s, i, '\n') is Some {
        lemma_find_char_ge(s, i, '\n');
    }
}

/// A found character never lies before the scan start nor past the end.
proof fn lemma_find_char_ge(s: Seq<char>, i: int, c: char)
    requires
        find_char_from(s, i, c) is Some,
    ensures
        i <= find_char_from(s, i, c)->0 < s.len(),
    decreases s.len() - i,
{
    if !(i < 0 || i >= s.len()) && s[i] != c {
        lemma_find_char_ge(s, i + 1, c);
    }
}

/// The lines of a whole sequence.
pub open spec fn split_nl(s: Seq<char>) -> Seq<Seq<char>> {
    split_nl_from(s, 0)
}

/// The context after the naive fallback pass: for each line holding `=`, the
/// part before the first `=` maps to the part after it with every double
/// quote removed; later lines win.
pub open spec fn fallback_map(
    base: Map<Seq<char>, Seq<char>>,
    lines: Seq<Seq<char>>,
    i: int,
) -> Map<Seq<char>, Seq<char>>
    decreases lines.len() - i,
{
    if i < 0 || i >= lines.len() {
        base
    } else {
        match find_char_from(lines[i], 0, '=') {
            None => fallback_map(base, lines, i + 1),
            Some(j) => fallback_map(
                base.insert(
                    lines[i].subrange(0, j),
                    drop_quotes(lines[i].subrange(j + 1, lines[i].len() as int)),
                ),
                lines,
                i + 1,
            ),
        }
    }
}

/// Splits `v` into its newline-separated lines.
fn split_newlines(v: &Vec<char>) -> (r: Vec<Vec<char>>)
    ensures
        crate::text::views_of(r@) == split_nl(v@),
{
    let n = v.len();
    let mut r: Vec<Vec<char>> = Vec::new();
    let mut i: usize = 0;
    proof {
        assert(crate::text::views_of(r@) + split_nl_from(v@, 0) =~= split_nl(v@));
    }
    loop
        invariant
            n == v@.len(),
            i <= n,
            crate::text::views_of(r@) + split_nl_from(v@, i as int) == split_nl(v@),
        ensures
            crate::text::views_of(r@) == split_nl(v@),
        decreases n - i,
    {
        let ghost prev = crate::text::views_of(r@);
        match find_char(v, i, '\n') {
            None => {
                let line = subvec(v, i, n);
                r.push(line);
                proof {
                    assert(crate::text::views_of(r@) =~= prev + seq![
                        v@.subrange(i as int, n as int),
                    ]);
                    assert(split_nl_from(v@, i as int) == seq![v@.subrange(i as int, n as int)]);
                    assert(crate::text::views_of(r@) =~= split_nl(v@));
                }
                return r;
            },
            Some(j) => {
                proof {
                    crate::text::lemma_find_char_from(v@, i as int, '\n');
                }
                let line = subvec(v, i, j);
                r.push(line);
                proof {
                    assert(crate::text::views_of(r@) =~= prev + seq![
                        v@.subrange(i as int, j as int),
                    ]);
                    assert(split_nl_from(v@, i as int) == seq![v@.subrange(i as int, j as int)]
                        + split_nl_from(v@, j + 1));
                    assert(crate::text::views_of(r@) + split_nl_from(v@, j + 1) =~= split_nl(v@));
                }
                i = j + 1;
            },
        }
    }
}

/// Builds a context from externally parsed pairs, inserted in order.
fn context_from_pairs(pairs: Vec<(String, String)>) -> (r: Context)
    ensures
        r.wf(),
        r.as_map() == pairs_map(pairs_view(pairs@)),
{
    let n = pairs.len();
    let mut ctx = Context::new();
    let mut i: usize = 0;
    proof {
        assert(pairs_view(pairs@).subrange(0, 0) =~= Seq::<(Seq<char>, Seq<char>)>::empty());
        assert(ctx.as_map() =~= pairs_map(pairs_view(pairs@).subrange(0, 0)));
    }
    while i < n
        invariant
            n == pairs@.len(),
            i <= n,
            ctx.wf(),
            ctx.as_map() == pairs_map(pairs_view(pairs@).subrange(0, i as int)),
        decreases n - i,
    {
        let k = pairs[i].0.clone();
        let v = pairs[i].1.clone();
        ctx.insert(k, v);
        proof {
            let pv = pairs_view(pairs@);
            assert(pv.subrange(0, i + 1).drop_last() =~= pv.subrange(0, i as int));
            assert(pv.subrange(0, i + 1).last() == pv[i as int]);
        }
        i += 1;
    }
    proof {
        assert(pairs_view(pairs@).subrange(0, n as int) =~= pairs_view(pairs@));
    }
    ctx
}

/// Builds the recipe context from the outcome of the external strict parser.
///
/// `strict` carries either the parsed pairs or, on failure, whatever partial
/// pairs the parser had produced together with its error messages.  On
/// failure with `allow_fallback_method`, the naive line-split pass runs on
/// top of the partial pairs; without it the messages are returned unchanged.
pub fn parse_from_str(
    s: &str,
    strict: Result<Vec<(String, String)>, (Vec<(String, String)>, Vec<String>)>,
    allow_fallback_method: bool,
) -> (r: Result<Context, ParseErrors>)
    ensures
        match r {
            Ok(ctx) => {
                &&& ctx.wf()
                &&& match strict {
                    Ok(pairs) => ctx.as_map() == pairs_map(pairs_view(pairs@)),
                    Err((partial, _)) => allow_fallback_method && ctx.as_map() == fallback_map(
                        pairs_map(pairs_view(partial@)),
                        split_nl(s@),
                        0,
                    ),
                }
            },
            Err(e) => {
                &&& strict is Err
                &&& !allow_fallback_method
                &&& e@ == string_views(strict->Err_0.1@)
            },
        },
{
    match strict {
        Ok(pairs) => Ok(context_from_pairs(pairs)),
        Err((partial, messages)) => {
            if !allow_fallback_method {
                return Err(ParseErrors::new(messages));
            }
            let mut ctx = context_from_pairs(partial);
            let ghost base = ctx.as_map();
            let text = chars_of(s);
            let lines = split_newlines(&text);
            let n = lines.len();
            let ghost lns = crate::text::views_of(lines@);
            let mut i: usize = 0;
            while i < n
                invariant
                    n == lines@.len(),
                    lns == crate::text::views_of(lines@),
                    lns == split_nl(s@),
                    i <= n,
                    ctx.wf(),
                    fallback_map(ctx.as_map(), lns, i as int) == fallback_map(base, lns, 0),
                decreases n - i,
            {
                let line = &lines[i];
                proof {
                    assert(line@ == lns[i as int]);
                }
                match find_char(line, 0, '=') {
                    None => {
                    },
                    Some(j) => {
                        proof {
                            crate::text::lemma_find_char_from(line@, 0, '=');
                        }
                        let key = subvec(line, 0, j);
                        let raw = subvec(line, j + 1, line.len());
                        let val = remove_quotes(&raw);
                        proof {
                            assert(raw@ == lns[i as int].subrange(
                                j + 1,
                                lns[i as int].len() as int,
                            ));
                        }
                        let ks = string_from_chars(&key);
                        let vs = string_from_chars(&val);
                        ctx.insert(ks, vs);
                    },
                }
                i += 1;
            }
            proof {
                assert(fallback_map(ctx.as_map(), lns, n as int) == ctx.as_map());
            }
            Ok(ctx)
        },
    }
}

} // verus!
