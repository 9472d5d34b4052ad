//! The entry classifier and field planner: decomposes each whitespace-split
//! token of a source field into a typed entry, and pairs every source field
//! with the checksum field it feeds.

use vstd::prelude::*;

use crate::context::Context;
use crate::detect::is_checksum_key;
use crate::text::chars_of;
use crate::text::eq_str;
use crate::text::find_sub;
use crate::text::find_sub_from;
use crate::text::has_prefix;
use crate::text::lemma_find_sub_from;
use crate::text::match_at;
use crate::text::lower_seq;
use crate::text::push_range;
use crate::text::split_sep;
use crate::text::split_double_colon;
use crate::text::split_whitespace;
use crate::text::split_ws;
use crate::text::starts_with;
use crate::text::str_eq_str;
use crate::text::string_from_chars;
use crate::text::subvec;
use crate::text::to_lower;
use crate::text::views_of;
use crate::RefreshError;

verus! {

/// The `::`-separated segments of one source token.
pub open spec fn segments(tok: Seq<char>) -> Seq<Seq<char>> {
    split_sep(tok)
}

/// The transport tag of a token: its first segment, ASCII lower-cased.
pub open spec fn transport(tok: Seq<char>) -> Seq<char> {
    lower_seq(segments(tok)[0])
}

/// The version-control transports, never verifiable by content hash.
pub open spec fn is_vcs(t: Seq<char>) -> bool {
    t == "git"@ || t == "bzr"@ || t == "svn"@ || t == "hg"@ || t == "bk"@
}

/// The first segment at or after `i` carrying a `version=` option, with the
/// prefix stripped.
pub open spec fn version_in(segs: Seq<Seq<char>>, i: int) -> Option<Seq<char>>
    decreases segs.len() - i,
{
    if i < 0 || i >= segs.len() {
        None
    } else if has_prefix(segs[i], "version="@) {
        Some(segs[i].skip("version="@.len() as int))
    } else {
        version_in(segs, i + 1)
    }
}

/// The token's `version=` option, if any segment carries one.
pub open spec fn version_opt(tok: Seq<char>) -> Option<Seq<char>> {
    version_in(segments(tok), 0)
}

/// The locator of a token: its last segment.
pub open spec fn locator(tok: Seq<char>) -> Seq<char> {
    segments(tok).last()
}

/// One classified source entry.
///
/// `Skip` marks a version-control transport, `Direct` a plain download URL,
/// and `Registry` a package-index lookup by name and version.
#[derive(Debug)]
pub enum EntryKind {
    Skip,
    Direct { url: String },
    Registry { pkg: String, version: String },
}

/// A registry-lookup token without its mandatory version option.
pub open spec fn token_bad(tok: Seq<char>) -> bool {
    transport(tok) == "pypi"@ && version_opt(tok) is None
}

/// The classification a token must receive.
pub open spec fn entry_matches(tok: Seq<char>, e: EntryKind) -> bool {
    match e {
        EntryKind::Skip => transport(tok) != "pypi"@ && is_vcs(transport(tok)),
        EntryKind::Direct { url } => transport(tok) != "pypi"@ && !is_vcs(transport(tok)) && url@
            == locator(tok),
        EntryKind::Registry { pkg, version } => transport(tok) == "pypi"@ && version_opt(tok)
            == Some(version@) && pkg@ == locator(tok),
    }
}

/// Classifies one whitespace-free source token.
pub fn classify_token(token: &Vec<char>) -> (r: Result<EntryKind, RefreshError>)
    ensures
        match r {
            Ok(e) => !token_bad(token@) && entry_matches(token@, e),
            Err(e) => token_bad(token@) && e == RefreshError::Config,
        },
{
    let segs = split_double_colon(token);
    proof {
        assert(segs@[0]@ == segments(token@)[0]);
    }
    let low = to_lower(&segs[0]);
    if eq_str(&low, "pypi") {
        proof {
            assert(transport(token@) == "pypi"@);
        }
        let n = segs.len();
        let mut i: usize = 0;
        while i < n
            invariant
                n == segs@.len(),
                i <= n,
                views_of(segs@) == segments(token@),
                transport(token@) == "pypi"@,
                version_in(segments(token@), 0) == version_in(segments(token@), i as int),
            decreases n - i,
        {
            proof {
                assert(segs@[i as int]@ == segments(token@)[i as int]);
            }
            if starts_with(&segs[i], "version=") {
                let plen = "version=".unicode_len();
                let seg = &segs[i];
                let ver = subvec(seg, plen, seg.len());
                proof {
                    assert(ver@ =~= segments(token@)[i as int].skip("version="@.len() as int));
                }
                let pkg = &segs[n - 1];
                proof {
                    assert(pkg@ == segments(token@).last());
                    assert(version_in(segments(token@), i as int) == Some(
                        segments(token@)[i as int].skip("version="@.len() as int),
                    ));
                    assert(version_opt(token@) == Some(ver@));
                    assert(transport(token@) == "pypi"@);
                }
                return Ok(
                    EntryKind::Registry {
                        pkg: string_from_chars(pkg),
                        version: string_from_chars(&ver),
                    },
                );
            }
            i += 1;
        }
        return Err(RefreshError::Config);
    }
    if eq_str(&low, "git") || eq_str(&low, "bzr") || eq_str(&low, "svn") || eq_str(&low, "hg")
        || eq_str(&low, "bk") {
        Ok(EntryKind::Skip)
    } else {
        let last = &segs[segs.len() - 1];
        proof {
            assert(last@ == segments(token@).last());
        }
        Ok(EntryKind::Direct { url: string_from_chars(last) })
    }
}

/// A field of the source family: `SRCS` or `SRCS__<arch>`.
pub open spec fn is_source_key(k: Seq<char>) -> bool {
    k == "SRCS"@ || has_prefix(k, "SRCS__"@)
}

/// The checksum field fed by source field `k`: `CHKSUMS`, with the
/// architecture suffix after the first `__` of `k` carried over unchanged.
pub open spec fn out_key_spec(k: Seq<char>) -> Seq<char> {
    match find_sub_from(k, "__"@, 0) {
        None => "CHKSUMS"@,
        Some(j) => "CHKSUMS__"@ + k.skip(j + 2),
    }
}

/// Derives the checksum field name fed by source field `key`.
pub fn out_key_for(key: &String) -> (r: String)
    ensures
        r@ == out_key_spec(key@),
{
    let kc = chars_of(key.as_str());
    let pat = chars_of("__");
    match find_sub(&kc, &pat, 0) {
        None => {
            let r = String::from_str("CHKSUMS");
            r
        },
        Some(j) => {
            proof {
                lemma_find_sub_from(kc@, pat@, 0);
                reveal_strlit("__");
            }
            let klen = kc.len();
            let mut out = chars_of("CHKSUMS__");
            push_range(&mut out, &kc, j + 2, klen);
            proof {
                assert(out@ =~= "CHKSUMS__"@ + key@.skip(j + 2));
            }
            string_from_chars(&out)
        },
    }
}

/// The refresh plan for one source field: the field, the checksum field it
/// feeds, and one classified entry per source token, in token order.
#[derive(Debug)]
pub struct FieldPlan {
    pub key: String,
    pub out_key: String,
    pub entries: Vec<EntryKind>,
}

/// The plan a source field must receive: one entry per token, positions
/// aligned.
pub open spec fn plan_matches(key: Seq<char>, value: Seq<char>, p: FieldPlan) -> bool {
    &&& p.key@ == key
    &&& p.out_key@ == out_key_spec(key)
    &&& p.entries@.len() == split_ws(value).len()
    &&& forall|i: int|
        0 <= i < split_ws(value).len() ==> entry_matches(split_ws(value)[i], p.entries@[i])
}

/// Some token of the field value is malformed.
pub open spec fn value_bad(value: Seq<char>) -> bool {
    exists|i: int| 0 <= i < split_ws(value).len() && token_bad(split_ws(value)[i])
}

/// Plans one source field: splits its value into tokens and classifies each.
pub fn plan_field(key: &String, value: &String) -> (r: Result<FieldPlan, RefreshError>)
    ensures
        match r {
            Ok(p) => !value_bad(value@) && plan_matches(key@, value@, p),
            Err(e) => value_bad(value@) && e == RefreshError::Config,
        },
{
    let vc = chars_of(value.as_str());
    let toks = split_whitespace(&vc);
    let n = toks.len();
    let mut entries: Vec<EntryKind> = Vec::new();
    let mut i: usize = 0;
    while i < n
        invariant
            n == toks@.len(),
            views_of(toks@) == split_ws(value@),
            i <= n,
            entries@.len() == i,
            forall|k: int| 0 <= k < i ==> entry_matches(split_ws(value@)[k], entries@[k]),
            forall|k: int| 0 <= k < i ==> !token_bad(split_ws(value@)[k]),
        decreases n - i,
    {
        proof {
            assert(toks@[i as int]@ == split_ws(value@)[i as int]);
        }
        match classify_token(&toks[i]) {
            Ok(e) => {
                entries.push(e);
            },
            Err(e) => {
                return Err(e);
            },
        }
        i += 1;
    }
    let out_key = out_key_for(key);
    Ok(FieldPlan { key: key.clone(), out_key, entries })
}

/// The source-family fields of a context, in field order.
pub open spec fn source_fields(ps: Seq<(Seq<char>, Seq<char>)>) -> Seq<(Seq<char>, Seq<char>)>
    decreases ps.len(),
{
    if ps.len() == 0 {
        Seq::empty()
    } else if is_source_key(ps.last().0) {
        source_fields(ps.drop_last()).push(ps.last())
    } else {
        source_fields(ps.drop_last())
    }
}

/// Plans every source field of the context, in field order.
pub fn plan_sources(ctx: &Context) -> (r: Result<Vec<FieldPlan>, RefreshError>)
    ensures
        match r {
            Ok(plans) => {
                &&& plans@.len() == source_fields(ctx.pairs()).len()
                &&& forall|i: int|
                    0 <= i < plans@.len() ==> plan_matches(
                        source_fields(ctx.pairs())[i].0,
                        source_fields(ctx.pairs())[i].1,
                        plans@[i],
                    )
                &&& forall|i: int|
                    0 <= i < ctx.pairs().len() && is_source_key(ctx.pairs()[i].0)
                        ==> !value_bad(ctx.pairs()[i].1)
            },
            Err(e) => {
                &&& e == RefreshError::Config
                &&& exists|i: int|
                    0 <= i < ctx.pairs().len() && is_source_key(ctx.pairs()[i].0) && value_bad(
                        ctx.pairs()[i].1,
                    )
            },
        },
{
    let n = ctx.len();
    let mut plans: Vec<FieldPlan> = Vec::new();
    let mut i: usize = 0;
    proof {
        assert(ctx.pairs().subrange(0, 0) =~= Seq::<(Seq<char>, Seq<char>)>::empty());
    }
    while i < n
        invariant
            n == ctx.pairs().len(),
            i <= n,
            plans@.len() == source_fields(ctx.pairs().subrange(0, i as int)).len(),
            forall|k: int|
                0 <= k < plans@.len() ==> plan_matches(
                    source_fields(ctx.pairs().subrange(0, i as int))[k].0,
                    source_fields(ctx.pairs().subrange(0, i as int))[k].1,
                    plans@[k],
                ),
            forall|k: int|
                0 <= k < i && is_source_key(ctx.pairs()[k].0) ==> !value_bad(ctx.pairs()[k].1),
        decreases n - i,
    {
        let key = ctx.key_at(i);
        let value = ctx.value_at(i);
        let kc = chars_of(key.as_str());
        let is_src = str_eq_str(key.as_str(), "SRCS") || starts_with(&kc, "SRCS__");
        proof {
            assert(ctx.pairs().subrange(0, i + 1).drop_last() =~= ctx.pairs().subrange(
                0,
                i as int,
            ));
            assert(ctx.pairs().subrange(0, i + 1).last() == ctx.pairs()[i as int]);
        }
        if is_src {
            match plan_field(key, value) {
                Ok(p) => {
                    plans.push(p);
                },
                Err(e) => {
                    return Err(e);
                },
            }
        }
        i += 1;
    }
    proof {
        assert(ctx.pairs().subrange(0, n as int) =~= ctx.pairs());
    }
    Ok(plans)
}


/// Every field the refresh writes is a checksum-family field: the output
/// key derived from any source field carries the `CHKSUMS` name.
pub proof fn lemma_out_key_is_checksum_key(k: Seq<char>)
    ensures
        is_checksum_key(out_key_spec(k)),
{
    match find_sub_from(k, "__"@, 0) {
        None => {
        },
        Some(j) => {
            let out = "CHKSUMS__"@ + k.skip(j + 2);
            assert(out.subrange(0, "CHKSUMS__"@.len() as int) =~= "CHKSUMS__"@);
            assert(has_prefix(out, "CHKSUMS__"@));
        },
    }
}


/// The bare source field name holds no `__` separator.
proof fn lemma_plain_source_key_no_sep(k: Seq<char>)
    requires
        k == "SRCS"@,
    ensures
        find_sub_from(k, "__"@, 0) is None,
{
    reveal_strlit("SRCS");
    reveal_strlit("__");
    lemma_find_sub_from(k, "__"@, 0);
    match find_sub_from(k, "__"@, 0) {
        None => {
        },
        Some(j) => {
            assert(match_at(k, "__"@, j));
            assert(k.subrange(j, j + 2)[0] == k[j]);
            assert(k[j] == '_');
            assert(false);
        },
    }
}

/// The first `__` of an architecture-suffixed source field stands right
/// after the family name.
proof fn lemma_suffixed_source_key_sep(k: Seq<char>)
    requires
        has_prefix(k, "SRCS__"@),
    ensures
        find_sub_from(k, "__"@, 0) == Some(4int),
{
    reveal_strlit("SRCS__");
    reveal_strlit("__");
    assert(k.subrange(0, 6) == "SRCS__"@);
    assert forall|i: int| 0 <= i < 6 implies k[i] == "SRCS__"@[i] by {
        assert(k.subrange(0, 6)[i] == k[i]);
    }
    assert(match_at(k, "__"@, 4)) by {
        assert(k.subrange(4, 6) =~= "__"@);
    }
    lemma_find_sub_from(k, "__"@, 0);
    match find_sub_from(k, "__"@, 0) {
        None => {
            assert(false);
        },
        Some(j) => {
            if j < 4 {
                assert(match_at(k, "__"@, j));
                assert(k.subrange(j, j + 2)[0] == k[j]);
                assert(k[j] == '_');
                assert(false);
            }
            if j > 4 {
                assert(!match_at(k, "__"@, 4));
                assert(false);
            }
        },
    }
}

/// Distinct source fields feed distinct checksum fields: the architecture
/// suffix passes through the output key unchanged.
pub proof fn lemma_out_key_injective(k1: Seq<char>, k2: Seq<char>)
    requires
        is_source_key(k1),
        is_source_key(k2),
        k1 != k2,
    ensures
        out_key_spec(k1) != out_key_spec(k2),
{
    reveal_strlit("SRCS");
    reveal_strlit("SRCS__");
    reveal_strlit("CHKSUMS");
    reveal_strlit("CHKSUMS__");
    if k1 == "SRCS"@ && k2 == "SRCS"@ {
        assert(false);
    } else if k1 == "SRCS"@ {
        lemma_plain_source_key_no_sep(k1);
        lemma_suffixed_source_key_sep(k2);
        assert(out_key_spec(k1).len() == 7);
        assert(out_key_spec(k2).len() >= 9);
    } else if k2 == "SRCS"@ {
        lemma_suffixed_source_key_sep(k1);
        lemma_plain_source_key_no_sep(k2);
        assert(out_key_spec(k1).len() >= 9);
        assert(out_key_spec(k2).len() == 7);
    } else {
        lemma_suffixed_source_key_sep(k1);
        lemma_suffixed_source_key_sep(k2);
        let s1 = k1.skip(6);
        let s2 = k2.skip(6);
        assert(out_key_spec(k1) == "CHKSUMS__"@ + s1);
        assert(out_key_spec(k2) == "CHKSUMS__"@ + s2);
        if out_key_spec(k1) == out_key_spec(k2) {
            assert(s1.len() == s2.len());
            assert forall|i: int| 0 <= i < s1.len() implies s1[i] == s2[i] by {
                assert(("CHKSUMS__"@ + s1)[9 + i] == s1[i]);
                assert(("CHKSUMS__"@ + s2)[9 + i] == s2[i]);
            }
            assert(s1 =~= s2);
            assert(k1 =~= k1.subrange(0, 6) + s1);
            assert(k2 =~= k2.subrange(0, 6) + s2);
            assert(k1.subrange(0, 6) == "SRCS__"@);
            assert(k2.subrange(0, 6) == "SRCS__"@);
            assert(k1 == k2);
            assert(false);
        }
    }
}


/// Every planned field is drawn from the context's pair list.
proof fn lemma_source_fields_member(ps: Seq<(Seq<char>, Seq<char>)>, j: int)
    requires
        0 <= j < source_fields(ps).len(),
    ensures
        is_source_key(source_fields(ps)[j].0),
        exists|i: int| 0 <= i < ps.len() && ps[i] == source_fields(ps)[j],
    decreases ps.len(),
{
    if ps.len() > 0 {
        let sf = source_fields(ps);
        let prev = source_fields(ps.drop_last());
        if is_source_key(ps.last().0) && j == sf.len() - 1 {
            assert(ps[ps.len() - 1] == sf[j]);
        } else {
            lemma_source_fields_member(ps.drop_last(), j);
            let i = choose|i: int| 0 <= i < ps.drop_last().len() && ps.drop_last()[i] == prev[j];
            assert(ps[i] == sf[j]);
        }
    }
}

/// Selecting the source fields of a list with pairwise distinct keys keeps
/// the keys pairwise distinct.
proof fn lemma_source_fields_distinct(ps: Seq<(Seq<char>, Seq<char>)>)
    requires
        forall|a: int, b: int| 0 <= a < b < ps.len() ==> ps[a].0 != ps[b].0,
    ensures
        forall|a: int, b: int|
            0 <= a < b < source_fields(ps).len() ==> source_fields(ps)[a].0
                != source_fields(ps)[b].0,
    decreases ps.len(),
{
    if ps.len() > 0 {
        let sf = source_fields(ps);
        let prev = source_fields(ps.drop_last());
        assert(forall|a: int, b: int|
            0 <= a < b < ps.drop_last().len() ==> ps.drop_last()[a].0 != ps.drop_last()[b].0);
        lemma_source_fields_distinct(ps.drop_last());
        if is_source_key(ps.last().0) {
            assert forall|a: int, b: int|
                0 <= a < b < sf.len() implies sf[a].0 != sf[b].0 by {
                if b == sf.len() - 1 {
                    lemma_source_fields_member(ps.drop_last(), a);
                    let i = choose|i: int|
                        0 <= i < ps.drop_last().len() && ps.drop_last()[i] == prev[a];
                    assert(ps[i].0 != ps.last().0);
                } else {
                    assert(sf[a] == prev[a] && sf[b] == prev[b]);
                }
            }
        }
    }
}

/// Plans drawn from fields with pairwise distinct names feed pairwise
/// distinct checksum fields: no two planned updates collide.
pub proof fn lemma_planned_out_keys_distinct(
    ps: Seq<(Seq<char>, Seq<char>)>,
    plans: Seq<FieldPlan>,
)
    requires
        forall|a: int, b: int| 0 <= a < b < ps.len() ==> ps[a].0 != ps[b].0,
        plans.len() == source_fields(ps).len(),
        forall|i: int|
            0 <= i < plans.len() ==> plan_matches(
                source_fields(ps)[i].0,
                source_fields(ps)[i].1,
                plans[i],
            ),
    ensures
        forall|a: int, b: int| 0 <= a < b < plans.len() ==> plans[a].out_key@ != plans[b].out_key@,
{
    lemma_source_fields_distinct(ps);
    assert forall|a: int, b: int|
        0 <= a < b < plans.len() implies plans[a].out_key@ != plans[b].out_key@ by {
        lemma_source_fields_member(ps, a);
        lemma_source_fields_member(ps, b);
        lemma_out_key_injective(source_fields(ps)[a].0, source_fields(ps)[b].0);
    }
}

} // verus!
