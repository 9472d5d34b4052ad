//! The change detector: compares, per field, the newly computed checksum
//! tokens against the tokens already stored, as order-insensitive sets, and
//! writes the joined new value back into the context.

use vstd::prelude::*;

use crate::context::Context;
use crate::patch::updates_view;
use crate::text::charvecs_to_strings;
use crate::text::chars_of;
use crate::text::eq_chars;
use crate::text::has_prefix;
use crate::text::is_ws;
use crate::text::join_tokens;
use crate::text::join_with;
use crate::text::split_whitespace;
use crate::text::split_ws;
use crate::text::split_ws_from;
use crate::text::starts_with;
use crate::text::str_eq_str;
use crate::text::string_from_chars;
use crate::text::string_views;
use crate::text::strings_to_charvecs;
use crate::text::tok_end;
use crate::text::lemma_tok_end;
use crate::text::views_of;

verus! {

/// The set of whitespace-split tokens of a stored field value.
pub open spec fn token_set(s: Seq<char>) -> Set<Seq<char>> {
    split_ws(s).to_set()
}

/// The set of freshly computed tokens.
pub open spec fn toks_set(toks: Seq<Seq<char>>) -> Set<Seq<char>> {
    toks.to_set()
}

/// The change verdict for one field: a field that did not exist before
/// counts as changed; an existing one as changed exactly when the two token
/// sets differ.  Token order and repetition are not semantically meaningful.
pub open spec fn changed_spec(old_val: Option<Seq<char>>, new_toks: Seq<Seq<char>>) -> bool {
    match old_val {
        None => true,
        Some(v) => token_set(v) != toks_set(new_toks),
    }
}

/// Whether `tok` occurs among the vectors of `list`.
fn contains_tok(list: &Vec<Vec<char>>, tok: &Vec<char>) -> (r: bool)
    ensures
        r == views_of(list@).contains(tok@),
{
    let n = list.len();
    let mut i: usize = 0;
    while i < n
        invariant
            n == list@.len(),
            i <= n,
            forall|k: int| 0 <= k < i ==> views_of(list@)[k] != tok@,
        decreases n - i,
    {
        if eq_chars(&list[i], tok) {
            proof {
                assert(views_of(list@)[i as int] == tok@);
            }
            return true;
        }
        i += 1;
    }
    false
}

/// Whether every token of `a` occurs in `b`.
fn all_contained(a: &Vec<Vec<char>>, b: &Vec<Vec<char>>) -> (r: bool)
    ensures
        r == forall|k: int| 0 <= k < a@.len() ==> views_of(b@).contains(views_of(a@)[k]),
{
    let n = a.len();
    let mut i: usize = 0;
    while i < n
        invariant
            n == a@.len(),
            i <= n,
            forall|k: int| 0 <= k < i ==> views_of(b@).contains(views_of(a@)[k]),
        decreases n - i,
    {
        if !contains_tok(b, &a[i]) {
            proof {
                assert(!views_of(b@).contains(views_of(a@)[i as int]));
            }
            return false;
        }
        i += 1;
    }
    true
}

/// Compares the stored value of a checksum field against the freshly
/// computed tokens, order-insensitively, per [`changed_spec`].
pub fn field_changed(old_value: Option<&String>, new_tokens: &Vec<String>) -> (r: bool)
    ensures
        r == changed_spec(
            match old_value {
                Some(s) => Some(s@),
                None => None,
            },
            string_views(new_tokens@),
        ),
{
    let old_s = match old_value {
        None => {
            return true;
        },
        Some(s) => s,
    };
    let oc = chars_of(old_s.as_str());
    let otoks = split_whitespace(&oc);
    let ntoks = strings_to_charvecs(new_tokens);
    let fwd = all_contained(&otoks, &ntoks);
    let bwd = all_contained(&ntoks, &otoks);
    let equal = fwd && bwd;
    proof {
        let os = views_of(otoks@);
        let ns = views_of(ntoks@);
        if fwd && bwd {
            assert(os.to_set() =~= ns.to_set());
        } else {
            if fwd {
                let k = choose|k: int| 0 <= k < ns.len() && !os.contains(ns[k]);
                assert(ns.to_set().contains(ns[k]));
                assert(os.to_set() != ns.to_set());
            } else {
                let k = choose|k: int| 0 <= k < os.len() && !ns.contains(os[k]);
                assert(os.to_set().contains(os[k]));
                assert(os.to_set() != ns.to_set());
            }
        }
    }
    !equal
}

/// Joins checksum tokens with single spaces, the stored form of a checksum
/// field value.
pub fn join_space(tokens: &Vec<String>) -> (r: String)
    ensures
        r@ == join_with(string_views(tokens@), seq![' ']),
{
    let toksc = strings_to_charvecs(tokens);
    let mut sep: Vec<char> = Vec::new();
    sep.push(' ');
    proof {
        assert(sep@ =~= seq![' ']);
    }
    let joined = join_tokens(&toksc, &sep);
    string_from_chars(&joined)
}

/// Writes the new checksum tokens of one field into the context, joined
/// with single spaces, and reports whether the field changed.
pub fn apply_field(ctx: &mut Context, out_key: &String, tokens: &Vec<String>) -> (changed: bool)
    requires
        old(ctx).wf(),
    ensures
        final(ctx).wf(),
        final(ctx).as_map() == old(ctx).as_map().insert(
            out_key@,
            join_with(string_views(tokens@), seq![' ']),
        ),
        changed == changed_spec(
            if old(ctx).as_map().contains_key(out_key@) {
                Some(old(ctx).as_map()[out_key@])
            } else {
                None
            },
            string_views(tokens@),
        ),
{
    let old_value = ctx.get(out_key);
    let changed = field_changed(old_value, tokens);
    let joined = join_space(tokens);
    ctx.insert(out_key.clone(), joined);
    changed
}

/// A field of the checksum family: `CHKSUMS` or `CHKSUMS__<arch>`.
pub open spec fn is_checksum_key(k: Seq<char>) -> bool {
    k == "CHKSUMS"@ || has_prefix(k, "CHKSUMS__"@)
}

/// The checksum-family fields of a context, in field order.
pub open spec fn checksum_fields(ps: Seq<(Seq<char>, Seq<char>)>) -> Seq<(Seq<char>, Seq<char>)>
    decreases ps.len(),
{
    if ps.len() == 0 {
        Seq::empty()
    } else if is_checksum_key(ps.last().0) {
        checksum_fields(ps.drop_last()).push(ps.last())
    } else {
        checksum_fields(ps.drop_last())
    }
}

/// Gathers every checksum-family field of the context, each value split
/// into its whitespace-separated tokens, in field order.
pub fn collect_checksums(ctx: &Context) -> (r: Vec<(String, Vec<String>)>)
    ensures
        r@.len() == checksum_fields(ctx.pairs()).len(),
        forall|i: int|
            0 <= i < r@.len() ==> r@[i].0@ == checksum_fields(ctx.pairs())[i].0 && string_views(
                r@[i].1@,
            ) == split_ws(checksum_fields(ctx.pairs())[i].1),
{
    let n = ctx.len();
    let mut r: Vec<(String, Vec<String>)> = Vec::new();
    let mut i: usize = 0;
    proof {
        assert(ctx.pairs().subrange(0, 0) =~= Seq::<(Seq<char>, Seq<char>)>::empty());
    }
    while i < n
        invariant
            n == ctx.pairs().len(),
            i <= n,
            r@.len() == checksum_fields(ctx.pairs().subrange(0, i as int)).len(),
            forall|k: int|
                0 <= k < r@.len() ==> r@[k].0@ == checksum_fields(
                    ctx.pairs().subrange(0, i as int),
                )[k].0 && string_views(r@[k].1@) == split_ws(
                    checksum_fields(ctx.pairs().subrange(0, i as int))[k].1,
                ),
        decreases n - i,
    {
        let key = ctx.key_at(i);
        let value = ctx.value_at(i);
        let kc = chars_of(key.as_str());
        let is_chk = str_eq_str(key.as_str(), "CHKSUMS") || starts_with(&kc, "CHKSUMS__");
        proof {
            assert(ctx.pairs().subrange(0, i + 1).drop_last() =~= ctx.pairs().subrange(
                0,
                i as int,
            ));
            assert(ctx.pairs().subrange(0, i + 1).last() == ctx.pairs()[i as int]);
        }
        if is_chk {
            let vc = chars_of(value.as_str());
            let toks = split_whitespace(&vc);
            let toks_s = charvecs_to_strings(&toks);
            r.push((key.clone(), toks_s));
        }
        i += 1;
    }
    proof {
        assert(ctx.pairs().subrange(0, n as int) =~= ctx.pairs());
    }
    r
}

/// The refresh outcome handed back to the caller: the change verdict and,
/// per checksum field, the new ordered token list.
#[derive(Debug)]
pub struct UpdateChecksumResult {
    pub changed: bool,
    pub result: Vec<(String, Vec<String>)>,
}

/// A token fit for a checksum field: nonempty and free of whitespace (both
/// `SKIP` and every `<algo>::<hex>` string are such tokens).
pub open spec fn good_token(t: Seq<char>) -> bool {
    t.len() > 0 && forall|i: int| 0 <= i < t.len() ==> !is_ws(t[i])
}

/// The verdict only reads the stored value through its token set: two
/// stored values with equal token sets get the same verdict against any
/// new token list.
pub proof fn lemma_verdict_reads_token_sets(
    v1: Seq<char>,
    v2: Seq<char>,
    toks: Seq<Seq<char>>,
)
    requires
        token_set(v1) == token_set(v2),
    ensures
        changed_spec(Some(v1), toks) == changed_spec(Some(v2), toks),
{
}

/// The token that [`tok_end`] delimits runs to exactly the first whitespace.
proof fn lemma_tok_end_exact(s: Seq<char>, i: int, m: int)
    requires
        0 <= i <= m <= s.len(),
        forall|k: int| i <= k < m ==> !is_ws(s[k]),
        m == s.len() || is_ws(s[m]),
    ensures
        tok_end(s, i) == m,
    decreases m - i,
{
    if i < m {
        lemma_tok_end_exact(s, i + 1, m);
    }
}

/// Dropping a prefix commutes with [`tok_end`].
proof fn lemma_tok_end_shift(s: Seq<char>, i: int, k: int)
    requires
        0 <= i <= s.len(),
        0 <= k,
    ensures
        tok_end(s, i + k) == i + tok_end(s.skip(i), k),
    decreases s.len() - i - k,
{
    let t = s.skip(i);
    if i + k >= s.len() {
        assert(tok_end(s, i + k) == i + k);
        assert(k >= t.len());
        assert(tok_end(t, k) == k);
    } else {
        assert(t[k] == s[i + k]);
        if is_ws(s[i + k]) {
        } else {
            lemma_tok_end_shift(s, i, k + 1);
        }
    }
}

/// Dropping a prefix commutes with whitespace splitting.
proof fn lemma_split_shift(s: Seq<char>, i: int, k: int)
    requires
        0 <= i <= s.len(),
        0 <= k,
    ensures
        split_ws_from(s, i + k) == split_ws_from(s.skip(i), k),
    decreases s.len() - i - k,
{
    let t = s.skip(i);
    if i + k >= s.len() {
        assert(split_ws_from(s, i + k) =~= Seq::<Seq<char>>::empty());
        assert(k >= t.len());
        assert(split_ws_from(t, k) =~= Seq::<Seq<char>>::empty());
    } else {
        assert(t[k] == s[i + k]);
        if is_ws(s[i + k]) {
            lemma_split_shift(s, i, k + 1);
        } else {
            lemma_tok_end_shift(s, i, k);
            let m = tok_end(s, i + k);
            lemma_tok_end(s, i + k);
            assert(tok_end(t, k) == m - i);
            assert(s.subrange(i + k, m) =~= t.subrange(k, m - i));
            lemma_split_shift(s, i, m - i);
            assert(split_ws_from(s, i + k) == seq![s.subrange(i + k, m)] + split_ws_from(s, m));
            assert(split_ws_from(t, k) == seq![t.subrange(k, m - i)] + split_ws_from(t, m - i));
        }
    }
}

/// Splitting inverts joining with single spaces, for checksum-fit tokens.
pub proof fn lemma_split_join(toks: Seq<Seq<char>>)
    requires
        forall|i: int| 0 <= i < toks.len() ==> good_token(toks[i]),
    ensures
        split_ws(join_with(toks, seq![' '])) == toks,
    decreases toks.len(),
{
    let sp = seq![' '];
    if toks.len() == 0 {
        assert(split_ws_from(join_with(toks, sp), 0) =~= Seq::<Seq<char>>::empty());
        assert(split_ws(join_with(toks, sp)) =~= toks);
    } else if toks.len() == 1 {
        let t = toks[0];
        assert(join_with(toks, sp) == t);
        assert(good_token(t));
        lemma_tok_end_exact(t, 0, t.len() as int);
        assert(split_ws_from(t, 0) == seq![t.subrange(0, t.len() as int)] + split_ws_from(
            t,
            t.len() as int,
        ));
        assert(t.subrange(0, t.len() as int) =~= t);
        assert(split_ws_from(t, t.len() as int) =~= Seq::<Seq<char>>::empty());
        assert(split_ws(t) =~= toks);
    } else {
        let t0 = toks[0];
        let rest = toks.drop_first();
        let j = join_with(rest, sp);
        let s = join_with(toks, sp);
        assert(s == t0 + sp + j);
        assert(forall|i: int| 0 <= i < rest.len() ==> good_token(rest[i]));
        lemma_split_join(rest);
        assert(good_token(t0));
        let m = t0.len() as int;
        assert(forall|k: int| 0 <= k < m ==> !is_ws(s[k]));
        assert(s[m] == ' ');
        lemma_tok_end_exact(s, 0, m);
        assert(!is_ws(s[0]));
        assert(split_ws_from(s, 0) == seq![s.subrange(0, m)] + split_ws_from(s, m));
        assert(s.subrange(0, m) =~= t0);
        assert(split_ws_from(s, m) == split_ws_from(s, m + 1));
        lemma_split_shift(s, m + 1, 0);
        assert(s.skip(m + 1) =~= j);
        assert(split_ws_from(s, m + 1) == split_ws_from(j, 0));
        assert(split_ws(s) =~= toks);
    }
}

/// Idempotence at the change detector: a checksum field freshly rewritten
/// to hold exactly `toks`, joined with single spaces, is on the next run
/// compared against those same tokens and reports no change.
pub proof fn lemma_refresh_idempotent(toks: Seq<Seq<char>>)
    requires
        forall|i: int| 0 <= i < toks.len() ==> good_token(toks[i]),
    ensures
        changed_spec(Some(join_with(toks, seq![' '])), toks) == false,
{
    lemma_split_join(toks);
}


/// The context map after storing every field's joined tokens, first listed
/// first.
pub open spec fn apply_maps(
    m: Map<Seq<char>, Seq<char>>,
    fs: Seq<(Seq<char>, Seq<Seq<char>>)>,
) -> Map<Seq<char>, Seq<char>>
    decreases fs.len(),
{
    if fs.len() == 0 {
        m
    } else {
        apply_maps(m.insert(fs[0].0, join_with(fs[0].1, seq![' '])), fs.skip(1))
    }
}

/// Whether storing the fields one after the other raises the change flag:
/// each field is compared against the value stored when its turn comes.
pub open spec fn any_changed(
    m: Map<Seq<char>, Seq<char>>,
    fs: Seq<(Seq<char>, Seq<Seq<char>>)>,
) -> bool
    decreases fs.len(),
{
    if fs.len() == 0 {
        false
    } else {
        changed_spec(
            if m.contains_key(fs[0].0) {
                Some(m[fs[0].0])
            } else {
                None
            },
            fs[0].1,
        ) || any_changed(m.insert(fs[0].0, join_with(fs[0].1, seq![' '])), fs.skip(1))
    }
}

/// Stores every field's new checksum tokens in the context, joined with
/// single spaces, and reports whether any field changed.
pub fn apply_results(ctx: &mut Context, fields: &Vec<(String, Vec<String>)>) -> (changed: bool)
    requires
        old(ctx).wf(),
    ensures
        final(ctx).wf(),
        final(ctx).as_map() == apply_maps(old(ctx).as_map(), updates_view(fields@)),
        changed == any_changed(old(ctx).as_map(), updates_view(fields@)),
{
    let n = fields.len();
    let mut changed = false;
    let mut i: usize = 0;
    let ghost uv = updates_view(fields@);
    proof {
        assert(uv.skip(0) =~= uv);
    }
    while i < n
        invariant
            n == fields@.len(),
            uv == updates_view(fields@),
            i <= n,
            ctx.wf(),
            apply_maps(ctx.as_map(), uv.skip(i as int)) == apply_maps(old(ctx).as_map(), uv),
            (changed || any_changed(ctx.as_map(), uv.skip(i as int))) == any_changed(
                old(ctx).as_map(),
                uv,
            ),
        decreases n - i,
    {
        let ghost rem = uv.skip(i as int);
        proof {
            assert(rem[0] == uv[i as int]);
            assert(rem.skip(1) =~= uv.skip(i as int + 1));
        }
        let c = apply_field(ctx, &fields[i].0, &fields[i].1);
        changed = changed || c;
        i += 1;
    }
    proof {
        assert(uv.skip(n as int) =~= Seq::<(Seq<char>, Seq<Seq<char>>)>::empty());
    }
    changed
}


/// Keys held by none of the stored fields keep their mapping through a run.
proof fn lemma_apply_maps_frame(
    m: Map<Seq<char>, Seq<char>>,
    fs: Seq<(Seq<char>, Seq<Seq<char>>)>,
    k: Seq<char>,
)
    requires
        forall|i: int| 0 <= i < fs.len() ==> fs[i].0 != k,
    ensures
        apply_maps(m, fs).contains_key(k) == m.contains_key(k),
        m.contains_key(k) ==> apply_maps(m, fs)[k] == m[k],
    decreases fs.len(),
{
    if fs.len() > 0 {
        assert forall|i: int| 0 <= i < fs.skip(1).len() implies fs.skip(1)[i].0 != k by {
            assert(fs.skip(1)[i] == fs[i + 1]);
        }
        lemma_apply_maps_frame(m.insert(fs[0].0, join_with(fs[0].1, seq![' '])), fs.skip(1), k);
    }
}

/// Refreshing twice with the same computed tokens reports no change the
/// second time: the first run stores exactly each field's joined tokens,
/// and the second run's verdict, field by field, matches what was stored.
/// Checksum fields have distinct names and their tokens are nonempty and
/// whitespace-free.
pub proof fn lemma_second_run_reports_no_change(
    m: Map<Seq<char>, Seq<char>>,
    fs: Seq<(Seq<char>, Seq<Seq<char>>)>,
)
    requires
        forall|i: int, j: int| #![auto]
            0 <= i < fs.len() && 0 <= j < fs[i].1.len() ==> good_token(fs[i].1[j]),
        forall|i: int, j: int| 0 <= i < j < fs.len() ==> fs[i].0 != fs[j].0,
    ensures
        any_changed(apply_maps(m, fs), fs) == false,
    decreases fs.len(),
{
    if fs.len() > 0 {
        let f0 = fs[0];
        let v = join_with(f0.1, seq![' ']);
        let m1 = m.insert(f0.0, v);
        let mfull = apply_maps(m, fs);
        assert forall|i: int| 0 <= i < fs.skip(1).len() implies fs.skip(1)[i].0 != f0.0 by {
            assert(fs.skip(1)[i] == fs[i + 1]);
        }
        lemma_apply_maps_frame(m1, fs.skip(1), f0.0);
        assert(mfull == apply_maps(m1, fs.skip(1)));
        assert(mfull.contains_key(f0.0) && mfull[f0.0] == v);
        assert(forall|j: int| #![auto] 0 <= j < f0.1.len() ==> good_token(f0.1[j]));
        lemma_split_join(f0.1);
        assert(changed_spec(Some(v), f0.1) == false);
        assert(mfull.insert(f0.0, v) =~= mfull);
        assert forall|i: int, j: int| #![auto]
            0 <= i < fs.skip(1).len() && 0 <= j < fs.skip(1)[i].1.len() implies good_token(
            fs.skip(1)[i].1[j],
        ) by {
            assert(fs.skip(1)[i] == fs[i + 1]);
        }
        assert forall|i: int, j: int| 0 <= i < j < fs.skip(1).len() implies fs.skip(1)[i].0
            != fs.skip(1)[j].0 by {
            assert(fs.skip(1)[i] == fs[i + 1]);
            assert(fs.skip(1)[j] == fs[j + 1]);
        }
        lemma_second_run_reports_no_change(m1, fs.skip(1));
    }
}

} // verus!
