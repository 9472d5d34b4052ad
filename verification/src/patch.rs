//! The exact-text patcher: locates the quoted value of a checksum field
//! inside the recipe text and replaces exactly that span, joining the new
//! tokens with backslash-continued lines aligned under the opening quote.
//!
//! The replaced span runs from the first occurrence of the field name through
//! the first double quote after it (the opening quote) up to the next double
//! quote (the closing quote; quoted field values hold no inner quote, so the
//! quote-parity scan of the recipe grammar degenerates to this).

use vstd::prelude::*;

use crate::text::chars_of;
use crate::text::continuation_sep_exec;
use crate::text::find_char;
use crate::text::find_char_from;
use crate::text::find_sub;
use crate::text::find_sub_from;
use crate::text::join_tokens;
use crate::text::join_with;
use crate::text::lemma_find_char_from;
use crate::text::lemma_find_sub_from;
use crate::text::push_all;
use crate::text::push_range;
use crate::text::string_from_chars;
use crate::text::strings_to_charvecs;
use crate::text::string_views;
use crate::text::subvec;
use crate::text::views_of;
use crate::text::continuation_sep;
use crate::RefreshError;

verus! {

/// The recipe text after replacing the quoted value of `key` with the joined
/// tokens `toks`, or `None` when the field or its quotes cannot be located.
pub open spec fn patch_one(text: Seq<char>, key: Seq<char>, toks: Seq<Seq<char>>) -> Option<
    Seq<char>,
> {
    match find_sub_from(text, key, 0) {
        None => None,
        Some(st) => match find_char_from(text, st, '"') {
            None => None,
            Some(q1) => match find_char_from(text, q1 + 1, '"') {
                None => None,
                Some(q2) => Some(
                    text.subrange(0, st) + key + seq!['=', '"'] + join_with(
                        toks,
                        continuation_sep(key),
                    ) + seq!['"'] + text.subrange(q2 + 1, text.len() as int),
                ),
            },
        },
    }
}

/// The recipe text after applying every update in order; `None` as soon as
/// one field cannot be patched.
pub open spec fn patch_all(text: Seq<char>, updates: Seq<(Seq<char>, Seq<Seq<char>>)>) -> Option<
    Seq<char>,
>
    decreases updates.len(),
{
    if updates.len() == 0 {
        Some(text)
    } else {
        match patch_one(text, updates[0].0, updates[0].1) {
            None => None,
            Some(t) => patch_all(t, updates.skip(1)),
        }
    }
}

/// The character-level views of a list of field updates.
pub open spec fn updates_view(u: Seq<(String, Vec<String>)>) -> Seq<(Seq<char>, Seq<Seq<char>>)> {
    u.map_values(|p: (String, Vec<String>)| (p.0@, string_views(p.1@)))
}

/// Patches one field of `text`, per [`patch_one`].
fn patch_one_vec(text: &Vec<char>, key: &Vec<char>, toks: &Vec<Vec<char>>) -> (r: Option<
    Vec<char>,
>)
    ensures
        match r {
            Some(t) => patch_one(text@, key@, views_of(toks@)) == Some(t@),
            None => patch_one(text@, key@, views_of(toks@)) is None,
        },
{
    let n = text.len();
    let st = match find_sub(text, key, 0) {
        None => {
            return None;
        },
        Some(s) => s,
    };
    proof {
        lemma_find_sub_from(text@, key@, 0);
    }
    let q1 = match find_char(text, st, '"') {
        None => {
            return None;
        },
        Some(q) => q,
    };
    proof {
        lemma_find_char_from(text@, st as int, '"');
    }
    let q2 = match find_char(text, q1 + 1, '"') {
        None => {
            return None;
        },
        Some(q) => q,
    };
    proof {
        lemma_find_char_from(text@, q1 + 1, '"');
    }
    let mut out = subvec(text, 0, st);
    push_all(&mut out, key);
    out.push('=');
    out.push('"');
    let sep = continuation_sep_exec(key);
    let joined = join_tokens(toks, &sep);
    push_all(&mut out, &joined);
    out.push('"');
    push_range(&mut out, text, q2 + 1, n);
    proof {
        assert(out@ =~= text@.subrange(0, st as int) + key@ + seq!['=', '"'] + join_with(
            views_of(toks@),
            continuation_sep(key@),
        ) + seq!['"'] + text@.subrange(q2 + 1, text@.len() as int));
    }
    Some(out)
}

/// Rewrites each listed checksum field of `spec_inner` to hold exactly the
/// new tokens, leaving every other character of the recipe text unchanged.
///
/// On `Err` the text is left exactly as it was: no partial patch is ever
/// written.
pub fn update_spec_inner(new: Vec<(String, Vec<String>)>, spec_inner: &mut String) -> (r: Result<
    (),
    RefreshError,
>)
    ensures
        match r {
            Ok(()) => patch_all(old(spec_inner)@, updates_view(new@)) == Some(final(spec_inner)@),
            Err(e) => {
                &&& e == RefreshError::Patch
                &&& patch_all(old(spec_inner)@, updates_view(new@)) is None
                &&& final(spec_inner)@ == old(spec_inner)@
            },
        },
{
    let mut text = chars_of(spec_inner.as_str());
    let n = new.len();
    let mut idx: usize = 0;
    proof {
        assert(updates_view(new@).skip(0) =~= updates_view(new@));
    }
    while idx < n
        invariant
            n == new@.len(),
            idx <= n,
            spec_inner@ == old(spec_inner)@,
            patch_all(old(spec_inner)@, updates_view(new@)) == patch_all(
                text@,
                updates_view(new@).skip(idx as int),
            ),
        decreases n - idx,
    {
        let keyc = chars_of(new[idx].0.as_str());
        let toksc = strings_to_charvecs(&new[idx].1);
        let ghost rem = updates_view(new@).skip(idx as int);
        proof {
            assert(rem[0] == updates_view(new@)[idx as int]);
            assert(rem.skip(1) =~= updates_view(new@).skip(idx as int + 1));
        }
        match patch_one_vec(&text, &keyc, &toksc) {
            None => {
                proof {
                    assert(patch_all(text@, rem) is None);
                }
                return Err(RefreshError::Patch);
            },
            Some(t) => {
                proof {
                    assert(patch_all(text@, rem) == patch_all(t@, rem.skip(1)));
                }
                text = t;
            },
        }
        idx += 1;
    }
    proof {
        assert(updates_view(new@).skip(n as int) =~= Seq::<(Seq<char>, Seq<Seq<char>>)>::empty());
    }
    let out = string_from_chars(&text);
    *spec_inner = out;
    Ok(())
}

} // verus!
