//! Modifiers written as `key:value` text.

pub mod dependency;

pub use dependency::extract_dependencies;

use vstd::prelude::*;
use crate::text::{chars_of, ends_with, split_ws, split_ws_vec, starts_with, string_of, matches_at, vec_range};
use crate::parser::block_parsers::tagged::{
    attr_value, attr_value_exec, mods_view, tokens_modifiers, tokens_modifiers_exec, ModStyle, SkipRule,
    ValueRule,
};
use dependency::dependencies;

verus! {

/// The value after `key` in `text` up to the next space, trimmed, when it is
/// not empty.
pub open spec fn named_value(text: Seq<char>, key: Seq<char>) -> Option<Seq<char>> {
    match attr_value(text, 0, text.len() as int, key) {
        Some(v) => if v.len() > 0 {
            Some(v)
        } else {
            None
        },
        None => None,
    }
}

/// One entry `(key, v)` when `v` is present.
pub open spec fn opt_entry(key: Seq<char>, v: Option<Seq<char>>) -> Seq<(Seq<char>, Seq<char>)> {
    match v {
        Some(x) => seq![(key, x)],
        None => seq![],
    }
}

/// How free `key:value` tokens are read: tokens for `name`, `depends`,
/// `requires` and `format` are passed over, the parts are trimmed and the
/// value loses its surrounding quotes.
pub open spec fn free_token_style() -> ModStyle {
    ModStyle { skip: SkipRule::KnownKeys, trim_parts: true, value: ValueRule::TrimQuotes }
}

/// The modifiers written in `text`: `name`, then the `depends` and
/// `requires` lists, then `format`, then every other `key:value` token.
pub open spec fn modifiers_from_text(text: Seq<char>) -> Seq<(Seq<char>, Seq<char>)> {
    opt_entry("name"@, named_value(text, "name:"@)) + dependencies(text) + opt_entry(
        "format"@,
        named_value(text, "format:"@),
    ) + tokens_modifiers(split_ws(text), free_token_style(), 0)
}

/// `s` without one enclosing pair of quotes, when it has at least two characters.
pub open spec fn unquoted(s: Seq<char>) -> Seq<char> {
    if starts_with(s, "\""@) && ends_with(s, "\""@) && s.len() >= 2 {
        s.subrange(1, s.len() - 1)
    } else {
        s
    }
}

/// Appends the pairs `more` to `r`.
pub fn append_pairs(r: &mut Vec<(String, String)>, more: Vec<(String, String)>)
    ensures
        mods_view(final(r)@) == mods_view(old(r)@) + mods_view(more@),
{
    let mut i: usize = 0;
    while i < more.len()
        invariant
            i <= more@.len(),
            mods_view(r@) == mods_view(old(r)@) + mods_view(more@.take(i as int)),
        decreases more.len() - i,
    {
        let ghost old_r = r@;
        r.push((more[i].0.clone(), more[i].1.clone()));
        proof {
            assert(mods_view(r@) =~= mods_view(old_r).push((more@[i as int].0@, more@[i as int].1@)));
            assert(mods_view(more@.take(i + 1)) =~= mods_view(more@.take(i as int)).push(
                (more@[i as int].0@, more@[i as int].1@),
            ));
            assert(mods_view(r@) =~= mods_view(old(r)@) + mods_view(more@.take(i + 1)));
        }
        i = i + 1;
    }
    proof {
        assert(more@.take(more@.len() as int) =~= more@);
    }
}

fn named_value_exec(v: &Vec<char>, key: &str) -> (r: Option<String>)
    ensures
        crate::parser::blocks::opt_view(r) == named_value(v@, key@),
{
    match attr_value_exec(v, 0, v.len(), key) {
        Some(x) => if x.len() > 0 {
            Some(string_of(&x))
        } else {
            None
        },
        None => None,
    }
}

/// The modifiers written in `text`: the `name` value, the `depends` and
/// `requires` lists, the `format` value, then every other `key:value` token
/// with its value unquoted.
pub fn extract_modifiers_from_text(text: &str) -> (r: Vec<(String, String)>)
    ensures
        mods_view(r@) == modifiers_from_text(text@),
{
    let v = chars_of(text);
    let mut r: Vec<(String, String)> = Vec::new();
    match named_value_exec(&v, "name:") {
        Some(x) => r.push(("name".to_owned(), x)),
        None => {},
    }
    proof {
        assert(mods_view(r@) =~= opt_entry("name"@, named_value(text@, "name:"@)));
    }
    append_pairs(&mut r, extract_dependencies(text));
    let ghost r2 = r@;
    match named_value_exec(&v, "format:") {
        Some(x) => r.push(("format".to_owned(), x)),
        None => {},
    }
    proof {
        assert(mods_view(r@) =~= mods_view(r2) + opt_entry("format"@, named_value(text@, "format:"@)));
    }
    let toks = split_ws_vec(&v);
    let st = ModStyle { skip: SkipRule::KnownKeys, trim_parts: true, value: ValueRule::TrimQuotes };
    append_pairs(&mut r, tokens_modifiers_exec(&toks, st));
    r
}

/// `text` without its enclosing quotes, when it starts and ends with `"` and
/// has at least two characters; otherwise `text` itself.
pub fn extract_modifier_value(text: &str) -> (r: String)
    ensures
        r@ == unquoted(text@),
{
    let v = chars_of(text);
    let q = chars_of("\"");
    let n = v.len();
    proof {
        reveal_strlit("\"");
    }
    if matches_at(&v, &q, 0) && n >= 1 && matches_at(&v, &q, n - 1) && n >= 2 {
        string_of(&vec_range(&v, 1, n - 1))
    } else {
        text.to_owned()
    }
}

} // verus!
