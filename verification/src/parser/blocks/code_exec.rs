//! Code blocks whose opening tag lists modifiers in free `key:value` text,
//! and the modifier reader of API block tags.

use vstd::prelude::*;
use crate::text::{char_index, char_index_vec, chars_of, find, find_in, find_str_in, is_whitespace, lemma_char_index_bounds, lemma_find_in, lemma_rfind, lemma_trim_start_len, lemma_ws_or_bracket, matches_at, rfind, rfind_vec, starts_with, string_of, trim, trim_range, trim_start, vec_range, ws_or_bracket};
use crate::parser::blocks::{Block, BlockModel, has_key, new_block};
use crate::parser::{ParserError, ParserErrorModel, result_view};
use crate::parser::block_parsers::tagged::{
    attr_value, attr_value_exec, mods_view, opt_string, with_modifiers, lemma_strlit_no_bracket,
};
use crate::parser::block_parsers::typed::{append_str, append_vec, word_end, word_end_exec};
use crate::parser::modifiers::{extract_modifiers_from_text, modifiers_from_text};
use crate::parser::modifiers::dependency::{dependencies, extract_dependencies};

verus! {

/// `mods` without its `name` entries when `drop_name` holds.
pub open spec fn keep_mods(mods: Seq<(Seq<char>, Seq<char>)>, drop_name: bool) -> Seq<(Seq<char>, Seq<char>)>
    decreases mods.len(),
{
    if mods.len() == 0 {
        seq![]
    } else {
        let rest = keep_mods(mods.drop_last(), drop_name);
        if drop_name && mods.last().0 == "name"@ {
            rest
        } else {
            rest.push(mods.last())
        }
    }
}

/// `m` with each entry of `deps` appended whose key it does not hold yet,
/// in order.
pub open spec fn add_absent(m: BlockModel, deps: Seq<(Seq<char>, Seq<char>)>) -> BlockModel
    decreases deps.len(),
{
    if deps.len() == 0 {
        m
    } else {
        let prev = add_absent(m, deps.drop_last());
        if has_key(prev.modifiers, deps.last().0) {
            prev
        } else {
            crate::parser::blocks::with_modifier(prev, deps.last().0, deps.last().1)
        }
    }
}

/// The result of parsing `s` as a code block whose name and modifiers are
/// read from the text of its opening tag.
pub open spec fn parse_code_text(s: Seq<char>) -> Result<BlockModel, ParserErrorModel> {
    match find(s, "[code:"@) {
        None => Err(ParserErrorModel::ParseError("Missing code block tags"@)),
        Some(o) => {
            let le = word_end(s, o + 6);
            let lang = trim(s.subrange(o + 6, le));
            match find_in(s, "]"@, o, s.len() as int) {
                None => Err(ParserErrorModel::ParseError("Invalid code block format"@)),
                Some(cb) => {
                    let mt = trim(s.subrange(le, cb));
                    let name = attr_value(mt, 0, mt.len() as int, "name:"@);
                    let close = "[/code:"@ + lang + "]"@;
                    match rfind(s, close) {
                        None => Err(ParserErrorModel::ParseError("Missing closing tag: "@ + close)),
                        Some(ct) => {
                            let b = new_block("code:"@ + lang, name, trim(s.subrange(cb + 1, ct)));
                            let b2 = with_modifiers(b, keep_mods(modifiers_from_text(mt), name is Some));
                            Ok(add_absent(b2, dependencies(mt)))
                        },
                    }
                },
            }
        },
    }
}

/// The inputs on which this code block parser slices in range: the language
/// ends inside the opening tag and the closing tag does not come before the
/// end of the opening tag.
pub open spec fn code_text_ok(s: Seq<char>) -> bool {
    match find(s, "[code:"@) {
        None => true,
        Some(o) => {
            let le = word_end(s, o + 6);
            let lang = trim(s.subrange(o + 6, le));
            match find_in(s, "]"@, o, s.len() as int) {
                None => true,
                Some(cb) => le <= cb && match rfind(s, "[/code:"@ + lang + "]"@) {
                    Some(ct) => cb + 1 <= ct,
                    None => true,
                },
            }
        },
    }
}

fn keep_mods_exec(mods: &Vec<(String, String)>, drop_name: bool) -> (r: Vec<(String, String)>)
    ensures
        mods_view(r@) == keep_mods(mods_view(mods@), drop_name),
{
    let mut r: Vec<(String, String)> = Vec::new();
    let mut i: usize = 0;
    while i < mods.len()
        invariant
            i <= mods@.len(),
            mods_view(r@) == keep_mods(mods_view(mods@.take(i as int)), drop_name),
        decreases mods.len() - i,
    {
        proof {
            assert(mods_view(mods@.take(i + 1)).drop_last() =~= mods_view(mods@.take(i as int)));
        }
        let is_name = crate::text::str_is(mods[i].0.as_str(), "name");
        if !(drop_name && is_name) {
            let ghost old_r = r@;
            r.push((mods[i].0.clone(), mods[i].1.clone()));
            proof {
                assert(mods_view(r@) =~= mods_view(old_r).push((mods@[i as int].0@, mods@[i as int].1@)));
            }
        }
        i = i + 1;
    }
    proof {
        assert(mods@.take(mods@.len() as int) =~= mods@);
    }
    r
}

/// Appends each entry of `deps` whose key `b` does not hold yet.
fn add_absent_exec(b: &mut Block, deps: &Vec<(String, String)>)
    ensures
        final(b)@ == add_absent(old(b)@, mods_view(deps@)),
{
    let mut i: usize = 0;
    while i < deps.len()
        invariant
            i <= deps@.len(),
            b@ == add_absent(old(b)@, mods_view(deps@.take(i as int))),
        decreases deps.len() - i,
    {
        proof {
            assert(mods_view(deps@.take(i + 1)).drop_last() =~= mods_view(deps@.take(i as int)));
        }
        if !b.has_modifier(deps[i].0.as_str()) {
            b.add_modifier(deps[i].0.as_str(), deps[i].1.as_str());
        }
        i = i + 1;
    }
    proof {
        assert(deps@.take(deps@.len() as int) =~= deps@);
    }
}

/// Parses a `[code:language name:... depends:... key:value ...] ...
/// [/code:language]` block, reading the name and the modifiers from the text
/// of the opening tag: all free `key:value` modifiers (without `name` when
/// a name was found), then the dependency entries not already present.
pub fn parse_code_block(input: &str) -> (r: Result<Block, ParserError>)
    requires
        code_text_ok(input@),
    ensures
        result_view(r) == parse_code_text(input@),
{
    let v = chars_of(input);
    let n = v.len();
    proof {
        lemma_find_in(v@, "[code:"@, 0, n as int);
        reveal_strlit("[code:");
        lemma_strlit_no_bracket("[code:"@);
    }
    match find_str_in(&v, "[code:", 0, n) {
        None => Err(ParserError::ParseError("Missing code block tags".to_owned())),
        Some(o) => {
            let ls = o + 6;
            let le = word_end_exec(&v, ls);
            let (wa, wz) = trim_range(&v, ls, le);
            let lang = vec_range(&v, wa, wz);
            match find_str_in(&v, "]", o, n) {
                None => Err(ParserError::ParseError("Invalid code block format".to_owned())),
                Some(cb) => {
                    proof {
                        lemma_find_in(v@, "]"@, o as int, n as int);
                    }
                    let (ma, mz) = trim_range(&v, le, cb);
                    let mt = vec_range(&v, ma, mz);
                    let name = attr_value_exec(&mt, 0, mt.len(), "name:");
                    let mut close: Vec<char> = Vec::new();
                    append_str(&mut close, "[/code:");
                    append_vec(&mut close, &lang);
                    append_str(&mut close, "]");
                    match rfind_vec(&v, &close) {
                        None => {
                            let mut msg: Vec<char> = Vec::new();
                            append_str(&mut msg, "Missing closing tag: ");
                            append_vec(&mut msg, &close);
                            Err(ParserError::ParseError(string_of(&msg)))
                        },
                        Some(ct) => {
                            proof {
                                lemma_rfind(v@, close@);
                            }
                            let (ca, cz) = trim_range(&v, cb + 1, ct);
                            let content = string_of(&vec_range(&v, ca, cz));
                            let mut t: Vec<char> = Vec::new();
                            append_str(&mut t, "code:");
                            append_vec(&mut t, &lang);
                            let ts = string_of(&t);
                            let name_s = opt_string(&name);
                            let mut b = match &name_s {
                                Some(x) => Block::new(ts.as_str(), Some(x.as_str()), content.as_str()),
                                None => Block::new(ts.as_str(), None, content.as_str()),
                            };
                            let mts = string_of(&mt);
                            let mods = extract_modifiers_from_text(mts.as_str());
                            let kept = keep_mods_exec(&mods, name.is_some());
                            crate::parser::block_parsers::tagged::add_modifiers(&mut b, &kept);
                            let deps = extract_dependencies(mts.as_str());
                            add_absent_exec(&mut b, &deps);
                            Ok(b)
                        },
                    }
                },
            }
        },
    }
}

/// The modifiers read from the rest `rem` of an API tag: `name:value`
/// entries, quoted `key:"value"` entries and unquoted `key:value` entries,
/// until a `]`, the end of the text, or text without a further `:`.
pub open spec fn api_mods(rem: Seq<char>) -> Seq<(Seq<char>, Seq<char>)>
    decreases rem.len(),
{
    if rem.len() == 0 || rem[0] == ']' {
        seq![]
    } else {
        let r = trim_start(rem);
        proof {
            lemma_trim_start_len(rem);
        }
        if starts_with(r, "name:"@) {
            let ne = ws_or_bracket(r, 5);
            proof {
                reveal_strlit("name:");
                lemma_ws_or_bracket(r, 5);
            }
            seq![("name"@, r.subrange(5, ne))] + api_mods(r.skip(ne))
        } else {
            match char_index(r, ':', 0) {
                None => seq![],
                Some(c) => {
                    proof {
                        lemma_char_index_bounds(r, ':', 0);
                    }
                    let key = trim(r.take(c));
                    let rest = r.skip(c + 1);
                    if rest.len() > 0 && rest[0] == '"' {
                        match char_index(rest, '"', 1) {
                            Some(q) => {
                                proof {
                                    lemma_char_index_bounds(rest, '"', 1);
                                }
                                seq![(key, rest.subrange(1, q))] + api_mods(rest.skip(q + 1))
                            },
                            None => {
                                let ve = ws_or_bracket(rest, 0);
                                proof {
                                    lemma_ws_or_bracket(rest, 0);
                                }
                                seq![(key, rest.take(ve))] + api_mods(rest.skip(ve))
                            },
                        }
                    } else {
                        let ve = ws_or_bracket(rest, 0);
                        proof {
                            lemma_ws_or_bracket(rest, 0);
                        }
                        seq![(key, rest.take(ve))] + api_mods(rest.skip(ve))
                    }
                },
            }
        }
    }
}

/// The modifiers of an API opening tag `[api ...]`.
pub open spec fn api_tag_modifiers(tag: Seq<char>) -> Seq<(Seq<char>, Seq<char>)> {
    if starts_with(tag, "[api"@) {
        api_mods(trim(tag.skip(4)))
    } else {
        seq![]
    }
}

fn ws_or_bracket_exec(v: &Vec<char>, from: usize) -> (r: usize)
    requires
        from <= v@.len(),
    ensures
        r == ws_or_bracket(v@, from as int),
        from <= r <= v@.len(),
{
    let n = v.len();
    let mut i = from;
    while i < n && !is_whitespace(v[i]) && v[i] != ']'
        invariant
            n == v@.len(),
            from <= i <= n,
            ws_or_bracket(v@, from as int) == ws_or_bracket(v@, i as int),
        decreases n - i,
    {
        i = i + 1;
    }
    i
}

/// The modifiers of an API opening tag `[api name:... key:"value" ...]`:
/// a `name` entry for `name:value`, and a `(key, value)` entry for each
/// further `key:value`, a quoted value taken without its quotes.
pub fn extract_api_modifiers_from_tag(tag_text: &str) -> (r: Vec<(String, String)>)
    ensures
        mods_view(r@) == api_tag_modifiers(tag_text@),
{
    let t = chars_of(tag_text);
    let mut out: Vec<(String, String)> = Vec::new();
    proof {
        reveal_strlit("[api");
        reveal_strlit("name:");
    }
    if !matches_at(&t, &chars_of("[api"), 0) {
        proof {
            assert(mods_view(out@) =~= Seq::<(Seq<char>, Seq<char>)>::empty());
        }
        return out;
    }
    let (a, z) = trim_range(&t, 4, t.len());
    let mut rem = vec_range(&t, a, z);
    proof {
        assert(t@.skip(4) =~= t@.subrange(4, t@.len() as int));
        assert(mods_view(out@) + api_mods(rem@) =~= api_mods(rem@));
    }
    let ghost total = api_mods(rem@);
    proof {
        assert(total == api_tag_modifiers(tag_text@));
    }
    loop
        invariant
            total == api_tag_modifiers(tag_text@),
            total == mods_view(out@) + api_mods(rem@),
        decreases rem@.len(),
    {
        if rem.len() == 0 || rem[0] == ']' {
            proof {
                assert(mods_view(out@) + api_mods(rem@) =~= mods_view(out@));
            }
            return out;
        }
        let ghost old_rem = rem@;
        let ghost old_out = mods_view(out@);
        proof {
            reveal_strlit("name:");
        }
        let ra = crate::text::first_non_ws(&rem, 0);
        let r = vec_range(&rem, ra, rem.len());
        proof {
            crate::text::lemma_trim_start_at_any(rem@, ra as int);
        }
        if matches_at(&r, &chars_of("name:"), 0) {
            let ne = ws_or_bracket_exec(&r, 5);
            let val = string_of(&vec_range(&r, 5, ne));
            out.push(("name".to_owned(), val));
            rem = vec_range(&r, ne, r.len());
            proof {
                assert(rem@ =~= r@.skip(ne as int));
                assert(mods_view(out@) =~= old_out.push(("name"@, r@.subrange(5, ne as int))));
                assert(total == mods_view(out@) + api_mods(rem@));
            }
        } else {
            match char_index_vec(&r, ':', 0) {
                None => {
                    proof {
                        assert(mods_view(out@) + api_mods(old_rem) =~= mods_view(out@));
                    }
                    return out;
                },
                Some(c) => {
                    proof {
                        lemma_char_index_bounds(r@, ':', 0);
                    }
                    let (ka, kz) = trim_range(&r, 0, c);
                    let key = string_of(&vec_range(&r, ka, kz));
                    proof {
                        assert(r@.take(c as int) =~= r@.subrange(0, c as int));
                    }
                    let rest = vec_range(&r, c + 1, r.len());
                    proof {
                        assert(rest@ =~= r@.skip(c + 1));
                    }
                    let mut handled = false;
                    if rest.len() > 0 && rest[0] == '"' {
                        match char_index_vec(&rest, '"', 1) {
                            Some(q) => {
                                proof {
                                    lemma_char_index_bounds(rest@, '"', 1);
                                }
                                let val = string_of(&vec_range(&rest, 1, q));
                                out.push((key.clone(), val));
                                rem = vec_range(&rest, q + 1, rest.len());
                                proof {
                                    assert(rem@ =~= rest@.skip(q + 1));
                                    assert(mods_view(out@) =~= old_out.push((trim(r@.take(c as int)), rest@.subrange(1, q as int))));
                                }
                                handled = true;
                            },
                            None => {},
                        }
                    }
                    if !handled {
                        let ve = ws_or_bracket_exec(&rest, 0);
                        let val = string_of(&vec_range(&rest, 0, ve));
                        proof {
                            assert(rest@.take(ve as int) =~= rest@.subrange(0, ve as int));
                        }
                        out.push((key, val));
                        rem = vec_range(&rest, ve, rest.len());
                        proof {
                            assert(rem@ =~= rest@.skip(ve as int));
                            assert(mods_view(out@) =~= old_out.push((trim(r@.take(c as int)), rest@.take(ve as int))));
                        }
                    }
                },
            }
        }
    }
}

} // verus!
