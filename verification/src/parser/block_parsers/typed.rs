//! Block parsers whose opening tag carries a subtype or a name right after a
//! prefix, as in `[section:intro]`, `[code:python]` and `[@summary]`; the
//! closing tag repeats it: `[/section:intro]`.

use vstd::prelude::*;
use crate::text::{
    chars_of, find, find_in, find_str_in, lemma_find_in, lemma_rfind, rfind, rfind_vec, split_ws,
    string_of, trim, trim_range, vec_range, match_at,
};
use crate::parser::blocks::{Block, BlockModel, new_block};
use crate::parser::{ParserError, ParserErrorModel};
use crate::parser::block_parsers::tagged::{
    attr_value, attr_value_exec, text_modifiers, text_modifiers_exec, tokens_safe, with_modifiers,
    add_modifiers, opt_string, ModStyle, SkipRule, ValueRule, lemma_strlit_no_bracket,
};

verus! {

/// The block kinds of the form `[prefix<word> ...]`.
#[derive(Clone, Copy)]
pub enum TypedKind {
    Section,
    Code,
    Invocation,
}

/// The opening prefix of kind `k`.
pub open spec fn typed_open(k: TypedKind) -> Seq<char> {
    match k {
        TypedKind::Section => "[section:"@,
        TypedKind::Code => "[code:"@,
        TypedKind::Invocation => "[@"@,
    }
}

/// The closing prefix of kind `k`.
pub open spec fn typed_close(k: TypedKind) -> Seq<char> {
    match k {
        TypedKind::Section => "[/section:"@,
        TypedKind::Code => "[/code:"@,
        TypedKind::Invocation => "[/@"@,
    }
}

/// The prefix of the block type of kind `k` (the whole type for invocations).
pub open spec fn typed_type_prefix(k: TypedKind) -> Seq<char> {
    match k {
        TypedKind::Section => "section:"@,
        TypedKind::Code => "code:"@,
        TypedKind::Invocation => "template_invocation"@,
    }
}

/// The message when the opening tag of kind `k` lacks its `]`.
pub open spec fn typed_format_error(k: TypedKind) -> Seq<char> {
    match k {
        TypedKind::Section => "Invalid section block format"@,
        TypedKind::Code => "Invalid code block format"@,
        TypedKind::Invocation => "Invalid template invocation format"@,
    }
}

/// The message when the opening prefix of kind `k` is not found.
pub open spec fn typed_missing_error(k: TypedKind) -> Seq<char> {
    match k {
        TypedKind::Section => "Missing section block tags"@,
        TypedKind::Code => "Missing code block tags"@,
        TypedKind::Invocation => "Missing template invocation tags"@,
    }
}

/// How kind `k` turns the tokens of its opening tag into modifiers.
pub open spec fn typed_style(k: TypedKind) -> ModStyle {
    match k {
        TypedKind::Section => ModStyle { skip: SkipRule::NamePrefix, trim_parts: false, value: ValueRule::StripPair },
        TypedKind::Code => ModStyle { skip: SkipRule::NameKey, trim_parts: true, value: ValueRule::TrimQuotes },
        TypedKind::Invocation => ModStyle { skip: SkipRule::Never, trim_parts: true, value: ValueRule::StripPair },
    }
}

/// Where the word after the prefix at `ts` ends: the first space after it,
/// else the first `]` after it, else the end of the input.
pub open spec fn word_end(s: Seq<char>, ts: int) -> int {
    match find_in(s, " "@, ts, s.len() as int) {
        Some(e) => e,
        None => match find_in(s, "]"@, ts, s.len() as int) {
            Some(e) => e,
            None => s.len() as int,
        },
    }
}

/// The closing tag for the word `w` of kind `k`.
pub open spec fn typed_close_tag(k: TypedKind, w: Seq<char>) -> Seq<char> {
    typed_close(k) + w + "]"@
}

/// The result of parsing `s` as a block of kind `k`.
pub open spec fn parse_typed(s: Seq<char>, k: TypedKind) -> Result<BlockModel, ParserErrorModel> {
    match find(s, typed_open(k)) {
        None => Err(ParserErrorModel::ParseError(typed_missing_error(k))),
        Some(o) => {
            let ts = o + typed_open(k).len();
            let te = word_end(s, ts);
            let w = trim(s.subrange(ts, te));
            match find_in(s, "]"@, o, s.len() as int) {
                None => Err(ParserErrorModel::ParseError(typed_format_error(k))),
                Some(cb) => {
                    let close = typed_close_tag(k, w);
                    match rfind(s, close) {
                        None => Err(ParserErrorModel::ParseError("Missing closing tag: "@ + close)),
                        Some(ct) => {
                            let content = trim(s.subrange(cb + 1, ct));
                            let b = match k {
                                TypedKind::Invocation => new_block(typed_type_prefix(k), Some(w), content),
                                _ => new_block(typed_type_prefix(k) + w, attr_value(s, o, cb, "name:"@), content),
                            };
                            Ok(with_modifiers(b, text_modifiers(s.subrange(te, cb), typed_style(k))))
                        },
                    }
                },
            }
        },
    }
}

/// The inputs on which parsing a block of kind `k` slices in range: the
/// closing tag does not come before the end of the opening tag, the word
/// after the prefix ends inside the opening tag, and no modifier value is a
/// lone `"` where one enclosing pair is removed.
pub open spec fn typed_ok(s: Seq<char>, k: TypedKind) -> bool {
    match find(s, typed_open(k)) {
        None => true,
        Some(o) => {
            let ts = o + typed_open(k).len();
            let te = word_end(s, ts);
            let w = trim(s.subrange(ts, te));
            match find_in(s, "]"@, o, s.len() as int) {
                None => true,
                Some(cb) => match rfind(s, typed_close_tag(k, w)) {
                    None => true,
                    Some(ct) => cb + 1 <= ct && te <= cb && tokens_safe(
                        split_ws(trim(s.subrange(te, cb))),
                        typed_style(k),
                    ),
                },
            }
        },
    }
}

fn typed_open_str(k: TypedKind) -> (r: &'static str)
    ensures
        r@ == typed_open(k),
{
    match k {
        TypedKind::Section => "[section:",
        TypedKind::Code => "[code:",
        TypedKind::Invocation => "[@",
    }
}

fn typed_close_str(k: TypedKind) -> (r: &'static str)
    ensures
        r@ == typed_close(k),
{
    match k {
        TypedKind::Section => "[/section:",
        TypedKind::Code => "[/code:",
        TypedKind::Invocation => "[/@",
    }
}

fn typed_type_prefix_str(k: TypedKind) -> (r: &'static str)
    ensures
        r@ == typed_type_prefix(k),
{
    match k {
        TypedKind::Section => "section:",
        TypedKind::Code => "code:",
        TypedKind::Invocation => "template_invocation",
    }
}

fn typed_format_error_str(k: TypedKind) -> (r: &'static str)
    ensures
        r@ == typed_format_error(k),
{
    match k {
        TypedKind::Section => "Invalid section block format",
        TypedKind::Code => "Invalid code block format",
        TypedKind::Invocation => "Invalid template invocation format",
    }
}

fn typed_missing_error_str(k: TypedKind) -> (r: &'static str)
    ensures
        r@ == typed_missing_error(k),
{
    match k {
        TypedKind::Section => "Missing section block tags",
        TypedKind::Code => "Missing code block tags",
        TypedKind::Invocation => "Missing template invocation tags",
    }
}

fn typed_style_exec(k: TypedKind) -> (r: ModStyle)
    ensures
        r == typed_style(k),
{
    match k {
        TypedKind::Section => ModStyle { skip: SkipRule::NamePrefix, trim_parts: false, value: ValueRule::StripPair },
        TypedKind::Code => ModStyle { skip: SkipRule::NameKey, trim_parts: true, value: ValueRule::TrimQuotes },
        TypedKind::Invocation => ModStyle { skip: SkipRule::Never, trim_parts: true, value: ValueRule::StripPair },
    }
}

/// The end of the word that starts at `ts`.
pub fn word_end_exec(v: &Vec<char>, ts: usize) -> (r: usize)
    requires
        ts <= v@.len(),
    ensures
        r == word_end(v@, ts as int),
        ts <= r <= v@.len(),
{
    let n = v.len();
    proof {
        lemma_find_in(v@, " "@, ts as int, n as int);
        lemma_find_in(v@, "]"@, ts as int, n as int);
    }
    match find_str_in(v, " ", ts, n) {
        Some(e) => e,
        None => match find_str_in(v, "]", ts, n) {
            Some(e) => e,
            None => n,
        },
    }
}

/// Appends the characters of `s` to `v`.
pub fn append_str(v: &mut Vec<char>, s: &str)
    ensures
        final(v)@ == old(v)@ + s@,
{
    let c = chars_of(s);
    let mut i: usize = 0;
    while i < c.len()
        invariant
            i <= c@.len(),
            c@ == s@,
            v@ == old(v)@ + c@.take(i as int),
        decreases c.len() - i,
    {
        v.push(c[i]);
        i = i + 1;
        proof {
            assert(v@ =~= old(v)@ + c@.take(i as int));
        }
    }
    proof {
        assert(c@.take(c@.len() as int) =~= c@);
    }
}

/// Appends the characters of `s` to `v`.
pub fn append_vec(v: &mut Vec<char>, s: &Vec<char>)
    ensures
        final(v)@ == old(v)@ + s@,
{
    let mut i: usize = 0;
    while i < s.len()
        invariant
            i <= s@.len(),
            v@ == old(v)@ + s@.take(i as int),
        decreases s.len() - i,
    {
        v.push(s[i]);
        i = i + 1;
        proof {
            assert(v@ =~= old(v)@ + s@.take(i as int));
        }
    }
    proof {
        assert(s@.take(s@.len() as int) =~= s@);
    }
}

proof fn lemma_typed_open_no_bracket(k: TypedKind)
    ensures
        forall|s: Seq<char>, o: int|
            match_at(s, typed_open(k), o) ==> (#[trigger] find_in(s, "]"@, o, s.len() as int) matches Some(cb)
                ==> o + typed_open(k).len() <= cb),
{
    match k {
        TypedKind::Section => { reveal_strlit("[section:"); },
        TypedKind::Code => { reveal_strlit("[code:"); },
        TypedKind::Invocation => { reveal_strlit("[@"); },
    }
    lemma_strlit_no_bracket(typed_open(k));
}

/// Parses `input` as a block of kind `k`.
pub fn parse_typed_block(input: &str, k: TypedKind) -> (r: Result<Block, ParserError>)
    requires
        typed_ok(input@, k),
    ensures
        crate::parser::result_view(r) == parse_typed(input@, k),
{
    let v = chars_of(input);
    let n = v.len();
    proof {
        lemma_find_in(v@, typed_open(k), 0, n as int);
        lemma_typed_open_no_bracket(k);
    }
    match find_str_in(&v, typed_open_str(k), 0, n) {
        None => Err(ParserError::ParseError(typed_missing_error_str(k).to_owned())),
        Some(o) => {
            let ts = o + chars_of(typed_open_str(k)).len();
            let te = word_end_exec(&v, ts);
            let (wa, wz) = trim_range(&v, ts, te);
            let w = vec_range(&v, wa, wz);
            match find_str_in(&v, "]", o, n) {
                None => Err(ParserError::ParseError(typed_format_error_str(k).to_owned())),
                Some(cb) => {
                    proof {
                        lemma_find_in(v@, "]"@, o as int, n as int);
                    }
                    let mut close: Vec<char> = Vec::new();
                    append_str(&mut close, typed_close_str(k));
                    append_vec(&mut close, &w);
                    append_str(&mut close, "]");
                    match rfind_vec(&v, &close) {
                        None => {
                            let mut msg: Vec<char> = Vec::new();
                            append_str(&mut msg, "Missing closing tag: ");
                            append_vec(&mut msg, &close);
                            Err(ParserError::ParseError(string_of(&msg)))
                        },
                        Some(ct) => {
                            proof {
                                lemma_rfind(v@, close@);
                            }
                            let (ca, cz) = trim_range(&v, cb + 1, ct);
                            let content = string_of(&vec_range(&v, ca, cz));
                            let mut b = match k {
                                TypedKind::Invocation => {
                                    let ws = string_of(&w);
                                    Block::new(typed_type_prefix_str(k), Some(ws.as_str()), content.as_str())
                                },
                                _ => {
                                    let mut t: Vec<char> = Vec::new();
                                    append_str(&mut t, typed_type_prefix_str(k));
                                    append_vec(&mut t, &w);
                                    let ts = string_of(&t);
                                    let name = opt_string(&attr_value_exec(&v, o, cb, "name:"));
                                    match &name {
                                        Some(x) => Block::new(ts.as_str(), Some(x.as_str()), content.as_str()),
                                        None => Block::new(ts.as_str(), None, content.as_str()),
                                    }
                                },
                            };
                            let mods = text_modifiers_exec(&v, te, cb, typed_style_exec(k));
                            add_modifiers(&mut b, &mods);
                            Ok(b)
                        },
                    }
                },
            }
        },
    }
}

} // verus!
