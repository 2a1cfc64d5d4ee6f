//! Parsers for question and response blocks.

use vstd::prelude::*;
use crate::text::{
    chars_of, find, find_in, find_str_in, lemma_find_in, lemma_rfind, rfind, rfind_str, string_of,
    trim, trim_range, vec_range,
};
use crate::parser::blocks::{Block, BlockModel, new_block, with_modifier};
use crate::parser::{ParserError, ParserErrorModel, result_view};
use crate::parser::block_parsers::tagged::{
    attr_value, attr_value_exec, parse_tagged, parse_tagged_block, tagged_ok, TaggedKind,
};

verus! {

/// Parses a `[question name:... model:...] ... [/question]` block: the name
/// and the `model` modifier come from the opening tag, the content is the
/// trimmed text between the tags.
pub fn parse_question_block(input: &str) -> (r: Result<Block, ParserError>)
    requires
        tagged_ok(input@, TaggedKind::Question),
    ensures
        result_view(r) == parse_tagged(input@, TaggedKind::Question),
{
    parse_tagged_block(input, TaggedKind::Question)
}

/// The number of bytes of the UTF-8 encoding of `c` (`c.len_utf8()`).
pub open spec fn char_width(c: char) -> int {
    if (c as u32) < 0x80 {
        1
    } else if (c as u32) < 0x800 {
        2
    } else if (c as u32) < 0x10000 {
        3
    } else {
        4
    }
}

/// The number of bytes of the UTF-8 encoding of `s`.
pub open spec fn utf8_len(s: Seq<char>) -> int
    decreases s.len(),
{
    if s.len() == 0 {
        0
    } else {
        utf8_len(s.drop_last()) + char_width(s.last())
    }
}

/// `s.chars().nth(i) == Some(c)`.
pub open spec fn nth_is(s: Seq<char>, i: int, c: char) -> bool {
    0 <= i < s.len() && s[i] == c
}

/// Whether the `timestamp:` value starting at `tp` counts as quoted: the
/// character test uses the byte position of `tp` as a character index.
pub open spec fn timestamp_quoted(s: Seq<char>, tp: int) -> bool {
    nth_is(s, utf8_len(s.take(tp)), '"')
}

/// The `timestamp` value of the opening tag `s[open..cb]`.
pub open spec fn timestamp_value(s: Seq<char>, open: int, cb: int) -> Option<Seq<char>> {
    match find_in(s, "timestamp:"@, open, cb) {
        None => None,
        Some(p) => {
            let tp = p + 10;
            if timestamp_quoted(s, tp) {
                let te = match find_in(s, "\""@, tp + 1, cb) {
                    Some(e) => e,
                    None => cb,
                };
                Some(trim(s.subrange(tp + 1, te)))
            } else {
                let te = match find_in(s, " "@, tp, cb) {
                    Some(e) => e,
                    None => cb,
                };
                Some(trim(s.subrange(tp, te)))
            }
        },
    }
}

/// The result of parsing `s` as a response block: the `timestamp` and
/// `tokens` modifiers come from the opening tag, the content is the trimmed
/// text between the tags; the parse fails when a tag is missing.
pub open spec fn parse_response(s: Seq<char>) -> Result<BlockModel, ParserErrorModel> {
    match (find(s, "[response"@), rfind(s, "[/response]"@)) {
        (Some(o), Some(ct)) => match find_in(s, "]"@, o, s.len() as int) {
            None => Err(ParserErrorModel::ParseError("Invalid response block format"@)),
            Some(cb) => {
                let b0 = new_block("response"@, None, seq![]);
                let b1 = match timestamp_value(s, o, cb) {
                    Some(v) => with_modifier(b0, "timestamp"@, v),
                    None => b0,
                };
                let b2 = match attr_value(s, o, cb, "tokens:"@) {
                    Some(v) => with_modifier(b1, "tokens"@, v),
                    None => b1,
                };
                Ok(BlockModel { content: trim(s.subrange(cb + 1, ct)), ..b2 })
            },
        },
        _ => Err(ParserErrorModel::ParseError("Missing response block tags"@)),
    }
}

/// The inputs on which parsing a response block slices in range: the
/// closing tag does not come before the end of the opening tag, and a quoted
/// timestamp starts with a one-byte character inside the opening tag.
pub open spec fn response_ok(s: Seq<char>) -> bool {
    match (find(s, "[response"@), rfind(s, "[/response]"@)) {
        (Some(o), Some(ct)) => match find_in(s, "]"@, o, s.len() as int) {
            None => true,
            Some(cb) => {
                &&& cb + 1 <= ct
                &&& match find_in(s, "timestamp:"@, o, cb) {
                    Some(p) => timestamp_quoted(s, p + 10) ==> p + 10 < cb && char_width(s[p + 10]) == 1,
                    None => true,
                }
            },
        },
        _ => true,
    }
}

fn char_width_exec(c: char) -> (r: usize)
    ensures
        r == char_width(c),
{
    let u = c as u32;
    if u < 0x80 {
        1
    } else if u < 0x800 {
        2
    } else if u < 0x10000 {
        3
    } else {
        4
    }
}

/// Whether the character at the byte position of `tp`, used as a character
/// index, is `"`.
fn timestamp_quoted_exec(v: &Vec<char>, tp: usize) -> (r: bool)
    requires
        tp <= v@.len(),
    ensures
        r == timestamp_quoted(v@, tp as int),
{
    let n = v.len();
    let mut acc: usize = 0;
    let mut i: usize = 0;
    while i < tp
        invariant
            tp <= n == v@.len(),
            i <= tp,
            acc == if utf8_len(v@.take(i as int)) < usize::MAX { utf8_len(v@.take(i as int)) } else { usize::MAX as int },
            utf8_len(v@.take(i as int)) >= 0,
        decreases tp - i,
    {
        let w = char_width_exec(v[i]);
        proof {
            assert(v@.take(i + 1).drop_last() =~= v@.take(i as int));
        }
        if acc > usize::MAX - w {
            acc = usize::MAX;
        } else {
            acc = acc + w;
        }
        i = i + 1;
    }
    proof {
        if utf8_len(v@.take(tp as int)) >= usize::MAX {
            assert(acc >= n);
        }
    }
    acc < n && v[acc] == '"'
}

/// Parses a `[response timestamp:... tokens:...] ... [/response]` block.
pub fn parse_response_block(input: &str) -> (r: Result<Block, ParserError>)
    requires
        response_ok(input@),
    ensures
        result_view(r) == parse_response(input@),
{
    let v = chars_of(input);
    let n = v.len();
    let open = find_str_in(&v, "[response", 0, n);
    let ct = rfind_str(&v, "[/response]");
    proof {
        lemma_find_in(v@, "[response"@, 0, n as int);
        lemma_rfind(v@, "[/response]"@);
        reveal_strlit("timestamp:");
    }
    match (open, ct) {
        (Some(o), Some(ct)) => {
            match find_str_in(&v, "]", o, n) {
                None => Err(ParserError::ParseError("Invalid response block format".to_owned())),
                Some(cb) => {
                    proof {
                        lemma_find_in(v@, "]"@, o as int, n as int);
                    }
                    let mut b = Block::new("response", None, "");
                    match find_str_in(&v, "timestamp:", o, cb) {
                        None => {},
                        Some(p) => {
                            proof {
                                lemma_find_in(v@, "timestamp:"@, o as int, cb as int);
                            }
                            let tp = p + 10;
                            if timestamp_quoted_exec(&v, tp) {
                                let te = match find_str_in(&v, "\"", tp + 1, cb) {
                                    Some(e) => e,
                                    None => cb,
                                };
                                proof {
                                    lemma_find_in(v@, "\""@, tp + 1, cb as int);
                                }
                                let (a, z) = trim_range(&v, tp + 1, te);
                                let ts = string_of(&vec_range(&v, a, z));
                                b.add_modifier("timestamp", ts.as_str());
                            } else {
                                let te = match find_str_in(&v, " ", tp, cb) {
                                    Some(e) => e,
                                    None => cb,
                                };
                                proof {
                                    lemma_find_in(v@, " "@, tp as int, cb as int);
                                }
                                let (a, z) = trim_range(&v, tp, te);
                                let ts = string_of(&vec_range(&v, a, z));
                                b.add_modifier("timestamp", ts.as_str());
                            }
                        },
                    }
                    match attr_value_exec(&v, o, cb, "tokens:") {
                        Some(t) => {
                            let ts = string_of(&t);
                            b.add_modifier("tokens", ts.as_str());
                        },
                        None => {},
                    }
                    let (ca, cz) = trim_range(&v, cb + 1, ct);
                    b.content = string_of(&vec_range(&v, ca, cz));
                    Ok(b)
                },
            }
        },
        _ => Err(ParserError::ParseError("Missing response block tags".to_owned())),
    }
}

} // verus!
