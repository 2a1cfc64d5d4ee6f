//! Checks on the structure of a single bracket-syntax block.

use vstd::prelude::*;
use crate::text::{char_index, char_index_vec, chars_of, contains, find_in_vec, lemma_char_index_bounds};
use crate::parser::ParserError;
use crate::parser::block_parsers::typed::{append_str, append_vec};

verus! {

/// The end of the block type that starts at `from`: the first space or `]`.
pub open spec fn type_end(s: Seq<char>, from: int) -> Option<int>
    decreases s.len() - from,
{
    if from < 0 || from >= s.len() {
        None
    } else if s[from] == ' ' || s[from] == ']' {
        Some(from)
    } else {
        type_end(s, from + 1)
    }
}

/// Whether `s` has a closing tag for the type of its first opening tag: the
/// type runs from after the first `[` to the next space or `]`, and the
/// text `[/type` must occur somewhere in `s`.
pub open spec fn has_closing_tag(s: Seq<char>) -> bool {
    match char_index(s, '[', 0) {
        None => false,
        Some(o) => match type_end(s, o + 1) {
            None => false,
            Some(te) => contains(s, "[/"@ + s.subrange(o + 1, te)),
        },
    }
}

proof fn lemma_type_end(s: Seq<char>, from: int)
    requires
        0 <= from,
    ensures
        type_end(s, from) matches Some(e) ==> from <= e < s.len(),
    decreases s.len() - from,
{
    if from < s.len() && s[from] != ' ' && s[from] != ']' {
        lemma_type_end(s, from + 1);
    }
}

fn type_end_exec(v: &Vec<char>, from: usize) -> (r: Option<usize>)
    ensures
        crate::text::same_pos(r, type_end(v@, from as int)),
{
    let n = v.len();
    let mut i = from;
    while i < n
        invariant
            n == v@.len(),
            from <= i,
            type_end(v@, from as int) == type_end(v@, i as int),
        decreases n - i,
    {
        if v[i] == ' ' || v[i] == ']' {
            return Some(i);
        }
        i = i + 1;
    }
    None
}

/// Whether `content` has a closing tag `[/type` for the type of its first
/// opening tag.
pub fn has_matching_closing_tag(content: &str) -> (r: bool)
    ensures
        r == has_closing_tag(content@),
{
    let v = chars_of(content);
    proof {
        lemma_char_index_bounds(v@, '[', 0);
    }
    match char_index_vec(&v, '[', 0) {
        None => false,
        Some(o) => {
            proof {
                lemma_type_end(v@, o + 1);
            }
            match type_end_exec(&v, o + 1) {
                None => false,
                Some(te) => {
                    let mut close: Vec<char> = Vec::new();
                    append_str(&mut close, "[/");
                    let ty = crate::text::vec_range(&v, o + 1, te);
                    append_vec(&mut close, &ty);
                    find_in_vec(&v, &close, 0, v.len()).is_some()
                },
            }
        },
    }
}

/// `Ok` when `content` has a matching closing tag; otherwise an
/// `InvalidBlockStructure` error.
pub fn validate_block_structure(content: &str) -> (r: Result<(), ParserError>)
    ensures
        r is Ok <==> has_closing_tag(content@),
        r matches Err(e) ==> e@ == crate::parser::ParserErrorModel::InvalidBlockStructure(
            "Missing or invalid closing tag"@,
        ),
{
    if !has_matching_closing_tag(content) {
        return Err(ParserError::InvalidBlockStructure("Missing or invalid closing tag".to_owned()));
    }
    Ok(())
}

} // verus!
