//! Parsers for results and error results blocks, whose modifiers are found
//! by regular expressions.

use vstd::prelude::*;
use crate::text::{trim, trim_vec, starts_with, matches_at, char_index, char_index_vec, find_in, find_str_in, chars_of, string_of, vec_range, concat_str, lemma_char_index_bounds, lemma_find_in};
use crate::parser::blocks::{Block, BlockModel, new_block, with_modifier};
use crate::parser::{ParserError, ParserErrorModel, result_view};
use crate::parser::patterns::{regex_group, regex_first_group};

verus! {

/// The two kinds of results blocks.
pub enum ResultsKind {
    Results,
    ErrorResults,
}

/// The block type of a kind.
pub open spec fn results_type(k: ResultsKind) -> Seq<char> {
    match k {
        ResultsKind::Results => "results"@,
        ResultsKind::ErrorResults => "error_results"@,
    }
}

/// The start of a block of a kind.
pub open spec fn results_open(k: ResultsKind) -> Seq<char> {
    match k {
        ResultsKind::Results => "[results"@,
        ResultsKind::ErrorResults => "[error_results"@,
    }
}

/// The closing tag of a kind.
pub open spec fn results_close(k: ResultsKind) -> Seq<char> {
    match k {
        ResultsKind::Results => "[/results]"@,
        ResultsKind::ErrorResults => "[/error_results]"@,
    }
}

/// The message for text that is not a block of a kind.
pub open spec fn results_mismatch(k: ResultsKind) -> Seq<char> {
    match k {
        ResultsKind::Results => "Not a results block: "@,
        ResultsKind::ErrorResults => "Not an error_results block: "@,
    }
}

/// The modifiers that a kind reads, in order.
pub open spec fn results_keys(k: ResultsKind) -> Seq<Seq<char>> {
    match k {
        ResultsKind::Results => seq!["for"@, "format"@, "display"@, "max_lines"@, "trim"@],
        ResultsKind::ErrorResults => seq!["for"@, "format"@],
    }
}

/// The regular expression for the modifier `key`: `key:` and a value, either
/// quoted (group 1) or up to a blank, `]` or `"` (group 2).
pub open spec fn key_pattern(key: Seq<char>) -> Seq<char> {
    key + ":(?:\"([^\"]+)\"|([^\\s\\]\"]+))"@
}

/// The value that the pattern of `key` finds in `tag`: its quoted group, else
/// its plain group, else nothing.
pub open spec fn key_value(key: Seq<char>, tag: Seq<char>) -> Seq<char> {
    match regex_group(key_pattern(key), tag, 1) {
        Some(v) => v,
        None => match regex_group(key_pattern(key), tag, 2) {
            Some(v) => v,
            None => seq![],
        },
    }
}

/// The block `b` with a modifier for each key of `keys` whose value is
/// found in `tag` and not empty.
pub open spec fn with_key_values(b: BlockModel, keys: Seq<Seq<char>>, tag: Seq<char>) -> BlockModel
    decreases keys.len(),
{
    if keys.len() == 0 {
        b
    } else {
        let prev = with_key_values(b, keys.drop_last(), tag);
        let v = key_value(keys.last(), tag);
        if v.len() > 0 {
            with_modifier(prev, keys.last(), v)
        } else {
            prev
        }
    }
}

/// The inputs on which parsing a block of a kind does not panic: a block
/// that starts as the kind does holds a `]`.
pub open spec fn results_ok(input: Seq<char>, k: ResultsKind) -> bool {
    starts_with(trim(input), results_open(k)) ==> char_index(input, ']', 0) is Some
}

/// Parsing a results block of kind `k`: the opening tag runs to the first
/// `]`; the content, trimmed, to the closing tag or the end; the modifiers
/// of the kind are read from the opening tag.
pub open spec fn parse_results(input: Seq<char>, k: ResultsKind) -> Result<BlockModel, ParserErrorModel> {
    if !starts_with(trim(input), results_open(k)) {
        Err(ParserErrorModel::ParseError(results_mismatch(k) + input))
    } else {
        let te = char_index(input, ']', 0).unwrap();
        let tag = input.take(te + 1);
        let cs = te + 1;
        let ce = match find_in(input, results_close(k), cs, input.len() as int) {
            Some(p) => p,
            None => input.len() as int,
        };
        let content = trim(input.subrange(cs, ce));
        Ok(with_key_values(new_block(results_type(k), None, content), results_keys(k), tag))
    }
}

/// The modifier at position `i` of the keys of a kind.
fn key_at(k: &ResultsKind, i: usize) -> (r: &'static str)
    requires
        i < results_keys(*k).len(),
    ensures
        r@ == results_keys(*k)[i as int],
{
    if i == 0 {
        "for"
    } else if i == 1 {
        "format"
    } else if i == 2 {
        "display"
    } else if i == 3 {
        "max_lines"
    } else {
        "trim"
    }
}

/// Parses a results block of kind `k`.
fn parse_results_kind(input: &str, k: ResultsKind) -> (r: Result<Block, ParserError>)
    requires
        results_ok(input@, k),
    ensures
        result_view(r) == parse_results(input@, k),
{
    let v = chars_of(input);
    let n = v.len();
    let t = trim_vec(&v);
    let (open, close, mismatch, block_type, nkeys): (&str, &str, &str, &str, usize) = match k {
        ResultsKind::Results => ("[results", "[/results]", "Not a results block: ", "results", 5),
        ResultsKind::ErrorResults => ("[error_results", "[/error_results]", "Not an error_results block: ", "error_results", 2),
    };
    proof {
        reveal_strlit("for");
        reveal_strlit("format");
    }
    assert(nkeys == results_keys(k).len());
    let ov = chars_of(open);
    if !matches_at(&t, &ov, 0) {
        return Err(ParserError::ParseError(concat_str(mismatch, input)));
    }
    let te = match char_index_vec(&v, ']', 0) {
        Some(te) => te,
        None => {
            return Err(ParserError::ParseError(concat_str(mismatch, input)));
        },
    };
    proof {
        lemma_char_index_bounds(v@, ']', 0);
    }
    let cs = te + 1;
    let ce = match find_str_in(&v, close, cs, n) {
        Some(p) => p,
        None => n,
    };
    proof {
        lemma_find_in(v@, close@, cs as int, n as int);
    }
    let tag_v = vec_range(&v, 0, cs);
    let tag = string_of(&tag_v);
    let content = string_of(&trim_vec(&vec_range(&v, cs, ce)));
    let mut block = Block::new(block_type, None, content.as_str());
    proof {
        assert(tag_v@ =~= input@.take(cs as int));
    }
    let ghost keys = results_keys(k);
    let ghost base = block@;
    let mut i: usize = 0;
    while i < nkeys
        invariant
            nkeys == keys.len(),
            keys == results_keys(k),
            i <= nkeys,
            block@ == with_key_values(base, keys.take(i as int), tag@),
        decreases nkeys - i,
    {
        let key = key_at(&k, i);
        let pattern = concat_str(key, ":(?:\"([^\"]+)\"|([^\\s\\]\"]+))");
        proof {
            assert(keys.take(i as int + 1).drop_last() =~= keys.take(i as int));
            assert(keys.take(i as int + 1).last() == key@);
        }
        let value = match regex_first_group(pattern.as_str(), tag.as_str(), 1) {
            Some(v1) => v1,
            None => match regex_first_group(pattern.as_str(), tag.as_str(), 2) {
                Some(v2) => v2,
                None => String::new(),
            },
        };
        let vc = chars_of(value.as_str());
        if vc.len() > 0 {
            block.add_modifier(key, value.as_str());
        }
        i = i + 1;
    }
    proof {
        assert(keys.take(nkeys as int) =~= keys);
    }
    Ok(block)
}

/// Parses a `[results for:name ...] ... [/results]` block; its `for`,
/// `format`, `display`, `max_lines` and `trim` values, quoted or not, become
/// modifiers.
pub fn parse_results_block(input: &str) -> (r: Result<Block, ParserError>)
    requires
        results_ok(input@, ResultsKind::Results),
    ensures
        result_view(r) == parse_results(input@, ResultsKind::Results),
{
    parse_results_kind(input, ResultsKind::Results)
}

/// Parses an `[error_results for:name ...] ... [/error_results]` block; its
/// `for` and `format` values, quoted or not, become modifiers.
pub fn parse_error_results_block(input: &str) -> (r: Result<Block, ParserError>)
    requires
        results_ok(input@, ResultsKind::ErrorResults),
    ensures
        result_view(r) == parse_results(input@, ResultsKind::ErrorResults),
{
    parse_results_kind(input, ResultsKind::ErrorResults)
}

} // verus!
