//! Parsers for code, shell and api blocks.

use vstd::prelude::*;
use crate::parser::blocks::Block;
use crate::parser::{ParserError, result_view};
use crate::parser::block_parsers::tagged::{parse_tagged, parse_tagged_block, tagged_ok, TaggedKind};
use crate::parser::block_parsers::typed::{parse_typed, parse_typed_block, typed_ok, TypedKind};

verus! {

/// Parses a `[code:language name:... key:value ...] ... [/code:language]` block; its block type is `code:language`.
pub fn parse_code_block(input: &str) -> (r: Result<Block, ParserError>)
    requires
        typed_ok(input@, TypedKind::Code),
    ensures
        result_view(r) == parse_typed(input@, TypedKind::Code),
{
    parse_typed_block(input, TypedKind::Code)
}

/// Parses a `[shell name:... key:value ...] ... [/shell]` block.
pub fn parse_shell_block(input: &str) -> (r: Result<Block, ParserError>)
    requires
        tagged_ok(input@, TaggedKind::Shell),
    ensures
        result_view(r) == parse_tagged(input@, TaggedKind::Shell),
{
    parse_tagged_block(input, TaggedKind::Shell)
}

/// Parses an `[api name:... key:value ...] ... [/api]` block.
pub fn parse_api_block(input: &str) -> (r: Result<Block, ParserError>)
    requires
        tagged_ok(input@, TaggedKind::Api),
    ensures
        result_view(r) == parse_tagged(input@, TaggedKind::Api),
{
    parse_tagged_block(input, TaggedKind::Api)
}

} // verus!
