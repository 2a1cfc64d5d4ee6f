//! Parsers for data, variable, secret, memory and filename blocks.

use vstd::prelude::*;
use crate::parser::blocks::Block;
use crate::parser::{ParserError, result_view};
use crate::parser::block_parsers::tagged::{parse_tagged, parse_tagged_block, tagged_ok, TaggedKind};

verus! {

/// Parses a `[data name:... format:...] ... [/data]` block.
pub fn parse_data_block(input: &str) -> (r: Result<Block, ParserError>)
    requires
        tagged_ok(input@, TaggedKind::Data),
    ensures
        result_view(r) == parse_tagged(input@, TaggedKind::Data),
{
    parse_tagged_block(input, TaggedKind::Data)
}

/// Parses a `[variable name:... key:value ...] ... [/variable]` block; the name is required.
pub fn parse_variable_block(input: &str) -> (r: Result<Block, ParserError>)
    requires
        tagged_ok(input@, TaggedKind::Variable),
    ensures
        result_view(r) == parse_tagged(input@, TaggedKind::Variable),
{
    parse_tagged_block(input, TaggedKind::Variable)
}

/// Parses a `[secret name:... env:...] ... [/secret]` block; the name is required.
pub fn parse_secret_block(input: &str) -> (r: Result<Block, ParserError>)
    requires
        tagged_ok(input@, TaggedKind::Secret),
    ensures
        result_view(r) == parse_tagged(input@, TaggedKind::Secret),
{
    parse_tagged_block(input, TaggedKind::Secret)
}

/// Parses a `[memory name:... key:value ...] ... [/memory]` block.
pub fn parse_memory_block(input: &str) -> (r: Result<Block, ParserError>)
    requires
        tagged_ok(input@, TaggedKind::Memory),
    ensures
        result_view(r) == parse_tagged(input@, TaggedKind::Memory),
{
    parse_tagged_block(input, TaggedKind::Memory)
}

/// Parses a `[filename name:... key:value ...] ... [/filename]` block.
pub fn parse_filename_block(input: &str) -> (r: Result<Block, ParserError>)
    requires
        tagged_ok(input@, TaggedKind::Filename),
    ensures
        result_view(r) == parse_tagged(input@, TaggedKind::Filename),
{
    parse_tagged_block(input, TaggedKind::Filename)
}

} // verus!
