//! Parsers for section, conditional, error, visualization and preview blocks.

use vstd::prelude::*;
use crate::parser::blocks::Block;
use crate::parser::{ParserError, result_view};
use crate::parser::block_parsers::tagged::{parse_tagged, parse_tagged_block, tagged_ok, TaggedKind};
use crate::parser::block_parsers::typed::{parse_typed, parse_typed_block, typed_ok, TypedKind};

verus! {

/// Parses a `[section:type name:...] ... [/section:type]` block; its block type is `section:type`.
pub fn parse_section_block(input: &str) -> (r: Result<Block, ParserError>)
    requires
        typed_ok(input@, TypedKind::Section),
    ensures
        result_view(r) == parse_typed(input@, TypedKind::Section),
{
    parse_typed_block(input, TypedKind::Section)
}

/// Parses a `[conditional key:value ...] ... [/conditional]` block; every `key:value` token of the opening tag becomes a modifier.
pub fn parse_conditional_block(input: &str) -> (r: Result<Block, ParserError>)
    requires
        tagged_ok(input@, TaggedKind::Conditional),
    ensures
        result_view(r) == parse_tagged(input@, TaggedKind::Conditional),
{
    parse_tagged_block(input, TaggedKind::Conditional)
}

/// Parses an `[error type:...] ... [/error]` block; the `type` attribute becomes a modifier.
pub fn parse_error_block(input: &str) -> (r: Result<Block, ParserError>)
    requires
        tagged_ok(input@, TaggedKind::Error),
    ensures
        result_view(r) == parse_tagged(input@, TaggedKind::Error),
{
    parse_tagged_block(input, TaggedKind::Error)
}

/// Parses a `[visualization name:... key:value ...] ... [/visualization]` block.
pub fn parse_visualization_block(input: &str) -> (r: Result<Block, ParserError>)
    requires
        tagged_ok(input@, TaggedKind::Visualization),
    ensures
        result_view(r) == parse_tagged(input@, TaggedKind::Visualization),
{
    parse_tagged_block(input, TaggedKind::Visualization)
}

/// Parses a `[preview key:value ...] ... [/preview]` block.
pub fn parse_preview_block(input: &str) -> (r: Result<Block, ParserError>)
    requires
        tagged_ok(input@, TaggedKind::Preview),
    ensures
        result_view(r) == parse_tagged(input@, TaggedKind::Preview),
{
    parse_tagged_block(input, TaggedKind::Preview)
}

} // verus!
