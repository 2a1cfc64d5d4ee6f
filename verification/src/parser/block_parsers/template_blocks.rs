//! Parsers for template definitions and template invocations.

use vstd::prelude::*;
use crate::parser::blocks::Block;
use crate::parser::{ParserError, result_view};
use crate::parser::block_parsers::tagged::{parse_tagged, parse_tagged_block, tagged_ok, TaggedKind};
use crate::parser::block_parsers::typed::{parse_typed, parse_typed_block, typed_ok, TypedKind};

verus! {

/// Parses a `[template name:... key:value ...] ... [/template]` block; the name is required.
pub fn parse_template_block(input: &str) -> (r: Result<Block, ParserError>)
    requires
        tagged_ok(input@, TaggedKind::Template),
    ensures
        result_view(r) == parse_tagged(input@, TaggedKind::Template),
{
    parse_tagged_block(input, TaggedKind::Template)
}

/// Parses a `[@name key:value ...] ... [/@name]` invocation; the template name becomes the block name.
pub fn parse_template_invocation(input: &str) -> (r: Result<Block, ParserError>)
    requires
        typed_ok(input@, TypedKind::Invocation),
    ensures
        result_view(r) == parse_typed(input@, TypedKind::Invocation),
{
    parse_typed_block(input, TypedKind::Invocation)
}

} // verus!
