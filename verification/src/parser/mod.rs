//! Parsing of Meta Programming Language documents into blocks.

pub mod blocks;
pub mod block_parser;
pub mod block_parsers;
pub mod modifiers;
pub mod patterns;
pub mod document_processor;
pub mod utils;
pub mod xml_parser;
pub mod xml_source;

pub use self::blocks::Block;

use vstd::prelude::*;
use crate::text::{str_is, concat_str};
use crate::parser::blocks::BlockModel;
use crate::parser::xml_parser::{blocks_from_events, blocks_result_view, xml_events_of};

verus! {

/// Errors of the parser.
#[derive(Debug)]
pub enum ParserError {
    ParseError(String),
    InvalidBlockStructure(String),
    DuplicateBlockName(String),
    InvalidBlockType(String),
}

/// The mathematical value of a parser error.
pub enum ParserErrorModel {
    ParseError(Seq<char>),
    InvalidBlockStructure(Seq<char>),
    DuplicateBlockName(Seq<char>),
    InvalidBlockType(Seq<char>),
}

impl View for ParserError {
    type V = ParserErrorModel;

    open spec fn view(&self) -> ParserErrorModel {
        match self {
            ParserError::ParseError(s) => ParserErrorModel::ParseError(s@),
            ParserError::InvalidBlockStructure(s) => ParserErrorModel::InvalidBlockStructure(s@),
            ParserError::DuplicateBlockName(s) => ParserErrorModel::DuplicateBlockName(s@),
            ParserError::InvalidBlockType(s) => ParserErrorModel::InvalidBlockType(s@),
        }
    }
}

/// The value of a parse result.
pub open spec fn result_view(r: Result<Block, ParserError>) -> Result<blocks::BlockModel, ParserErrorModel> {
    match r {
        Ok(b) => Ok(b@),
        Err(e) => Err(e@),
    }
}


/// The base block types of the document format. Block types written with an
/// underscore may also be written with a hyphen (`error-results`,
/// `template-invocation`), as XML element names usually are.
pub open spec fn is_base_type(t: Seq<char>) -> bool {
    ||| t == "code"@
    ||| t == "data"@
    ||| t == "shell"@
    ||| t == "visualization"@
    ||| t == "template"@
    ||| t == "variable"@
    ||| t == "secret"@
    ||| t == "filename"@
    ||| t == "memory"@
    ||| t == "api"@
    ||| t == "question"@
    ||| t == "response"@
    ||| t == "results"@
    ||| t == "error_results"@
    ||| t == "error"@
    ||| t == "preview"@
    ||| t == "conditional"@
    ||| t == "section"@
    ||| t == "template_invocation"@
    ||| t == "error-results"@
    ||| t == "template-invocation"@
}

/// Whether `t` names a block type: a base type, or a base type followed by
/// `:` and a subtype (as in `code:python`).
pub open spec fn valid_block_type(t: Seq<char>) -> bool {
    match crate::text::char_index(t, ':', 0) {
        Some(c) => is_base_type(t.take(c)),
        None => is_base_type(t),
    }
}

fn is_base_type_exec(t: &str) -> (r: bool)
    ensures
        r == is_base_type(t@),
{
    str_is(t, "code") || str_is(t, "data") || str_is(t, "shell") || str_is(t, "visualization") || str_is(t, "template") || str_is(t, "variable") || str_is(t, "secret") || str_is(t, "filename") || str_is(t, "memory") || str_is(t, "api") || str_is(t, "question") || str_is(t, "response") || str_is(t, "results") || str_is(t, "error_results") || str_is(t, "error") || str_is(t, "preview") || str_is(t, "conditional") || str_is(t, "section") || str_is(t, "template_invocation") || str_is(t, "error-results") || str_is(t, "template-invocation")
}

/// Whether `block_type` is a base block type, or a base type followed by
/// `:` and a subtype.
pub fn is_valid_block_type(block_type: &str) -> (r: bool)
    ensures
        r == valid_block_type(block_type@),
{
    let v = crate::text::chars_of(block_type);
    match crate::text::char_index_vec(&v, ':', 0) {
        Some(c) => {
            proof {
                crate::text::lemma_char_index_bounds(v@, ':', 0);
                assert(v@.subrange(0, c as int) =~= v@.take(c as int));
            }
            let base = crate::text::string_of_range(&v, 0, c);
            is_base_type_exec(base.as_str())
        },
        None => is_base_type_exec(block_type),
    }
}

/// The text of an error: a phrase for its kind, a colon and its message.
pub open spec fn error_text(e: ParserErrorModel) -> Seq<char> {
    match e {
        ParserErrorModel::ParseError(m) => "Failed to parse document: "@ + m,
        ParserErrorModel::InvalidBlockStructure(m) => "Invalid block structure: "@ + m,
        ParserErrorModel::DuplicateBlockName(m) => "Duplicate block name: "@ + m,
        ParserErrorModel::InvalidBlockType(m) => "Invalid block type: "@ + m,
    }
}

impl ParserError {
    /// The text of the error: a phrase for its kind, a colon and its message.
    pub fn to_string(&self) -> (r: String)
        ensures
            r@ == error_text(self@),
    {
        match self {
            ParserError::ParseError(m) => concat_str("Failed to parse document: ", m.as_str()),
            ParserError::InvalidBlockStructure(m) => concat_str("Invalid block structure: ", m.as_str()),
            ParserError::DuplicateBlockName(m) => concat_str("Duplicate block name: ", m.as_str()),
            ParserError::InvalidBlockType(m) => concat_str("Invalid block type: ", m.as_str()),
        }
    }
}

/// The outcome of parsing a document from the outcome of parsing its XML:
/// an error is reported as a parse error that quotes its text.
pub open spec fn document_result(r: Result<Seq<BlockModel>, ParserErrorModel>) -> Result<Seq<BlockModel>, ParserErrorModel> {
    match r {
        Ok(bs) => Ok(bs),
        Err(e) => Err(ParserErrorModel::ParseError("XML parsing failed: "@ + error_text(e))),
    }
}

/// Parses a document, which is written in XML, into its top-level blocks.
pub fn parse_document(input: &str) -> (r: Result<Vec<Block>, ParserError>)
    ensures
        blocks_result_view(r) == document_result(blocks_from_events(xml_events_of(input@))),
{
    match xml_parser::parse_xml_document(input) {
        Ok(blocks) => Ok(blocks),
        Err(err) => {
            let text = err.to_string();
            Err(ParserError::ParseError(concat_str("XML parsing failed: ", text.as_str())))
        },
    }
}

proof fn lemma_colon_after(t: Seq<char>, sub: Seq<char>, from: int)
    requires
        0 <= from <= t.len(),
        forall|i: int| from <= i < t.len() ==> #[trigger] t[i] != ':',
    ensures
        crate::text::char_index(t + ":"@ + sub, ':', from) == Some(t.len() as int),
    decreases t.len() - from,
{
    reveal_strlit(":");
    let u = t + ":"@ + sub;
    assert(u[t.len() as int] == ':');
    if from < t.len() {
        assert(u[from] == t[from]);
        lemma_colon_after(t, sub, from + 1);
    }
}

proof fn lemma_no_colon(t: Seq<char>, from: int)
    requires
        0 <= from,
        forall|i: int| from <= i < t.len() ==> #[trigger] t[i] != ':',
    ensures
        crate::text::char_index(t, ':', from) is None,
    decreases t.len() - from,
{
    if from < t.len() {
        lemma_no_colon(t, from + 1);
    }
}

/// Each base block type of the document format names a valid block type,
/// alone and with any subtype after a `:` (as in `shell:bash`).
pub proof fn law_base_types_valid(t: Seq<char>, sub: Seq<char>)
    requires
        t == "code"@ || t == "data"@ || t == "shell"@ || t == "visualization"@ || t == "template"@ || t == "variable"@ || t == "secret"@ || t == "filename"@ || t == "memory"@ || t == "api"@ || t == "question"@ || t == "response"@ || t == "results"@ || t == "error_results"@ || t == "error"@ || t == "preview"@ || t == "conditional"@ || t == "section"@ || t == "template_invocation"@,
    ensures
        valid_block_type(t),
        valid_block_type(t + ":"@ + sub),
{
    reveal_strlit("code");
    reveal_strlit("data");
    reveal_strlit("shell");
    reveal_strlit("visualization");
    reveal_strlit("template");
    reveal_strlit("variable");
    reveal_strlit("secret");
    reveal_strlit("filename");
    reveal_strlit("memory");
    reveal_strlit("api");
    reveal_strlit("question");
    reveal_strlit("response");
    reveal_strlit("results");
    reveal_strlit("error_results");
    reveal_strlit("error");
    reveal_strlit("preview");
    reveal_strlit("conditional");
    reveal_strlit("section");
    reveal_strlit("template_invocation");
    assert(forall|i: int| 0 <= i < t.len() ==> #[trigger] t[i] != ':');
    lemma_no_colon(t, 0);
    lemma_colon_after(t, sub, 0);
    assert((t + ":"@ + sub).take(t.len() as int) =~= t);
}

} // verus!
