//! Errors of execution.

use vstd::prelude::*;
use quick_xml::events::attributes::AttrError;
use crate::text::concat_str;

verus! {

#[verifier::external_type_specification]
#[verifier::external_body]
pub struct ExIoError(std::io::Error);

#[verifier::external_type_specification]
#[verifier::external_body]
pub struct ExAttrError(AttrError);

/// Errors of execution.
#[derive(Debug)]
pub enum ExecutorError {
    BlockNotFound(String),
    ExecutionFailed(String),
    CircularDependency(String),
    MissingFallback(String),
    IoError(std::io::Error),
    XmlAttributeError(AttrError),
    LlmApiError(String),
    MissingApiKey(String),
    ReferenceResolutionFailed(String),
    XmlParsingError(String),
}

/// The mathematical value of an execution error; an I/O or XML attribute
/// error is known by its kind alone.
pub enum ExecutorErrorModel {
    BlockNotFound(Seq<char>),
    ExecutionFailed(Seq<char>),
    CircularDependency(Seq<char>),
    MissingFallback(Seq<char>),
    IoError,
    XmlAttributeError,
    LlmApiError(Seq<char>),
    MissingApiKey(Seq<char>),
    ReferenceResolutionFailed(Seq<char>),
    XmlParsingError(Seq<char>),
}

impl View for ExecutorError {
    type V = ExecutorErrorModel;

    open spec fn view(&self) -> ExecutorErrorModel {
        match self {
            ExecutorError::BlockNotFound(m) => ExecutorErrorModel::BlockNotFound(m@),
            ExecutorError::ExecutionFailed(m) => ExecutorErrorModel::ExecutionFailed(m@),
            ExecutorError::CircularDependency(m) => ExecutorErrorModel::CircularDependency(m@),
            ExecutorError::MissingFallback(m) => ExecutorErrorModel::MissingFallback(m@),
            ExecutorError::IoError(_) => ExecutorErrorModel::IoError,
            ExecutorError::XmlAttributeError(_) => ExecutorErrorModel::XmlAttributeError,
            ExecutorError::LlmApiError(m) => ExecutorErrorModel::LlmApiError(m@),
            ExecutorError::MissingApiKey(m) => ExecutorErrorModel::MissingApiKey(m@),
            ExecutorError::ReferenceResolutionFailed(m) => ExecutorErrorModel::ReferenceResolutionFailed(m@),
            ExecutorError::XmlParsingError(m) => ExecutorErrorModel::XmlParsingError(m@),
        }
    }
}

/// The phrase that starts the text of an error of each kind.
pub open spec fn error_prefix(e: ExecutorErrorModel) -> Seq<char> {
    match e {
        ExecutorErrorModel::BlockNotFound(_) => "Block not found: "@,
        ExecutorErrorModel::ExecutionFailed(_) => "Execution failed: "@,
        ExecutorErrorModel::CircularDependency(_) => "Circular dependency: "@,
        ExecutorErrorModel::MissingFallback(_) => "Missing fallback: "@,
        ExecutorErrorModel::IoError => "IO error: "@,
        ExecutorErrorModel::XmlAttributeError => "XML attribute error: "@,
        ExecutorErrorModel::LlmApiError(_) => "LLM API error: "@,
        ExecutorErrorModel::MissingApiKey(_) => "Missing API key: "@,
        ExecutorErrorModel::ReferenceResolutionFailed(_) => "Failed to resolve reference: "@,
        ExecutorErrorModel::XmlParsingError(_) => "XML parsing error: "@,
    }
}

/// The message of an error that carries one.
pub open spec fn error_message(e: ExecutorErrorModel) -> Option<Seq<char>> {
    match e {
        ExecutorErrorModel::BlockNotFound(m) => Some(m),
        ExecutorErrorModel::ExecutionFailed(m) => Some(m),
        ExecutorErrorModel::CircularDependency(m) => Some(m),
        ExecutorErrorModel::MissingFallback(m) => Some(m),
        ExecutorErrorModel::IoError => None,
        ExecutorErrorModel::XmlAttributeError => None,
        ExecutorErrorModel::LlmApiError(m) => Some(m),
        ExecutorErrorModel::MissingApiKey(m) => Some(m),
        ExecutorErrorModel::ReferenceResolutionFailed(m) => Some(m),
        ExecutorErrorModel::XmlParsingError(m) => Some(m),
    }
}

/// Whether `t` is a text of the error `e`: its kind's phrase, then its
/// message where it has one.
pub open spec fn is_error_text(e: ExecutorErrorModel, t: Seq<char>) -> bool {
    &&& t.len() >= error_prefix(e).len()
    &&& t.take(error_prefix(e).len() as int) == error_prefix(e)
    &&& (error_message(e) matches Some(m) ==> t == error_prefix(e) + m)
}

/// The `Display` text of an I/O error.
#[verifier::external_body]
fn io_error_text(e: &std::io::Error) -> String {
    format!("{}", e)
}

/// The `Display` text of a `quick_xml` attribute error.
#[verifier::external_body]
fn attr_error_text(e: &AttrError) -> String {
    format!("{}", e)
}

impl ExecutorError {
    /// The text of the error: a phrase for its kind, then its message, or
    /// the text of the I/O or XML attribute error that it holds.
    pub fn to_string(&self) -> (r: String)
        ensures
            is_error_text(self@, r@),
    {
        let r = match self {
            ExecutorError::BlockNotFound(m) => concat_str("Block not found: ", m.as_str()),
            ExecutorError::ExecutionFailed(m) => concat_str("Execution failed: ", m.as_str()),
            ExecutorError::CircularDependency(m) => concat_str("Circular dependency: ", m.as_str()),
            ExecutorError::MissingFallback(m) => concat_str("Missing fallback: ", m.as_str()),
            ExecutorError::IoError(e) => {
                let t = io_error_text(e);
                concat_str("IO error: ", t.as_str())
            },
            ExecutorError::XmlAttributeError(e) => {
                let t = attr_error_text(e);
                concat_str("XML attribute error: ", t.as_str())
            },
            ExecutorError::LlmApiError(m) => concat_str("LLM API error: ", m.as_str()),
            ExecutorError::MissingApiKey(m) => concat_str("Missing API key: ", m.as_str()),
            ExecutorError::ReferenceResolutionFailed(m) => concat_str("Failed to resolve reference: ", m.as_str()),
            ExecutorError::XmlParsingError(m) => concat_str("XML parsing error: ", m.as_str()),
        };
        proof {
            let p = error_prefix(self@);
            assert(r@.take(p.len() as int) =~= p);
        }
        r
    }
}

impl From<std::io::Error> for ExecutorError {
    fn from(e: std::io::Error) -> (r: Self) {
        ExecutorError::IoError(e)
    }
}

impl vstd::std_specs::convert::FromSpecImpl<std::io::Error> for ExecutorError {
    open spec fn obeys_from_spec() -> bool {
        true
    }

    open spec fn from_spec(e: std::io::Error) -> ExecutorError {
        ExecutorError::IoError(e)
    }
}

impl From<AttrError> for ExecutorError {
    fn from(e: AttrError) -> (r: Self) {
        ExecutorError::XmlAttributeError(e)
    }
}

impl vstd::std_specs::convert::FromSpecImpl<AttrError> for ExecutorError {
    open spec fn obeys_from_spec() -> bool {
        true
    }

    open spec fn from_spec(e: AttrError) -> ExecutorError {
        ExecutorError::XmlAttributeError(e)
    }
}

} // verus!
