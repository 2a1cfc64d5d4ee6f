//! The providers of language models, and the messages and replies of their
//! interfaces.

use vstd::prelude::*;

verus! {

/// A provider of language models.
#[derive(Debug, Clone, PartialEq)]
pub enum LlmProvider {
    OpenAI,
    Anthropic,
    Custom(String),
}

/// The mathematical value of a provider.
pub enum LlmProviderModel {
    OpenAI,
    Anthropic,
    Custom(Seq<char>),
}

impl View for LlmProvider {
    type V = LlmProviderModel;

    open spec fn view(&self) -> LlmProviderModel {
        match self {
            LlmProvider::OpenAI => LlmProviderModel::OpenAI,
            LlmProvider::Anthropic => LlmProviderModel::Anthropic,
            LlmProvider::Custom(s) => LlmProviderModel::Custom(s@),
        }
    }
}

/// A chat message of the OpenAI interface.
#[derive(Debug)]
pub struct OpenAIMessage {
    pub role: String,
    pub content: String,
}

/// A reply of the OpenAI interface.
#[derive(Debug)]
pub struct OpenAIResponse {
    pub choices: Vec<OpenAIChoice>,
}

/// One choice of an OpenAI reply.
#[derive(Debug)]
pub struct OpenAIChoice {
    pub message: OpenAIMessage,
}

/// A reply of the Anthropic completion interface.
#[derive(Debug)]
pub struct AnthropicResponse {
    pub completion: String,
}

} // verus!
