//! The runner of question blocks, which ask a language model.

use vstd::prelude::*;
use crate::text::{str_is, concat_str, chars_of};

use crate::parser::blocks::{Block, BlockModel, lookup, is_truthy, lower_equals, lower_equals_exec};
use crate::executor::state::{ExecutorState, StateModel};
use crate::executor::error::{ExecutorError, ExecutorErrorModel};

verus! {

/// Runs question blocks by sending their prompt to a language model.
pub struct QuestionRunner;

/// Whether a question runs in test mode: its `test_mode` modifier is
/// truthy, or `env`, the value of `LLM_TEST_MODE` (empty when unset), is not
/// empty.
pub open spec fn question_test_mode(mods: Seq<(Seq<char>, Seq<char>)>, env: Seq<char>) -> bool {
    (lookup(mods, "test_mode"@) matches Some(v) && is_truthy(v)) || env.len() > 0 || env == "1"@
        || lower_equals(env, "true"@)
}

/// The answer of a question in test mode: its `test_response`, else a fixed
/// text; `None` outside test mode.
pub open spec fn question_test_response(mods: Seq<(Seq<char>, Seq<char>)>, env: Seq<char>) -> Option<Seq<char>> {
    if question_test_mode(mods, env) {
        match lookup(mods, "test_response"@) {
            Some(t) => Some(t),
            None => Some("This is a simulated response for testing purposes."@),
        }
    } else {
        None
    }
}

/// The prompt of a question: its content, after its `system_prompt` and a
/// blank line; then, when its `context` modifier names an output, that
/// output as context before the question.
pub open spec fn question_prompt(b: BlockModel, outputs: Map<Seq<char>, Seq<char>>) -> Seq<char> {
    let p = match lookup(b.modifiers, "system_prompt"@) {
        Some(sp) => sp + "\n\n"@ + b.content,
        None => b.content,
    };
    match lookup(b.modifiers, "context"@) {
        Some(c) => if outputs.contains_key(c) {
            "Context:\n"@ + outputs[c] + "\n\nQuestion:\n"@ + p
        } else {
            p
        },
        None => p,
    }
}

/// The output key of the response to a question: its name and
/// `_response`, or `question_response` for an unnamed question.
pub open spec fn response_key(b: BlockModel) -> Seq<char> {
    match b.name {
        Some(n) => n + "_response"@,
        None => "question_response"@,
    }
}

impl QuestionRunner {
    /// Whether the block is a question.
    pub fn can_execute(&self, block: &Block) -> (r: bool)
        ensures
            r == (block@.block_type == "question"@),
    {
        str_is(block.block_type.as_str(), "question")
    }

    /// The answer of the question in test mode, where `test_mode_env` is the
    /// value of `LLM_TEST_MODE` (empty when unset); `None` when the question
    /// is to be asked.
    pub fn test_response(&self, block: &Block, test_mode_env: &str) -> (r: Option<String>)
        ensures
            match r {
                Some(s) => question_test_response(block@.modifiers, test_mode_env@) == Some(s@),
                None => question_test_response(block@.modifiers, test_mode_env@) is None,
            },
    {
        let ev = chars_of(test_mode_env);
        let is_test = block.is_modifier_true("test_mode") || ev.len() > 0 || str_is(test_mode_env, "1")
            || lower_equals_exec(&ev, "true");
        if is_test {
            match block.get_modifier("test_response") {
                Some(t) => Some(t.clone()),
                None => Some("This is a simulated response for testing purposes.".to_owned()),
            }
        } else {
            None
        }
    }

    /// The prompt to send for the question: its content after its system
    /// prompt, with the output that its `context` modifier names as context.
    pub fn prompt(&self, block: &Block, state: &ExecutorState) -> (r: String)
        ensures
            r@ == question_prompt(block@, state@.outputs),
    {
        let p = match block.get_modifier("system_prompt") {
            Some(sp) => {
                let a = concat_str(sp.as_str(), "\n\n");
                concat_str(a.as_str(), block.content.as_str())
            },
            None => block.content.clone(),
        };
        match block.get_modifier("context") {
            Some(c) => match state.outputs.get(c.as_str()) {
                Some(ctx) => {
                    let a = concat_str("Context:\n", ctx.as_str());
                    let b = concat_str(a.as_str(), "\n\nQuestion:\n");
                    concat_str(b.as_str(), p.as_str())
                },
                None => p,
            },
            None => p,
        }
    }

    /// Stores the response to the question under its name and `_response`,
    /// or under `question_response` for an unnamed question.
    pub fn store_response(&self, block: &Block, state: &mut ExecutorState, response: &str)
        ensures
            final(state)@ == (StateModel {
                outputs: old(state)@.outputs.insert(response_key(block@), response@),
                ..old(state)@
            }),
            final(state).cache == old(state).cache,
    {
        let key = match &block.name {
            Some(n) => concat_str(n.as_str(), "_response"),
            None => "question_response".to_owned(),
        };
        state.outputs.insert(key, response.to_owned());
        proof {
            assert(state@.outputs =~= old(state)@.outputs.insert(response_key(block@), response@));
        }
    }

    /// A request needs an API key: with none, the question fails with a
    /// missing-key error that says where a key can be given.
    pub fn check_api_key(&self, api_key: &str) -> (r: Result<(), ExecutorError>)
        ensures
            r is Err <==> api_key@.len() == 0,
            r matches Err(e) ==> e@ == ExecutorErrorModel::MissingApiKey(
                "No API key provided for LLM. Set via block modifier or environment variable."@,
            ),
    {
        if api_key.is_empty() {
            Err(ExecutorError::MissingApiKey(
                "No API key provided for LLM. Set via block modifier or environment variable.".to_owned(),
            ))
        } else {
            Ok(())
        }
    }
}

} // verus!