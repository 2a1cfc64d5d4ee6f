//! The runners of Python and JavaScript code blocks.

use vstd::prelude::*;
use crate::text::{str_is, trim, trim_vec, trim_matches, trim_matches_vec, chars_of, string_of};
use crate::parser::blocks::{Block, lookup};
use crate::executor::error::{ExecutorError, ExecutorErrorModel};
use crate::executor::runners::{test_mode, test_mode_on, runs_language};

verus! {

/// Runs Python code blocks with `python3`.
pub struct PythonRunner;

/// Runs JavaScript code blocks with `node`.
pub struct JavaScriptRunner;

/// The answer of a code block in test mode: its `test_response`, else a
/// fixed text; `None` outside test mode.
pub open spec fn code_test_response(mods: Seq<(Seq<char>, Seq<char>)>) -> Option<Seq<char>> {
    if test_mode_on(mods) {
        match lookup(mods, "test_response"@) {
            Some(r) => Some(r),
            None => Some("Test mode - no response"@),
        }
    } else {
        None
    }
}

/// The output of a Python program as a result: trimmed, then without
/// surrounding double and then single quotes.
pub open spec fn python_cleaned(out: Seq<char>) -> Seq<char> {
    trim_matches(trim_matches(trim(out), '"'), '\'')
}

/// Whether the block is code in `lang`.
fn runs(block: &Block, full: &str, lang: &str) -> (r: bool)
    requires
        full@ == "code:"@ + lang@,
    ensures
        r == runs_language(block@, lang@),
{
    if str_is(block.block_type.as_str(), full) {
        return true;
    }
    if !str_is(block.block_type.as_str(), "code") {
        return false;
    }
    match block.get_modifier("language") {
        Some(l) => str_is(l.as_str(), lang),
        None => false,
    }
}

/// The answer in test mode.
fn test_answer(block: &Block) -> (r: Option<String>)
    ensures
        match r {
            Some(s) => code_test_response(block@.modifiers) == Some(s@),
            None => code_test_response(block@.modifiers) is None,
        },
{
    if test_mode(block) {
        match block.get_modifier("test_response") {
            Some(t) => Some(t.clone()),
            None => Some("Test mode - no response".to_owned()),
        }
    } else {
        None
    }
}

impl PythonRunner {
    /// Whether the block is Python code: `code:python`, or `code` with the
    /// language `python`.
    pub fn can_execute(&self, block: &Block) -> (r: bool)
        ensures
            r == runs_language(block@, "python"@),
    {
        proof {
            reveal_strlit("code:python");
            reveal_strlit("code:");
            reveal_strlit("python");
            assert("code:python"@ =~= "code:"@ + "python"@);
        }
        runs(block, "code:python", "python")
    }

    /// The answer of the block in test mode (its `test_response`, else a
    /// fixed text); `None` when the block is to run.
    pub fn test_response(&self, block: &Block) -> (r: Option<String>)
        ensures
            match r {
                Some(s) => code_test_response(block@.modifiers) == Some(s@),
                None => code_test_response(block@.modifiers) is None,
            },
    {
        test_answer(block)
    }

    /// The result of a Python program: its output, trimmed and without
    /// surrounding quotes, when it succeeded; else a failure with its error
    /// output.
    pub fn outcome(&self, success: bool, stdout: &str, stderr: String) -> (r: Result<String, ExecutorError>)
        ensures
            success ==> (r matches Ok(o) && o@ == python_cleaned(stdout@)),
            !success ==> (r matches Err(e) && e@ == ExecutorErrorModel::ExecutionFailed(stderr@)),
    {
        if success {
            let t = trim_vec(&chars_of(stdout));
            let t2 = trim_matches_vec(&t, '"');
            let t3 = trim_matches_vec(&t2, '\'');
            Ok(string_of(&t3))
        } else {
            Err(ExecutorError::ExecutionFailed(stderr))
        }
    }
}

impl JavaScriptRunner {
    /// Whether the block is JavaScript code: `code:javascript`, or `code`
    /// with the language `javascript`.
    pub fn can_execute(&self, block: &Block) -> (r: bool)
        ensures
            r == runs_language(block@, "javascript"@),
    {
        proof {
            reveal_strlit("code:javascript");
            reveal_strlit("code:");
            reveal_strlit("javascript");
            assert("code:javascript"@ =~= "code:"@ + "javascript"@);
        }
        runs(block, "code:javascript", "javascript")
    }

    /// The answer of the block in test mode (its `test_response`, else a
    /// fixed text); `None` when the block is to run.
    pub fn test_response(&self, block: &Block) -> (r: Option<String>)
        ensures
            match r {
                Some(s) => code_test_response(block@.modifiers) == Some(s@),
                None => code_test_response(block@.modifiers) is None,
            },
    {
        test_answer(block)
    }

    /// The result of a JavaScript program: its output, trimmed, when it
    /// succeeded; else a failure with its error output.
    pub fn outcome(&self, success: bool, stdout: &str, stderr: String) -> (r: Result<String, ExecutorError>)
        ensures
            success ==> (r matches Ok(o) && o@ == trim(stdout@)),
            !success ==> (r matches Err(e) && e@ == ExecutorErrorModel::ExecutionFailed(stderr@)),
    {
        if success {
            Ok(string_of(&trim_vec(&chars_of(stdout))))
        } else {
            Err(ExecutorError::ExecutionFailed(stderr))
        }
    }
}

} // verus!
