//! The runner of shell blocks.

use vstd::prelude::*;
use crate::text::str_is;
use crate::parser::blocks::Block;
use crate::executor::error::{ExecutorError, ExecutorErrorModel};

verus! {

/// Runs shell blocks with the system shell.
pub struct ShellRunner;

impl ShellRunner {
    /// Whether the block is a shell block.
    pub fn can_execute(&self, block: &Block) -> (r: bool)
        ensures
            r == (block@.block_type == "shell"@),
    {
        str_is(block.block_type.as_str(), "shell")
    }

    /// The result of a shell command: its output when it succeeded, else a
    /// failure with its error output.
    pub fn outcome(&self, success: bool, stdout: String, stderr: String) -> (r: Result<String, ExecutorError>)
        ensures
            success ==> (r matches Ok(o) && o@ == stdout@),
            !success ==> (r matches Err(e) && e@ == ExecutorErrorModel::ExecutionFailed(stderr@)),
    {
        if success {
            Ok(stdout)
        } else {
            Err(ExecutorError::ExecutionFailed(stderr))
        }
    }
}

} // verus!
