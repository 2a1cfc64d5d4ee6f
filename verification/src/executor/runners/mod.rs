//! The runners of executable blocks: which blocks each runs, and the
//! decisions each makes around the work that it hands to the system.

pub mod shell;
pub mod code;
pub mod conditional;
pub mod question;

use vstd::prelude::*;
use crate::text::str_is;
use crate::parser::blocks::{Block, BlockModel, lookup};

verus! {

/// Whether the modifiers ask for test mode: a `test_mode` modifier that is
/// `true`, `1` or `yes`.
pub open spec fn test_mode_on(mods: Seq<(Seq<char>, Seq<char>)>) -> bool {
    exists|i: int| 0 <= i < mods.len() && (#[trigger] mods[i]).0 == "test_mode"@
        && (mods[i].1 == "true"@ || mods[i].1 == "1"@ || mods[i].1 == "yes"@)
}

/// Whether the block asks for test mode.
pub fn test_mode(block: &Block) -> (r: bool)
    ensures
        r == test_mode_on(block@.modifiers),
{
    let n = block.modifiers.len();
    let mut i: usize = 0;
    while i < n
        invariant
            n == block.modifiers@.len(),
            i <= n,
            forall|j: int| 0 <= j < i ==> !((#[trigger] block@.modifiers[j]).0 == "test_mode"@
                && (block@.modifiers[j].1 == "true"@ || block@.modifiers[j].1 == "1"@ || block@.modifiers[j].1 == "yes"@)),
        decreases n - i,
    {
        proof {
            assert(block@.modifiers[i as int] == (block.modifiers@[i as int].0@, block.modifiers@[i as int].1@));
        }
        let k = block.modifiers[i].0.as_str();
        let v = block.modifiers[i].1.as_str();
        if str_is(k, "test_mode") && (str_is(v, "true") || str_is(v, "1") || str_is(v, "yes")) {
            return true;
        }
        i = i + 1;
    }
    false
}

/// Whether a block is `code:lang`, or `code` with the language `lang`.
pub open spec fn runs_language(b: BlockModel, lang: Seq<char>) -> bool {
    b.block_type == "code:"@ + lang || (b.block_type == "code"@ && lookup(b.modifiers, "language"@) == Some(lang))
}

} // verus!
