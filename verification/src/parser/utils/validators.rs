//! Validation of the blocks of a document.

use vstd::prelude::*;
use crate::text::{starts_with, str_is, chars_of, matches_at};
use crate::parser::blocks::{Block, BlockModel};
use crate::parser::{ParserError, ParserErrorModel};
use crate::parser::document_processor::blocks_view;

verus! {

/// Whether a block type is a template invocation.
pub open spec fn is_invocation(t: Seq<char>) -> bool {
    t == "template_invocation"@ || starts_with(t, "template_invocation:"@)
}

/// The type recorded for a named block: invocations all count as
/// `template_invocation`.
pub open spec fn recorded_type(b: BlockModel) -> Seq<char> {
    if is_invocation(b.block_type) {
        "template_invocation"@
    } else {
        b.block_type
    }
}

/// The last block before index `i` named `n`.
pub open spec fn last_named_before(bs: Seq<BlockModel>, n: Seq<char>, i: int) -> Option<int>
    decreases i,
{
    if i <= 0 || i > bs.len() {
        None
    } else if bs[i - 1].name == Some(n) {
        Some(i - 1)
    } else {
        last_named_before(bs, n, i - 1)
    }
}

/// The block at index `i` clashes with an earlier block of the same name: it
/// is not a template invocation, or the last earlier block of that name is.
pub open spec fn clashes(bs: Seq<BlockModel>, i: int) -> bool {
    match bs[i].name {
        None => false,
        Some(n) => match last_named_before(bs, n, i) {
            None => false,
            Some(j) => !is_invocation(bs[i].block_type) || recorded_type(bs[j]) == "template_invocation"@,
        },
    }
}

/// The first clashing block at or after index `from`.
pub open spec fn first_clash(bs: Seq<BlockModel>, from: int) -> Option<int>
    decreases bs.len() - from,
{
    if from < 0 || from >= bs.len() {
        None
    } else if clashes(bs, from) {
        Some(from)
    } else {
        first_clash(bs, from + 1)
    }
}

/// The outcome of checking the names of `bs`: an error naming the first
/// clashing block, or success.
pub open spec fn duplicate_check(bs: Seq<BlockModel>) -> Result<(), ParserErrorModel> {
    match first_clash(bs, 0) {
        Some(i) => Err(ParserErrorModel::DuplicateBlockName(bs[i].name.unwrap())),
        None => Ok(()),
    }
}

fn is_invocation_exec(t: &String) -> (r: bool)
    ensures
        r == is_invocation(t@),
{
    str_is(t.as_str(), "template_invocation") || matches_at(&chars_of(t.as_str()), &chars_of("template_invocation:"), 0)
}

fn clashes_exec(blocks: &[Block], i: usize) -> (r: bool)
    requires
        i < blocks@.len(),
    ensures
        r == clashes(blocks_view(blocks@), i as int),
{
    let ghost bs = blocks_view(blocks@);
    proof {
        assert(blocks@[i as int]@ == bs[i as int]);
    }
    match &blocks[i].name {
        None => false,
        Some(n) => {
            let mut j: usize = i;
            while j > 0
                invariant
                    bs == blocks_view(blocks@),
                    j <= i < bs.len(),
                    bs[i as int].name == Some(n@),
                    last_named_before(bs, n@, i as int) == last_named_before(bs, n@, j as int),
                decreases j,
            {
                proof {
                    assert(blocks@[j - 1]@ == bs[j - 1]);
                }
                let same = match &blocks[j - 1].name {
                    Some(m) => str_is(m.as_str(), n.as_str()),
                    None => false,
                };
                if same {
                    let inv_i = is_invocation_exec(&blocks[i].block_type);
                    let inv_j = is_invocation_exec(&blocks[j - 1].block_type);
                    proof {
                        reveal_strlit("template_invocation");
                    }
                    let rec_is_inv = inv_j || str_is(blocks[j - 1].block_type.as_str(), "template_invocation");
                    return !inv_i || rec_is_inv;
                }
                j = j - 1;
            }
            false
        },
    }
}

/// Checks that block names are unique. A template invocation may reuse the
/// name of an earlier block that is not an invocation; any other repeat is
/// a `DuplicateBlockName` error for the first block that repeats a name.
pub fn check_duplicate_names(blocks: &[Block]) -> (r: Result<(), ParserError>)
    ensures
        match r {
            Ok(()) => duplicate_check(blocks_view(blocks@)) == Ok::<(), ParserErrorModel>(()),
            Err(e) => duplicate_check(blocks_view(blocks@)) == Err::<(), ParserErrorModel>(e@),
        },
{
    let ghost bs = blocks_view(blocks@);
    let n = blocks.len();
    let mut i: usize = 0;
    while i < n
        invariant
            bs == blocks_view(blocks@),
            n == bs.len(),
            i <= n,
            first_clash(bs, 0) == first_clash(bs, i as int),
        decreases n - i,
    {
        if clashes_exec(blocks, i) {
            proof {
                assert(blocks@[i as int]@ == bs[i as int]);
            }
            let name = match &blocks[i].name {
                Some(x) => x.clone(),
                None => String::new(),
            };
            return Err(ParserError::DuplicateBlockName(name));
        }
        i = i + 1;
    }
    Ok(())
}

} // verus!
