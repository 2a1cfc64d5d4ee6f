//! Resolution of reference blocks against blocks and outputs by name.

use vstd::prelude::*;
use crate::text::concat_str;
use crate::text_map::{TextMap, text_view, block_map_view};
use crate::parser::blocks::{Block, BlockModel, lookup};

verus! {

/// Resolves reference blocks from copies of the blocks and outputs that it
/// was made with.
pub struct ReferenceResolver {
    blocks: TextMap<Block>,
    outputs: TextMap<String>,
}

/// What a reference block `b` resolves to: the content of the block named
/// by its `target` modifier, else the output under that name.
pub open spec fn resolve_reference(
    blocks: Map<Seq<char>, BlockModel>,
    outputs: Map<Seq<char>, Seq<char>>,
    b: BlockModel,
) -> Result<Seq<char>, Seq<char>> {
    match lookup(b.modifiers, "target"@) {
        None => Err("Reference missing target attribute"@),
        Some(t) => if blocks.contains_key(t) {
            Ok(blocks[t].content)
        } else if outputs.contains_key(t) {
            Ok(outputs[t])
        } else {
            Err("Reference target '"@ + t + "' not found"@)
        },
    }
}

/// The views of a result of text.
pub open spec fn text_result_view(r: Result<String, String>) -> Result<Seq<char>, Seq<char>> {
    match r {
        Ok(s) => Ok(s@),
        Err(e) => Err(e@),
    }
}

impl ReferenceResolver {
    /// The blocks that references resolve against.
    pub closed spec fn blocks_view(&self) -> Map<Seq<char>, BlockModel> {
        block_map_view(self.blocks@)
    }

    /// The outputs that references resolve against.
    pub closed spec fn outputs_view(&self) -> Map<Seq<char>, Seq<char>> {
        text_view(self.outputs@)
    }

    /// A resolver over copies of `blocks` and `outputs`.
    pub fn new(blocks: &TextMap<Block>, outputs: &TextMap<String>) -> (r: Self)
        ensures
            r.blocks_view() == block_map_view(blocks@),
            r.outputs_view() == text_view(outputs@),
    {
        ReferenceResolver { blocks: blocks.copy(), outputs: outputs.copy() }
    }

    /// The content that the reference block `block` stands for: that of the
    /// block named by its `target` modifier, or else the output under that
    /// name; an error when it has no target or the target is neither.
    pub fn resolve_reference_block(&self, block: &Block) -> (r: Result<String, String>)
        ensures
            text_result_view(r) == resolve_reference(self.blocks_view(), self.outputs_view(), block@),
    {
        let target = match block.get_modifier("target") {
            Some(t) => t,
            None => {
                return Err("Reference missing target attribute".to_owned());
            },
        };
        match self.blocks.get(target.as_str()) {
            Some(b) => Ok(b.content.clone()),
            None => match self.outputs.get(target.as_str()) {
                Some(o) => Ok(o.clone()),
                None => {
                    let msg = concat_str("Reference target '", target.as_str());
                    Err(concat_str(msg.as_str(), "' not found"))
                },
            },
        }
    }
}

} // verus!
