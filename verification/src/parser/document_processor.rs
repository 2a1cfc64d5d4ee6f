//! Links between the blocks of a document.

use vstd::prelude::*;
use crate::text::{decimal, decimal_string, str_is};
use crate::parser::blocks::{Block, BlockModel, with_modifier};

verus! {

/// The first question block named `n` at or after index `from`.
pub open spec fn first_named_question(bs: Seq<BlockModel>, n: Seq<char>, from: int) -> Option<int>
    decreases bs.len() - from,
{
    if from < 0 || from >= bs.len() {
        None
    } else if bs[from].block_type == "question"@ && bs[from].name == Some(n) {
        Some(from)
    } else {
        first_named_question(bs, n, from + 1)
    }
}

/// The last unnamed question block before index `i`.
pub open spec fn last_unnamed_question_before(bs: Seq<BlockModel>, i: int) -> Option<int>
    decreases i,
{
    if i <= 0 || i > bs.len() {
        None
    } else if bs[i - 1].block_type == "question"@ && bs[i - 1].name is None {
        Some(i - 1)
    } else {
        last_unnamed_question_before(bs, i - 1)
    }
}

/// The question that the response block at index `i` answers: for a named
/// response the first question of the same name, for an unnamed one the
/// nearest preceding unnamed question.
pub open spec fn question_for(bs: Seq<BlockModel>, i: int) -> Option<int> {
    match bs[i].name {
        Some(n) => first_named_question(bs, n, 0),
        None => last_unnamed_question_before(bs, i),
    }
}

/// The block at index `i` after linking: a response with a question gets a
/// `question_ref` modifier holding that question's index.
pub open spec fn linked_block(bs: Seq<BlockModel>, i: int) -> BlockModel {
    if bs[i].block_type == "response"@ {
        match question_for(bs, i) {
            Some(q) => with_modifier(bs[i], "question_ref"@, decimal(q as nat)),
            None => bs[i],
        }
    } else {
        bs[i]
    }
}

/// The views of a sequence of blocks.
pub open spec fn blocks_view(bs: Seq<Block>) -> Seq<BlockModel> {
    bs.map_values(|b: Block| b@)
}

proof fn lemma_first_named_question(bs: Seq<BlockModel>, n: Seq<char>, from: int)
    requires
        0 <= from,
    ensures
        first_named_question(bs, n, from) matches Some(q) ==> from <= q < bs.len(),
    decreases bs.len() - from,
{
    if from < bs.len() && !(bs[from].block_type == "question"@ && bs[from].name == Some(n)) {
        lemma_first_named_question(bs, n, from + 1);
    }
}

proof fn lemma_last_unnamed(bs: Seq<BlockModel>, i: int)
    ensures
        last_unnamed_question_before(bs, i) matches Some(q) ==> 0 <= q < i,
    decreases i,
{
    if 0 < i <= bs.len() && !(bs[i - 1].block_type == "question"@ && bs[i - 1].name is None) {
        lemma_last_unnamed(bs, i - 1);
    }
}

fn is_question(b: &Block) -> (r: bool)
    ensures
        r == (b@.block_type == "question"@),
{
    str_is(b.block_type.as_str(), "question")
}

fn names_equal(a: &Option<String>, n: &String) -> (r: bool)
    ensures
        r == (crate::parser::blocks::opt_view(*a) == Some(n@)),
{
    match a {
        Some(x) => str_is(x.as_str(), n.as_str()),
        None => false,
    }
}

proof fn lemma_linked_keeps(bs: Seq<BlockModel>, i: int)
    requires
        0 <= i < bs.len(),
    ensures
        linked_block(bs, i).block_type == bs[i].block_type,
        linked_block(bs, i).name == bs[i].name,
{
}

/// The index of the question that the response at index `i` answers.
fn find_question(blocks: &Vec<Block>, i: usize, Ghost(bs): Ghost<Seq<BlockModel>>) -> (r: Option<usize>)
    requires
        blocks@.len() == bs.len(),
        i < bs.len(),
        forall|k: int| 0 <= k < bs.len() ==> (#[trigger] blocks@[k])@.block_type == bs[k].block_type
            && blocks@[k]@.name == bs[k].name,
    ensures
        crate::text::same_pos(r, question_for(bs, i as int)),
{
    let n = blocks.len();
    proof {
        assert(blocks@[i as int]@.name == bs[i as int].name);
    }
    match &blocks[i].name {
        Some(name) => {
            let mut q: usize = 0;
            while q < n
                invariant
                    n == blocks@.len() == bs.len(),
                    bs[i as int].name == Some(name@),
                    q <= n,
                    forall|k: int| 0 <= k < bs.len() ==> (#[trigger] blocks@[k])@.block_type == bs[k].block_type
                        && blocks@[k]@.name == bs[k].name,
                    first_named_question(bs, name@, 0) == first_named_question(bs, name@, q as int),
                decreases n - q,
            {
                proof {
                    assert(blocks@[q as int]@.block_type == bs[q as int].block_type);
                }
                if is_question(&blocks[q]) && names_equal(&blocks[q].name, name) {
                    return Some(q);
                }
                q = q + 1;
            }
            None
        },
        None => {
            let mut q: usize = i;
            while q > 0
                invariant
                    n == blocks@.len() == bs.len(),
                    bs[i as int].name is None,
                    q <= i < n,
                    forall|k: int| 0 <= k < bs.len() ==> (#[trigger] blocks@[k])@.block_type == bs[k].block_type
                        && blocks@[k]@.name == bs[k].name,
                    last_unnamed_question_before(bs, i as int) == last_unnamed_question_before(bs, q as int),
                decreases q,
            {
                proof {
                    assert(blocks@[q - 1]@.block_type == bs[q - 1].block_type);
                }
                if is_question(&blocks[q - 1]) && blocks[q - 1].name.is_none() {
                    return Some(q - 1);
                }
                q = q - 1;
            }
            None
        },
    }
}

/// Links each response block to the question it answers by adding a
/// `question_ref` modifier with the question's index: a named response to
/// the first question with the same name, an unnamed response to the
/// nearest unnamed question before it. Other blocks are left as they are.
pub fn update_document(blocks: &mut Vec<Block>)
    ensures
        final(blocks)@.len() == old(blocks)@.len(),
        forall|i: int| 0 <= i < old(blocks)@.len() ==> #[trigger] final(blocks)@[i]@ == linked_block(
            blocks_view(old(blocks)@),
            i,
        ),
{
    let n = blocks.len();
    let ghost bs = blocks_view(blocks@);
    let mut i: usize = 0;
    while i < n
        invariant
            n == blocks@.len() == bs.len(),
            bs == blocks_view(old(blocks)@),
            i <= n,
            forall|k: int| 0 <= k < i ==> #[trigger] blocks@[k]@ == linked_block(bs, k),
            forall|k: int| i <= k < n ==> #[trigger] blocks@[k]@ == bs[k],
        decreases n - i,
    {
        proof {
            assert(blocks@[i as int]@ == bs[i as int]);
            assert forall|k: int| 0 <= k < bs.len() implies (#[trigger] blocks@[k])@.block_type
                == bs[k].block_type && blocks@[k]@.name == bs[k].name by {
                if k < i {
                    lemma_linked_keeps(bs, k);
                }
            }
        }
        if str_is(blocks[i].block_type.as_str(), "response") {
            match find_question(blocks, i, Ghost(bs)) {
                Some(q) => {
                    let mut b = blocks[i].copy();
                    let qs = decimal_string(q as u128);
                    b.add_modifier("question_ref", qs.as_str());
                    blocks.set(i, b);
                },
                None => {},
            }
        }
        i = i + 1;
    }
}

} // verus!
