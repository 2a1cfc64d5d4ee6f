//! The runner of conditional blocks.

use vstd::prelude::*;
use crate::text::{str_is, trim, trim_vec, chars_of, concat_str, trim_start, trim_end, is_ws};

use crate::parser::blocks::{Block, BlockModel, lookup, is_truthy, is_truthy_exec, lemma_first_key_index};
use crate::executor::error::{ExecutorError, ExecutorErrorModel};
use crate::executor::state::ExecutorState;
use crate::executor::runners::{test_mode, test_mode_on};

verus! {

/// Runs conditional blocks: their content counts only when the block that
/// their `if` modifier names produced a true output.
pub struct ConditionalRunner;

/// The result of the conditional block `b` given the outputs: in test mode
/// its `test_response`, else its content; with an `if` modifier naming a
/// block with an output, its content when that output, trimmed, is `true`,
/// `1` or `yes` in any case, and nothing otherwise; an error when that block
/// has no output yet; without an `if` modifier, its content.
pub open spec fn conditional_result(b: BlockModel, outputs: Map<Seq<char>, Seq<char>>) -> Result<Seq<char>, ExecutorErrorModel> {
    if test_mode_on(b.modifiers) {
        match lookup(b.modifiers, "test_response"@) {
            Some(t) => Ok(t),
            None => Ok(b.content),
        }
    } else {
        match lookup(b.modifiers, "if"@) {
            Some(c) => if outputs.contains_key(c) {
                if is_truthy(trim(outputs[c])) {
                    Ok(b.content)
                } else {
                    Ok(seq![])
                }
            } else {
                Err(ExecutorErrorModel::ReferenceResolutionFailed(
                    "Condition block '"@ + c + "' has not been executed"@,
                ))
            },
            None => Ok(b.content),
        }
    }
}

/// The value of an execution result.
pub open spec fn exec_result_view(r: Result<String, ExecutorError>) -> Result<Seq<char>, ExecutorErrorModel> {
    match r {
        Ok(s) => Ok(s@),
        Err(e) => Err(e@),
    }
}

impl ConditionalRunner {
    /// Whether the block is a conditional block.
    pub fn can_execute(&self, block: &Block) -> (r: bool)
        ensures
            r == (block@.block_type == "conditional"@),
    {
        str_is(block.block_type.as_str(), "conditional")
    }

    /// Runs the conditional block `block` against the outputs of `state`.
    pub fn execute(&self, block_name: &str, block: &Block, state: &ExecutorState) -> (r: Result<String, ExecutorError>)
        ensures
            exec_result_view(r) == conditional_result(block@, state@.outputs),
    {
        if test_mode(block) {
            return match block.get_modifier("test_response") {
                Some(t) => Ok(t.clone()),
                None => Ok(block.content.clone()),
            };
        }
        match block.get_modifier("if") {
            Some(cond) => match state.outputs.get(cond.as_str()) {
                Some(out) => {
                    let t = trim_vec(&chars_of(out.as_str()));
                    let ts = crate::text::string_of(&t);
                    if is_truthy_exec(ts.as_str()) {
                        Ok(block.content.clone())
                    } else {
                        Ok(String::new())
                    }
                },
                None => {
                    let m = concat_str("Condition block '", cond.as_str());
                    Err(ExecutorError::ReferenceResolutionFailed(concat_str(m.as_str(), "' has not been executed")))
                },
            },
            None => Ok(block.content.clone()),
        }
    }
}

/// Blank characters as they surround a printed word: space, tab, line
/// feed, carriage return.
pub open spec fn blank(c: char) -> bool {
    c == ' ' || c == '\t' || c == '\n' || c == '\r'
}

proof fn lemma_trim_start_blanks(ws: Seq<char>, x: Seq<char>)
    requires
        forall|i: int| 0 <= i < ws.len() ==> blank(#[trigger] ws[i]),
        x.len() > 0,
        !is_ws(x[0]),
    ensures
        trim_start(ws + x) == x,
    decreases ws.len(),
{
    if ws.len() == 0 {
        assert(ws + x =~= x);
    } else {
        assert((ws + x).drop_first() =~= ws.drop_first() + x);
        assert(is_ws((ws + x)[0]));
        lemma_trim_start_blanks(ws.drop_first(), x);
    }
}

proof fn lemma_trim_end_blanks(x: Seq<char>, ws: Seq<char>)
    requires
        forall|i: int| 0 <= i < ws.len() ==> blank(#[trigger] ws[i]),
        x.len() > 0,
        !is_ws(x.last()),
    ensures
        trim_end(x + ws) == x,
    decreases ws.len(),
{
    if ws.len() == 0 {
        assert(x + ws =~= x);
    } else {
        assert((x + ws).drop_last() =~= x + ws.drop_last());
        assert(is_ws((x + ws).last()));
        lemma_trim_end_blanks(x, ws.drop_last());
    }
}

/// A conditional block shows its content when its condition is met: when
/// the block is not in test mode and the output of the block that its first
/// `if` modifier names is `true`, `yes` or `1`, in any mix of upper and
/// lower case and surrounded by any blanks, the result is the block's
/// content.
pub proof fn law_condition_met_shows_content(
    b: BlockModel,
    outputs: Map<Seq<char>, Seq<char>>,
    k: int,
    word: Seq<char>,
    w: Seq<char>,
    ws1: Seq<char>,
    ws2: Seq<char>,
)
    requires
        forall|i: int| 0 <= i < b.modifiers.len() ==> (#[trigger] b.modifiers[i]).0 != "test_mode"@,
        0 <= k < b.modifiers.len(),
        b.modifiers[k].0 == "if"@,
        forall|j: int| 0 <= j < k ==> (#[trigger] b.modifiers[j]).0 != "if"@,
        outputs.contains_key(b.modifiers[k].1),
        outputs[b.modifiers[k].1] == ws1 + w + ws2,
        forall|i: int| 0 <= i < ws1.len() ==> blank(#[trigger] ws1[i]),
        forall|i: int| 0 <= i < ws2.len() ==> blank(#[trigger] ws2[i]),
        word == "true"@ || word == "yes"@ || word == "1"@,
        w.len() == word.len(),
        forall|i: int| 0 <= i < w.len() ==> #[trigger] w[i] == word[i]
            || ('a' <= word[i] && word[i] <= 'z' && (w[i] as u32) + 32 == (word[i] as u32)),
    ensures
        conditional_result(b, outputs) == Ok::<Seq<char>, ExecutorErrorModel>(b.content),
{
    reveal_strlit("true");
    reveal_strlit("yes");
    reveal_strlit("1");
    assert(!test_mode_on(b.modifiers));
    lemma_first_key_index(b.modifiers, "if"@, 0);
    assert(lookup(b.modifiers, "if"@) == Some(b.modifiers[k].1));
    assert(w.len() > 0);
    assert(w[0] == word[0] || (w[0] as u32) + 32 == (word[0] as u32));
    assert(w[w.len() - 1] == word[w.len() - 1] || (w[w.len() - 1] as u32) + 32 == (word[w.len() - 1] as u32));
    assert(!is_ws(w[0]));
    assert(!is_ws(w.last()));
    assert(ws1 + w + ws2 =~= ws1 + (w + ws2));
    assert((w + ws2)[0] == w[0]);
    lemma_trim_start_blanks(ws1, w + ws2);
    lemma_trim_end_blanks(w, ws2);
    assert(trim(outputs[b.modifiers[k].1]) == w);
    assert(is_truthy(w));
}

/// A conditional block drops its content when its condition is not met:
/// when the block is not in test mode and the output of the block that its
/// first `if` modifier names is `false`, `no` or `0`, the result is empty.
pub proof fn law_condition_unmet_hides_content(b: BlockModel, outputs: Map<Seq<char>, Seq<char>>, k: int)
    requires
        forall|i: int| 0 <= i < b.modifiers.len() ==> (#[trigger] b.modifiers[i]).0 != "test_mode"@,
        0 <= k < b.modifiers.len(),
        b.modifiers[k].0 == "if"@,
        forall|j: int| 0 <= j < k ==> (#[trigger] b.modifiers[j]).0 != "if"@,
        outputs.contains_key(b.modifiers[k].1),
        outputs[b.modifiers[k].1] == "false"@ || outputs[b.modifiers[k].1] == "no"@ || outputs[b.modifiers[k].1] == "0"@,
    ensures
        conditional_result(b, outputs) == Ok::<Seq<char>, ExecutorErrorModel>(Seq::empty()),
{
    reveal_strlit("true");
    reveal_strlit("yes");
    reveal_strlit("1");
    reveal_strlit("false");
    reveal_strlit("no");
    reveal_strlit("0");
    assert(!test_mode_on(b.modifiers));
    lemma_first_key_index(b.modifiers, "if"@, 0);
    let w = outputs[b.modifiers[k].1];
    assert(!is_ws(w[0]) && !is_ws(w.last()));
    lemma_trim_start_blanks(Seq::empty(), w);
    lemma_trim_end_blanks(w, Seq::empty());
    assert(Seq::<char>::empty() + w =~= w);
    assert(w + Seq::<char>::empty() =~= w);
    assert(trim(w) == w);
    assert(!crate::parser::blocks::lower_equals(w, "1"@)) by {
        if w == "0"@ {
            assert(!crate::parser::blocks::lowers_to(w[0], '1'));
        }
    }
    assert(!is_truthy(w));
}

} // verus!
