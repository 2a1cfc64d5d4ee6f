//! The state that execution keeps: blocks by name, outputs, fallbacks, the
//! current document, the blocks being processed, and cached results.

use vstd::prelude::*;
use std::time::Instant;
use crate::text::{concat_str, decimal_string, decimal, ends_with, ends_with_str, str_is};
use crate::text_map::{TextMap, text_view, entries_map, has_entry, block_map_view};
use crate::parser::blocks::{Block, BlockModel};

verus! {

#[verifier::external_type_specification]
#[verifier::external_body]
pub struct ExInstant(Instant);

/// Milliseconds since the Unix epoch by the system clock, or 0 for a clock
/// set before the epoch (`SystemTime::now().duration_since(UNIX_EPOCH)`
/// with `unwrap_or_default`, then `as_millis`). Nothing is stated of the
/// value, which is the time.
#[verifier::external_body]
fn millis_since_epoch() -> u128 {
    std::time::SystemTime::now().duration_since(std::time::UNIX_EPOCH).unwrap_or_default().as_millis()
}

/// The state of an executor.
pub struct ExecutorState {
    pub blocks: TextMap<Block>,
    pub outputs: TextMap<String>,
    pub fallbacks: TextMap<String>,
    pub current_document: String,
    pub processing_blocks: Vec<String>,
    pub instance_id: String,
    pub cache: TextMap<(String, Instant)>,
}

/// The mathematical value of an executor state, its cache aside.
pub struct StateModel {
    pub blocks: Map<Seq<char>, BlockModel>,
    pub outputs: Map<Seq<char>, Seq<char>>,
    pub fallbacks: Map<Seq<char>, Seq<char>>,
    pub current_document: Seq<char>,
    pub processing_blocks: Seq<Seq<char>>,
    pub instance_id: Seq<char>,
}

/// The views of a list of strings.
pub open spec fn strings_view(v: Seq<String>) -> Seq<Seq<char>> {
    v.map_values(|s: String| s@)
}

impl View for ExecutorState {
    type V = StateModel;

    open spec fn view(&self) -> StateModel {
        StateModel {
            blocks: block_map_view(self.blocks@),
            outputs: text_view(self.outputs@),
            fallbacks: text_view(self.fallbacks@),
            current_document: self.current_document@,
            processing_blocks: strings_view(self.processing_blocks@),
            instance_id: self.instance_id@,
        }
    }
}

/// The outputs after storing `o` for the block `name`: under its name, and
/// under `name.results` and `name_results`.
pub open spec fn with_block_output(m: Map<Seq<char>, Seq<char>>, name: Seq<char>, o: Seq<char>) -> Map<Seq<char>, Seq<char>> {
    m.insert(name, o).insert(name + ".results"@, o).insert(name + "_results"@, o)
}

/// The blocks after the block `name`, if there is one, gets the content `o`.
pub open spec fn with_block_content(m: Map<Seq<char>, BlockModel>, name: Seq<char>, o: Seq<char>) -> Map<Seq<char>, BlockModel> {
    if m.contains_key(name) {
        m.insert(name, BlockModel { content: o, ..m[name] })
    } else {
        m
    }
}

/// Whether an output key holds the response to a question: it ends with
/// `_response` or is `question_response`.
pub open spec fn is_response_key(k: Seq<char>) -> bool {
    ends_with(k, "_response"@) || k == "question_response"@
}

/// The outputs `cur` with the responses of `prev` that `cur` lacks.
pub open spec fn with_restored(cur: Map<Seq<char>, Seq<char>>, prev: Map<Seq<char>, Seq<char>>) -> Map<Seq<char>, Seq<char>> {
    Map::new(
        |k: Seq<char>| cur.contains_key(k) || (prev.contains_key(k) && is_response_key(k)),
        |k: Seq<char>| if cur.contains_key(k) { cur[k] } else { prev[k] },
    )
}

impl ExecutorState {
    /// A fresh state: no blocks, outputs or fallbacks, an empty document,
    /// nothing in process, an empty cache, and an instance id `executor_`
    /// followed by the milliseconds since the Unix epoch.
    pub fn new() -> (r: Self)
        ensures
            r@.blocks == Map::<Seq<char>, BlockModel>::empty(),
            r@.outputs == Map::<Seq<char>, Seq<char>>::empty(),
            r@.fallbacks == Map::<Seq<char>, Seq<char>>::empty(),
            r@.current_document == Seq::<char>::empty(),
            r@.processing_blocks == Seq::<Seq<char>>::empty(),
            exists|ms: nat| r@.instance_id == "executor_"@ + #[trigger] decimal(ms),
            r.cache@ == Map::<Seq<char>, (String, Instant)>::empty(),
    {
        let ms = millis_since_epoch();
        let digits = decimal_string(ms);
        let instance_id = concat_str("executor_", digits.as_str());
        let r = ExecutorState {
            blocks: TextMap::new(),
            outputs: TextMap::new(),
            fallbacks: TextMap::new(),
            current_document: String::new(),
            processing_blocks: Vec::new(),
            instance_id,
            cache: TextMap::new(),
        };
        proof {
            assert(r@.blocks =~= Map::<Seq<char>, BlockModel>::empty());
            assert(r@.outputs =~= Map::<Seq<char>, Seq<char>>::empty());
            assert(r@.fallbacks =~= Map::<Seq<char>, Seq<char>>::empty());
            assert(r@.processing_blocks =~= Seq::<Seq<char>>::empty());
            assert(r@.instance_id == "executor_"@ + decimal(ms as nat));
        }
        r
    }

    /// Stores the output of the block `name` under its name, `name.results`
    /// and `name_results`, and makes it the content of the block `name`.
    pub fn store_block_output(&mut self, name: &str, output: String)
        ensures
            final(self)@ == (StateModel {
                outputs: with_block_output(old(self)@.outputs, name@, output@),
                blocks: with_block_content(old(self)@.blocks, name@, output@),
                ..old(self)@
            }),
            final(self).cache == old(self).cache,
    {
        self.outputs.insert(name.to_owned(), output.clone());
        self.outputs.insert(concat_str(name, ".results"), output.clone());
        self.outputs.insert(concat_str(name, "_results"), output.clone());
        let ghost mid_blocks = self.blocks@;
        match self.blocks.get(name) {
            Some(b) => {
                let mut nb = b.copy();
                nb.content = output;
                proof {
                    assert(nb@ == BlockModel { content: output@, ..mid_blocks[name@]@ });
                }
                self.blocks.insert(name.to_owned(), nb);
            },
            None => {},
        }
        proof {
            assert(self@.outputs =~= with_block_output(old(self)@.outputs, name@, output@));
            assert(self@.blocks =~= with_block_content(old(self)@.blocks, name@, output@));
        }
    }

    /// Stores an error of the block `name` under `name_error`.
    pub fn store_error(&mut self, name: &str, error: &str)
        ensures
            final(self)@ == (StateModel {
                outputs: old(self)@.outputs.insert(name@ + "_error"@, error@),
                ..old(self)@
            }),
            final(self).cache == old(self).cache,
    {
        self.outputs.insert(concat_str(name, "_error"), error.to_owned());
        proof {
            assert(self@.outputs =~= old(self)@.outputs.insert(name@ + "_error"@, error@));
        }
    }

    /// Clears blocks, outputs, fallbacks and the blocks in process, and makes
    /// `new_document` the current document. The cache and the instance id
    /// stay.
    pub fn reset(&mut self, new_document: &str)
        ensures
            final(self)@ == (StateModel {
                blocks: Map::empty(),
                outputs: Map::empty(),
                fallbacks: Map::empty(),
                current_document: new_document@,
                processing_blocks: Seq::empty(),
                ..old(self)@
            }),
            final(self).cache == old(self).cache,
    {
        self.blocks.clear();
        self.outputs.clear();
        self.fallbacks.clear();
        self.current_document = new_document.to_owned();
        self.processing_blocks = Vec::new();
        proof {
            assert(self@.blocks =~= Map::<Seq<char>, BlockModel>::empty());
            assert(self@.outputs =~= Map::<Seq<char>, Seq<char>>::empty());
            assert(self@.fallbacks =~= Map::<Seq<char>, Seq<char>>::empty());
            assert(self@.processing_blocks =~= Seq::<Seq<char>>::empty());
        }
    }

    /// Adds the responses of `previous_outputs` (the outputs under a key that
    /// ends with `_response`, and `question_response`) that the outputs lack.
    pub fn restore_responses(&mut self, previous_outputs: TextMap<String>)
        ensures
            final(self)@ == (StateModel {
                outputs: with_restored(old(self)@.outputs, text_view(previous_outputs@)),
                ..old(self)@
            }),
            final(self).cache == old(self).cache,
    {
        let ghost cur = old(self)@.outputs;
        let ghost prev = text_view(previous_outputs@);
        let ghost ps = previous_outputs.pairs();
        let n = previous_outputs.len();
        let mut i: usize = 0;
        while i < n
            invariant
                n == ps.len(),
                i <= n,
                ps == previous_outputs.pairs(),
                prev == text_view(previous_outputs@),
                previous_outputs@ == entries_map(ps),
                self@ == (StateModel { outputs: self@.outputs, ..old(self)@ }),
                self.cache == old(self).cache,
                self@.outputs == Map::new(
                    |k: Seq<char>| cur.contains_key(k) || (is_response_key(k) && exists|j: int| 0 <= j < i && (#[trigger] ps[j]).0@ == k),
                    |k: Seq<char>| if cur.contains_key(k) { cur[k] } else { prev[k] },
                ),
            decreases n - i,
        {
            let (key, value) = previous_outputs.entry(i);
            let is_response = ends_with_str(key.as_str(), "_response") || str_is(key.as_str(), "question_response");
            let ghost before = self@.outputs;
            if is_response && !self.outputs.contains_key(key.as_str()) {
                self.outputs.insert(key.clone(), value.clone());
            }
            proof {
                assert(ps[i as int].0 == *key);
                let target = Map::new(
                    |k: Seq<char>| cur.contains_key(k) || (is_response_key(k) && exists|j: int| 0 <= j < i + 1 && (#[trigger] ps[j]).0@ == k),
                    |k: Seq<char>| if cur.contains_key(k) { cur[k] } else { prev[k] },
                );
                assert forall|k: Seq<char>| #[trigger] self@.outputs.contains_key(k) == target.contains_key(k) by {
                    if is_response_key(k) && exists|j: int| 0 <= j < i + 1 && (#[trigger] ps[j]).0@ == k {
                        let j = choose|j: int| 0 <= j < i + 1 && (#[trigger] ps[j]).0@ == k;
                        if j < i {
                            assert(before.contains_key(k));
                        }
                    }
                    if before.contains_key(k) && !cur.contains_key(k) {
                        let j = choose|j: int| 0 <= j < i && (#[trigger] ps[j]).0@ == k;
                        assert(0 <= j < i + 1 && ps[j].0@ == k);
                    }
                }
                assert(previous_outputs@.contains_key(key@) && previous_outputs@[key@] == *value);
                assert(prev[key@] == value@);
                assert forall|k: Seq<char>| #[trigger] self@.outputs.contains_key(k) implies self@.outputs[k] == target[k] by {
                    if before.contains_key(k) {
                        assert(self@.outputs[k] == before[k]);
                        assert(target.contains_key(k));
                    } else {
                        assert(k == key@);
                        assert(!cur.contains_key(k));
                        assert(self@.outputs[k] == value@);
                    }
                }
                assert(self@.outputs =~= target);
                assert(self@ == (StateModel { outputs: self@.outputs, ..old(self)@ }));
            }
            i = i + 1;
        }
        proof {
            assert forall|k: Seq<char>| #[trigger] prev.contains_key(k) == (exists|j: int| 0 <= j < n && (#[trigger] ps[j]).0@ == k) by {
                if prev.contains_key(k) {
                    assert(has_entry(ps, k));
                }
            }
            assert(self@.outputs =~= with_restored(cur, prev));
        }
    }

    /// Whether a fallback is recorded for the block `name`.
    pub fn has_fallback(&self, name: &str) -> (r: bool)
        ensures
            r == self@.fallbacks.contains_key(name@),
    {
        self.fallbacks.contains_key(name)
    }
}

/// An output stored for a block can be read back under the block's name,
/// under `name.results` and under `name_results`.
pub proof fn law_block_output_readable(m: Map<Seq<char>, Seq<char>>, name: Seq<char>, o: Seq<char>)
    ensures
        with_block_output(m, name, o).contains_key(name),
        with_block_output(m, name, o)[name] == o,
        with_block_output(m, name, o)[name + ".results"@] == o,
        with_block_output(m, name, o)[name + "_results"@] == o,
{
    reveal_strlit(".results");
    reveal_strlit("_results");
    assert((name + ".results"@).len() != name.len());
    assert((name + "_results"@).len() != name.len());
    assert((name + ".results"@)[name.len() as int] != (name + "_results"@)[name.len() as int]);
}

/// Restoring responses never overwrites an output, and brings back every
/// earlier response that the outputs lack.
pub proof fn law_restore_keeps_outputs(cur: Map<Seq<char>, Seq<char>>, prev: Map<Seq<char>, Seq<char>>, k: Seq<char>)
    ensures
        cur.contains_key(k) ==> with_restored(cur, prev).contains_key(k) && with_restored(cur, prev)[k] == cur[k],
        !cur.contains_key(k) && prev.contains_key(k) && is_response_key(k)
            ==> with_restored(cur, prev).contains_key(k) && with_restored(cur, prev)[k] == prev[k],
        !cur.contains_key(k) && !(prev.contains_key(k) && is_response_key(k)) ==> !with_restored(cur, prev).contains_key(k),
{
}

} // verus!
