//! The decisions of block execution: registering the blocks of a document,
//! which blocks run and after which others, and what a block's result does
//! to the state.

use vstd::prelude::*;
use std::time::Instant;
use crate::text::{
    concat_str, decimal, decimal_string, ends_with, ends_with_str, strip_all_suffix, strip_all_suffix_str, str_is,
};

use crate::parser::blocks::{Block, BlockModel, lookup, opt_str_view};
use crate::executor::cache::{CacheManager, cacheable};
use crate::text_map::TextMap;
use crate::parser::document_processor::blocks_view;
use crate::executor::error::{ExecutorError, ExecutorErrorModel, is_error_text};
use crate::executor::state::{
    ExecutorState, StateModel, strings_view, with_block_output, with_block_content, with_restored, is_response_key,
};

verus! {

/// The key under which the block at position `index` of a document is
/// registered: its name, or else its type, `_` and the position.
pub open spec fn block_key(b: BlockModel, index: nat) -> Seq<char> {
    match b.name {
        Some(n) => n,
        None => b.block_type + "_"@ + decimal(index),
    }
}

/// The state after registering `b`, the block at position `index`: it is
/// recorded under its key; a named block whose name ends with `-fallback`
/// becomes the fallback of the name without those suffixes; the content of
/// a named data block becomes its output.
pub open spec fn register_one(st: StateModel, b: BlockModel, index: nat) -> StateModel {
    let blocks = st.blocks.insert(block_key(b, index), b);
    match b.name {
        None => StateModel { blocks, ..st },
        Some(n) => {
            let fallbacks = if ends_with(n, "-fallback"@) {
                st.fallbacks.insert(strip_all_suffix(n, "-fallback"@), n)
            } else {
                st.fallbacks
            };
            let outputs = if b.block_type == "data"@ {
                st.outputs.insert(n, b.content)
            } else {
                st.outputs
            };
            StateModel { blocks, fallbacks, outputs, ..st }
        },
    }
}

/// The state after registering the blocks `bs` in order.
pub open spec fn register_all(st: StateModel, bs: Seq<BlockModel>) -> StateModel
    decreases bs.len(),
{
    if bs.len() == 0 {
        st
    } else {
        register_one(register_all(st, bs.drop_last()), bs.last(), (bs.len() - 1) as nat)
    }
}

/// The state for a new document `doc` with the blocks `bs`: cleared but for
/// the instance id, the blocks registered, and the question responses of
/// the old outputs restored where the new ones lack them.
pub open spec fn loaded_state(old: StateModel, doc: Seq<char>, bs: Seq<BlockModel>) -> StateModel {
    let cleared = StateModel {
        blocks: Map::empty(),
        outputs: Map::empty(),
        fallbacks: Map::empty(),
        current_document: doc,
        processing_blocks: seq![],
        ..old
    };
    let reg = register_all(cleared, bs);
    StateModel { outputs: with_restored(reg.outputs, old.outputs), ..reg }
}

/// The block types that a runner executes.
pub open spec fn executable_type(t: Seq<char>) -> bool {
    ||| t == "code:python"@
    ||| t == "code:javascript"@
    ||| t == "code:rust"@
    ||| t == "shell"@
    ||| t == "api"@
    ||| t == "question"@
    ||| t == "conditional"@
}

/// Whether a modifier key names a block to run first.
pub open spec fn is_dependency_key(k: Seq<char>) -> bool {
    k == "depends"@ || k == "requires"@ || k == "if"@
}

/// The blocks that must run before a block with the modifiers `mods`, in
/// order: the values of its `depends`, `requires` and `if` modifiers.
pub open spec fn dependency_names(mods: Seq<(Seq<char>, Seq<char>)>) -> Seq<Seq<char>>
    decreases mods.len(),
{
    if mods.len() == 0 {
        seq![]
    } else if is_dependency_key(mods.last().0) {
        dependency_names(mods.drop_last()).push(mods.last().1)
    } else {
        dependency_names(mods.drop_last())
    }
}

/// `s` without any occurrence of `x`.
pub open spec fn without(s: Seq<Seq<char>>, x: Seq<char>) -> Seq<Seq<char>>
    decreases s.len(),
{
    if s.len() == 0 {
        s
    } else if s.last() == x {
        without(s.drop_last(), x)
    } else {
        without(s.drop_last(), x).push(s.last())
    }
}

/// What follows the execution of a block.
pub enum BlockOutcome {
    /// The block produced this output.
    Completed(String),
    /// The block failed and its fallback, of this name, runs instead.
    Fallback(String),
    /// The block failed and has no fallback.
    Failed(ExecutorError),
}

/// Whether the block type is one that a runner executes: Python,
/// JavaScript or Rust code, shell, API, question or conditional.
pub fn is_executable_block(block: &Block) -> (r: bool)
    ensures
        r == executable_type(block@.block_type),
{
    let t = block.block_type.as_str();
    str_is(t, "code:python") || str_is(t, "code:javascript") || str_is(t, "code:rust") || str_is(t, "shell")
        || str_is(t, "api") || str_is(t, "question") || str_is(t, "conditional")
}

/// Whether the block names a block to run first, by a `depends`,
/// `requires` or `if` modifier.
pub fn has_explicit_dependency(block: &Block) -> (r: bool)
    ensures
        r == exists|i: int| 0 <= i < block@.modifiers.len() && is_dependency_key(#[trigger] block@.modifiers[i].0),
{
    let n = block.modifiers.len();
    let mut i: usize = 0;
    while i < n
        invariant
            n == block.modifiers@.len(),
            i <= n,
            forall|j: int| 0 <= j < i ==> !is_dependency_key(#[trigger] block@.modifiers[j].0),
        decreases n - i,
    {
        let k = block.modifiers[i].0.as_str();
        proof {
            assert(block@.modifiers[i as int].0 == k@);
        }
        if str_is(k, "depends") || str_is(k, "requires") || str_is(k, "if") {
            return true;
        }
        i = i + 1;
    }
    false
}

/// The blocks that must run before `block`, in order: the values of its
/// `depends`, `requires` and `if` modifiers.
pub fn dependencies(block: &Block) -> (r: Vec<String>)
    ensures
        strings_view(r@) == dependency_names(block@.modifiers),
{
    let ghost mods = block@.modifiers;
    let n = block.modifiers.len();
    let mut r: Vec<String> = Vec::new();
    let mut i: usize = 0;
    proof {
        assert(mods.take(0) =~= Seq::<(Seq<char>, Seq<char>)>::empty());
        assert(strings_view(r@) =~= Seq::<Seq<char>>::empty());
    }
    while i < n
        invariant
            n == mods.len(),
            mods == block@.modifiers,
            i <= n,
            strings_view(r@) == dependency_names(mods.take(i as int)),
        decreases n - i,
    {
        proof {
            assert(mods.take(i as int + 1).drop_last() =~= mods.take(i as int));
            assert(mods[i as int] == (block.modifiers@[i as int].0@, block.modifiers@[i as int].1@));
        }
        let k = block.modifiers[i].0.as_str();
        let ghost before = r@;
        if str_is(k, "depends") || str_is(k, "requires") || str_is(k, "if") {
            r.push(block.modifiers[i].1.clone());
            proof {
                assert(strings_view(r@) =~= strings_view(before).push(mods[i as int].1));
            }
        }
        i = i + 1;
    }
    proof {
        assert(mods.take(n as int) =~= mods);
    }
    r
}

/// The whole milliseconds from `earlier` to `now` (`now.duration_since(earlier)`,
/// which is zero when `earlier` is later). Nothing is stated of the number:
/// it is read from two instants of the machine's clock.
#[verifier::external_body]
fn millis_between(earlier: Instant, now: Instant) -> u128 {
    now.duration_since(earlier).as_millis()
}

impl ExecutorState {
    /// The cached result of the block `name` if it may be used at the time
    /// `now`: the block is cacheable (`CacheManager::is_cacheable`), its
    /// result is in the cache, and the entry is younger than its timeout
    /// (`CacheManager::get_timeout`, `CacheManager::is_fresh`). `no_cache_env`
    /// and `timeout_env` are the values of `LLM_NO_CACHE` and `LLM_TIMEOUT`.
    pub fn cached_output(
        &self,
        name: &str,
        block: &Block,
        no_cache_env: Option<&str>,
        timeout_env: Option<&str>,
        now: Instant,
    ) -> (r: Option<String>)
        ensures
            r matches Some(o) ==> cacheable(block@, opt_str_view(no_cache_env))
                && self.cache@.contains_key(name@) && self.cache@[name@].0@ == o@,
            !cacheable(block@, opt_str_view(no_cache_env)) || !self.cache@.contains_key(name@) ==> r is None,
    {
        if !CacheManager::is_cacheable(block, no_cache_env) {
            return None;
        }
        match self.cache.get(name) {
            Some(entry) => {
                let timeout = CacheManager::get_timeout(block, timeout_env);
                let age = millis_between(entry.1, now);
                if CacheManager::is_fresh(age, timeout) {
                    Some(entry.0.clone())
                } else {
                    None
                }
            },
            None => None,
        }
    }

    /// Registers the blocks of a document in order: each under its name, or
    /// its type and position; a block named `x-fallback` becomes the fallback
    /// of `x`; the content of a named data block becomes its output.
    pub fn register_blocks(&mut self, blocks: &[Block])
        ensures
            final(self)@ == register_all(old(self)@, blocks_view(blocks@)),
            final(self).cache == old(self).cache,
    {
        let ghost bs = blocks_view(blocks@);
        let n = blocks.len();
        let mut i: usize = 0;
        proof {
            assert(bs.take(0) =~= Seq::<BlockModel>::empty());
        }
        while i < n
            invariant
                n == blocks@.len(),
                bs == blocks_view(blocks@),
                i <= n,
                self@ == register_all(old(self)@, bs.take(i as int)),
                self.cache == old(self).cache,
            decreases n - i,
        {
            proof {
                assert(bs.take(i as int + 1).drop_last() =~= bs.take(i as int));
                assert(bs[i as int] == blocks@[i as int]@);
            }
            let ghost before = self@;
            let block = &blocks[i];
            let key = match &block.name {
                Some(nm) => nm.clone(),
                None => {
                    let prefix = concat_str(block.block_type.as_str(), "_");
                    let idx = decimal_string(i as u128);
                    concat_str(prefix.as_str(), idx.as_str())
                },
            };
            self.blocks.insert(key, block.copy());
            match &block.name {
                Some(nm) => {
                    if ends_with_str(nm.as_str(), "-fallback") {
                        let original = strip_all_suffix_str(nm.as_str(), "-fallback");
                        self.fallbacks.insert(original, nm.clone());
                    }
                    if str_is(block.block_type.as_str(), "data") {
                        self.outputs.insert(nm.clone(), block.content.clone());
                    }
                },
                None => {},
            }
            proof {
                let target = register_one(before, bs[i as int], i as nat);
                assert(self@.blocks =~= target.blocks);
                assert(self@.outputs =~= target.outputs);
                assert(self@.fallbacks =~= target.fallbacks);
                assert(self@ == target);
            }
            i = i + 1;
        }
        proof {
            assert(bs.take(n as int) =~= bs);
        }
    }

    /// Makes `content`, with the blocks `blocks`, the current document: the
    /// state is cleared (the cache and instance id stay), the blocks are
    /// registered, and the question responses of the earlier outputs are
    /// restored where the new outputs lack them.
    pub fn load_document(&mut self, content: &str, blocks: &[Block])
        ensures
            final(self)@ == loaded_state(old(self)@, content@, blocks_view(blocks@)),
            final(self).cache == old(self).cache,
    {
        let previous = self.outputs.copy();
        self.reset(content);
        self.register_blocks(blocks);
        self.restore_responses(previous);
    }

    /// Whether the block `name` is being processed.
    pub fn is_processing(&self, name: &str) -> (r: bool)
        ensures
            r == self@.processing_blocks.contains(name@),
    {
        let n = self.processing_blocks.len();
        let mut i: usize = 0;
        while i < n
            invariant
                n == self.processing_blocks@.len(),
                i <= n,
                forall|j: int| 0 <= j < i ==> self@.processing_blocks[j] != name@,
            decreases n - i,
        {
            proof {
                assert(self@.processing_blocks[i as int] == self.processing_blocks@[i as int]@);
            }
            if str_is(self.processing_blocks[i].as_str(), name) {
                return true;
            }
            i = i + 1;
        }
        false
    }

    /// The block `name`, about to run: an error when it is being processed
    /// already (a circular dependency) or does not exist.
    pub fn begin_block(&self, name: &str) -> (r: Result<Block, ExecutorError>)
        ensures
            self@.processing_blocks.contains(name@) ==> (r matches Err(e) && e@ == ExecutorErrorModel::CircularDependency(name@)),
            !self@.processing_blocks.contains(name@) && !self@.blocks.contains_key(name@)
                ==> (r matches Err(e) && e@ == ExecutorErrorModel::BlockNotFound(name@)),
            !self@.processing_blocks.contains(name@) && self@.blocks.contains_key(name@)
                ==> (r matches Ok(b) && b@ == self@.blocks[name@]),
    {
        if self.is_processing(name) {
            return Err(ExecutorError::CircularDependency(name.to_owned()));
        }
        match self.blocks.get(name) {
            Some(b) => Ok(b.copy()),
            None => Err(ExecutorError::BlockNotFound(name.to_owned())),
        }
    }

    /// Records that the block `name` is being processed.
    pub fn mark_processing(&mut self, name: &str)
        ensures
            final(self)@ == (StateModel { processing_blocks: old(self)@.processing_blocks.push(name@), ..old(self)@ }),
            final(self).cache == old(self).cache,
    {
        self.processing_blocks.push(name.to_owned());
        proof {
            assert(self@.processing_blocks =~= old(self)@.processing_blocks.push(name@));
        }
    }

    /// The content to run for the block `name`: that of the block as it is
    /// now recorded, else that of `block`.
    pub fn current_content(&self, name: &str, block: &Block) -> (r: String)
        ensures
            r@ == (if self@.blocks.contains_key(name@) { self@.blocks[name@].content } else { block@.content }),
    {
        match self.blocks.get(name) {
            Some(b) => b.content.clone(),
            None => block.content.clone(),
        }
    }

    /// Gives the block `name`, if it is recorded, the content `content`.
    pub fn set_block_content(&mut self, name: &str, content: String)
        ensures
            final(self)@ == (StateModel { blocks: with_block_content(old(self)@.blocks, name@, content@), ..old(self)@ }),
            final(self).cache == old(self).cache,
    {
        let ghost before = self.blocks@;
        match self.blocks.get(name) {
            Some(b) => {
                let mut nb = b.copy();
                nb.content = content;
                proof {
                    assert(nb@ == BlockModel { content: content@, ..before[name@]@ });
                }
                self.blocks.insert(name.to_owned(), nb);
            },
            None => {},
        }
        proof {
            assert(self@.blocks =~= with_block_content(old(self)@.blocks, name@, content@));
        }
    }

    /// Removes every record that the block `name` is being processed.
    fn unmark_processing(&mut self, name: &str)
        ensures
            final(self)@ == (StateModel {
                processing_blocks: without(old(self)@.processing_blocks, name@),
                ..old(self)@
            }),
            final(self).cache == old(self).cache,
    {
        let ghost ps = old(self)@.processing_blocks;
        let n = self.processing_blocks.len();
        let mut kept: Vec<String> = Vec::new();
        let mut i: usize = 0;
        proof {
            assert(ps.take(0) =~= Seq::<Seq<char>>::empty());
            assert(strings_view(kept@) =~= Seq::<Seq<char>>::empty());
        }
        while i < n
            invariant
                n == self.processing_blocks@.len(),
                ps == strings_view(self.processing_blocks@),
                self@ == old(self)@,
                self.cache == old(self).cache,
                i <= n,
                strings_view(kept@) == without(ps.take(i as int), name@),
            decreases n - i,
        {
            proof {
                assert(ps.take(i as int + 1).drop_last() =~= ps.take(i as int));
                assert(ps[i as int] == self.processing_blocks@[i as int]@);
            }
            let ghost before = kept@;
            if !str_is(self.processing_blocks[i].as_str(), name) {
                kept.push(self.processing_blocks[i].clone());
                proof {
                    assert(strings_view(kept@) =~= strings_view(before).push(ps[i as int]));
                }
            }
            i = i + 1;
        }
        proof {
            assert(ps.take(n as int) =~= ps);
        }
        self.processing_blocks = kept;
    }

    /// Records the result of running the block `name`: it is no longer being
    /// processed; an output is stored as `store_block_output` does and, for
    /// a cacheable block, also in the cache with the time `now`; an error is
    /// stored under `name_error`, and the block's fallback, if it has one,
    /// is to run instead.
    pub fn finish_block(&mut self, name: &str, result: Result<String, ExecutorError>, cacheable: bool, now: Instant) -> (r: BlockOutcome)
        ensures
            (result is Ok && cacheable) ==> final(self).cache@.contains_key(name@)
                && final(self).cache@[name@].0@ == result->Ok_0@
                && final(self).cache@[name@].1 == now
                && final(self).cache@.remove(name@) == old(self).cache@.remove(name@),
            !(result is Ok && cacheable) ==> final(self).cache == old(self).cache,
            ({
                let st = StateModel {
                    processing_blocks: without(old(self)@.processing_blocks, name@),
                    ..old(self)@
                };
                match result {
                    Ok(o) => {
                        &&& final(self)@ == (StateModel {
                            outputs: with_block_output(st.outputs, name@, o@),
                            blocks: with_block_content(st.blocks, name@, o@),
                            ..st
                        })
                        &&& r matches BlockOutcome::Completed(out) && out@ == o@
                    },
                    Err(e) => {
                        &&& exists|t: Seq<char>| is_error_text(e@, t)
                            && final(self)@ == (StateModel { outputs: st.outputs.insert(name@ + "_error"@, t), ..st })
                        &&& st.fallbacks.contains_key(name@) ==> (r matches BlockOutcome::Fallback(f) && f@ == st.fallbacks[name@])
                        &&& !st.fallbacks.contains_key(name@) ==> (r matches BlockOutcome::Failed(e2) && e2@ == e@)
                    },
                }
            }),
    {
        self.unmark_processing(name);
        match result {
            Ok(output) => {
                let kept = output.clone();
                if cacheable {
                    let ghost before = self.cache@;
                    self.cache.insert(name.to_owned(), (output.clone(), now));
                    proof {
                        assert(self.cache@.remove(name@) =~= before.remove(name@));
                    }
                }
                self.store_block_output(name, output);
                BlockOutcome::Completed(kept)
            },
            Err(e) => {
                let text = e.to_string();
                self.store_error(name, text.as_str());
                match self.fallbacks.get(name) {
                    Some(f) => BlockOutcome::Fallback(f.clone()),
                    None => BlockOutcome::Failed(e),
                }
            },
        }
    }
}

/// A block names blocks to run first exactly when it has a `depends`,
/// `requires` or `if` modifier.
pub proof fn law_dependencies_iff_explicit(mods: Seq<(Seq<char>, Seq<char>)>)
    ensures
        (exists|i: int| 0 <= i < mods.len() && is_dependency_key(#[trigger] mods[i].0)) <==> dependency_names(mods).len() > 0,
    decreases mods.len(),
{
    if mods.len() > 0 {
        let init = mods.drop_last();
        law_dependencies_iff_explicit(init);
        if exists|i: int| 0 <= i < mods.len() && is_dependency_key(#[trigger] mods[i].0) {
            let i = choose|i: int| 0 <= i < mods.len() && is_dependency_key(#[trigger] mods[i].0);
            if i < mods.len() - 1 {
                assert(init[i] == mods[i]);
            }
        }
        if exists|i: int| 0 <= i < init.len() && is_dependency_key(#[trigger] init[i].0) {
            let i = choose|i: int| 0 <= i < init.len() && is_dependency_key(#[trigger] init[i].0);
            assert(mods[i] == init[i]);
        }
        if is_dependency_key(mods.last().0) {
            assert(is_dependency_key(mods[mods.len() - 1].0));
        }
    }
}

/// After registering blocks, each can be found under its key.
pub proof fn law_registered_blocks_found(st: StateModel, bs: Seq<BlockModel>, i: int)
    requires
        0 <= i < bs.len(),
    ensures
        register_all(st, bs).blocks.contains_key(block_key(bs[i], i as nat)),
    decreases bs.len(),
{
    if i < bs.len() - 1 {
        law_registered_blocks_found(st, bs.drop_last(), i);
        assert(bs.drop_last()[i] == bs[i]);
    }
}

/// Loading a new document keeps the earlier question responses: a response
/// in the old outputs is still there, with its old value unless the new
/// document's blocks set it.
pub proof fn law_load_keeps_responses(old: StateModel, doc: Seq<char>, bs: Seq<BlockModel>, k: Seq<char>)
    requires
        is_response_key(k),
        old.outputs.contains_key(k),
    ensures
        loaded_state(old, doc, bs).outputs.contains_key(k),
        !register_all(
            StateModel {
                blocks: Map::empty(),
                outputs: Map::empty(),
                fallbacks: Map::empty(),
                current_document: doc,
                processing_blocks: seq![],
                ..old
            },
            bs,
        ).outputs.contains_key(k) ==> loaded_state(old, doc, bs).outputs[k] == old.outputs[k],
{
}

/// The names of the entries among the first `i` whose block is of type `t`,
/// in order.
pub open spec fn typed_names(ps: Seq<(String, Block)>, t: Seq<char>, i: int) -> Seq<Seq<char>>
    decreases i,
{
    if i <= 0 {
        seq![]
    } else {
        let rest = typed_names(ps, t, i - 1);
        if ps[i - 1].1.block_type@ == t {
            rest.push(ps[i - 1].0@)
        } else {
            rest
        }
    }
}

/// The names of the blocks of type `block_type`, in the order in which the
/// blocks were registered.
pub fn names_of_type(blocks: &TextMap<Block>, block_type: &str) -> (r: Vec<String>)
    ensures
        strings_view(r@) == typed_names(blocks.pairs(), block_type@, blocks.pairs().len() as int),
{
    let n = blocks.len();
    let mut r: Vec<String> = Vec::new();
    let mut i: usize = 0;
    while i < n
        invariant
            n == blocks.pairs().len(),
            i <= n,
            strings_view(r@) == typed_names(blocks.pairs(), block_type@, i as int),
        decreases n - i,
    {
        let (name, block) = blocks.entry(i);
        if str_is(block.block_type.as_str(), block_type) {
            let ghost before = r@;
            r.push(name.clone());
            proof {
                assert(strings_view(r@) =~= strings_view(before).push(name@));
            }
        }
        i = i + 1;
    }
    r
}

/// The names of the first `i` nested blocks that have one, in order.
pub open spec fn child_names(children: Seq<BlockModel>, i: int) -> Seq<Seq<char>>
    decreases i,
{
    if i <= 0 {
        seq![]
    } else {
        let rest = child_names(children, i - 1);
        match children[i - 1].name {
            Some(n) => rest.push(n),
            None => rest,
        }
    }
}

/// What runs for a conditional block: the block named by its `if`
/// modifier, then, where that succeeds, its named nested blocks in order.
pub struct ConditionalPlan {
    pub conditional: String,
    pub condition: String,
    pub children: Vec<String>,
}

/// The plans of the first `i` entries: one for each conditional block with
/// an `if` modifier, in order, as (its name, the condition, the names of its
/// nested blocks).
pub open spec fn conditional_plans_spec(ps: Seq<(String, Block)>, i: int) -> Seq<(Seq<char>, Seq<char>, Seq<Seq<char>>)>
    decreases i,
{
    if i <= 0 {
        seq![]
    } else {
        let rest = conditional_plans_spec(ps, i - 1);
        let b = ps[i - 1].1@;
        if b.block_type == "conditional"@ {
            match lookup(b.modifiers, "if"@) {
                Some(c) => rest.push((ps[i - 1].0@, c, child_names(b.children, b.children.len() as int))),
                None => rest,
            }
        } else {
            rest
        }
    }
}

/// The value of a plan.
pub open spec fn plan_view(p: ConditionalPlan) -> (Seq<char>, Seq<char>, Seq<Seq<char>>) {
    (p.conditional@, p.condition@, strings_view(p.children@))
}

/// The names of a block's nested blocks that have one, in order.
fn nested_names(block: &Block) -> (r: Vec<String>)
    ensures
        strings_view(r@) == child_names(block@.children, block@.children.len() as int),
{
    let n = block.children.len();
    let mut r: Vec<String> = Vec::new();
    let mut i: usize = 0;
    while i < n
        invariant
            n == block.children@.len(),
            n == block@.children.len(),
            i <= n,
            strings_view(r@) == child_names(block@.children, i as int),
        decreases n - i,
    {
        proof {
            assert(block@.children[i as int] == block.children@[i as int]@);
        }
        match &block.children[i].name {
            Some(name) => {
                let ghost before = r@;
                r.push(name.clone());
                proof {
                    assert(strings_view(r@) =~= strings_view(before).push(name@));
                }
            },
            None => {},
        }
        i = i + 1;
    }
    r
}

/// The plans of the conditional blocks, in the order in which the blocks
/// were registered.
pub fn conditional_plans(blocks: &TextMap<Block>) -> (r: Vec<ConditionalPlan>)
    ensures
        r@.map_values(|p: ConditionalPlan| plan_view(p)) == conditional_plans_spec(blocks.pairs(), blocks.pairs().len() as int),
{
    let n = blocks.len();
    let mut r: Vec<ConditionalPlan> = Vec::new();
    let mut i: usize = 0;
    while i < n
        invariant
            n == blocks.pairs().len(),
            i <= n,
            r@.map_values(|p: ConditionalPlan| plan_view(p)) == conditional_plans_spec(blocks.pairs(), i as int),
        decreases n - i,
    {
        let (name, block) = blocks.entry(i);
        if str_is(block.block_type.as_str(), "conditional") {
            match block.get_modifier("if") {
                Some(condition) => {
                    let ghost before = r@;
                    let plan = ConditionalPlan {
                        conditional: name.clone(),
                        condition: condition.clone(),
                        children: nested_names(block),
                    };
                    r.push(plan);
                    proof {
                        assert(r@.map_values(|p: ConditionalPlan| plan_view(p))
                            =~= before.map_values(|p: ConditionalPlan| plan_view(p)).push(plan_view(plan)));
                    }
                },
                None => {},
            }
        }
        i = i + 1;
    }
    r
}

} // verus!
