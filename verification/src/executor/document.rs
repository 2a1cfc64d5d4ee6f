//! Writing execution results back into the document.

use vstd::prelude::*;
use crate::text::{
    char_index, char_index_vec, ends_with, ends_with_str, starts_with, starts_with_str, find_in, find_str_in,
    find_in_vec, chars_of, string_of, vec_range, chars_eq, str_is, replace_all, replace_all_vec,
    lemma_char_index_bounds, lemma_find_in,
};
use crate::text_map::{entry_views, block_map_view};
use crate::parser::blocks::{BlockModel, opt_str_view};
use crate::parser::block_parsers::typed::{append_str, append_vec};
use crate::executor::cache::{CacheManager, cacheable};
use crate::executor::error::ExecutorError;
use crate::executor::state::ExecutorState;

verus! {

/// Writes the outputs of an executor state back into its document.
pub struct DocumentUpdater<'a> {
    state: &'a ExecutorState,
    no_cache_env: Option<String>,
}

/// A tag and what replaces it.
pub struct BlockReplacement {
    pub original: String,
    pub replacement: String,
}

/// The tag `orig` with its content, between its first `>` and the first
/// `</meta:` after it, replaced by `new_content`, wrapped in a CDATA section
/// for a CDATA block.
pub open spec fn replacement_of(orig: Seq<char>, new_content: Seq<char>, cdata: bool) -> Option<Seq<char>> {
    match char_index(orig, '>', 0) {
        Some(gt) => match find_in(orig, "</meta:"@, gt + 1, orig.len() as int) {
            Some(ce) => {
                let formatted = if cdata {
                    "<![CDATA[\n"@ + new_content + "\n  ]]>"@
                } else {
                    new_content
                };
                Some(orig.take(gt + 1) + formatted + orig.skip(ce))
            },
            None => None,
        },
        None => None,
    }
}

/// The first element of type `t` in `doc`: from the first `<meta:t` to the
/// first `</meta:t>` after it.
pub open spec fn tag_of(doc: Seq<char>, t: Seq<char>) -> Option<Seq<char>> {
    let open = "<meta:"@ + t;
    let close = "</meta:"@ + t + ">"@;
    match find_in(doc, open, 0, doc.len() as int) {
        Some(a) => match find_in(doc, close, a, doc.len() as int) {
            Some(b) => Some(doc.subrange(a, b + close.len())),
            None => None,
        },
        None => None,
    }
}

/// Whether a block's content is written as CDATA: code, shell and API blocks.
pub open spec fn is_cdata_type(t: Seq<char>) -> bool {
    starts_with(t, "code"@) || t == "shell"@ || t == "api"@
}

/// The replacement that the output `o` stored under `name` asks for: none
/// for errors and results; for a cached block whose content differs from
/// `o`, its first tag in `doc` with the content replaced by `o`.
pub open spec fn output_replacement(
    doc: Seq<char>,
    blocks: Map<Seq<char>, BlockModel>,
    env: Option<Seq<char>>,
    name: Seq<char>,
    o: Seq<char>,
) -> Option<(Seq<char>, Seq<char>)> {
    if ends_with(name, "_error"@) || ends_with(name, ".results"@) || ends_with(name, "_results"@)
        || !blocks.contains_key(name) {
        None
    } else {
        let b = blocks[name];
        if cacheable(b, env) && b.content != o {
            match tag_of(doc, b.block_type) {
                Some(full) => match replacement_of(full, o, is_cdata_type(b.block_type)) {
                    Some(r) => Some((full, r)),
                    None => None,
                },
                None => None,
            }
        } else {
            None
        }
    }
}

/// Whether some replacement is for the tag `f`.
pub open spec fn has_tag(reps: Seq<(Seq<char>, Seq<char>)>, f: Seq<char>) -> bool {
    exists|j: int| 0 <= j < reps.len() && (#[trigger] reps[j]).0 == f
}

/// The replacements that the outputs `outs` ask for, in order; of two for
/// one tag the first is kept.
pub open spec fn collect_replacements(
    doc: Seq<char>,
    blocks: Map<Seq<char>, BlockModel>,
    env: Option<Seq<char>>,
    outs: Seq<(Seq<char>, Seq<char>)>,
) -> Seq<(Seq<char>, Seq<char>)>
    decreases outs.len(),
{
    if outs.len() == 0 {
        seq![]
    } else {
        let acc = collect_replacements(doc, blocks, env, outs.drop_last());
        match output_replacement(doc, blocks, env, outs.last().0, outs.last().1) {
            Some(fr) => if has_tag(acc, fr.0) {
                acc
            } else {
                acc.push(fr)
            },
            None => acc,
        }
    }
}

/// `doc` with each replacement applied in turn to every occurrence of its tag.
pub open spec fn apply_replacements(doc: Seq<char>, reps: Seq<(Seq<char>, Seq<char>)>) -> Seq<char>
    decreases reps.len(),
{
    if reps.len() == 0 {
        doc
    } else {
        replace_all(apply_replacements(doc, reps.drop_last()), reps.last().0, reps.last().1)
    }
}

/// The document `doc` updated with the outputs `outs`.
pub open spec fn updated_document(
    doc: Seq<char>,
    blocks: Map<Seq<char>, BlockModel>,
    env: Option<Seq<char>>,
    outs: Seq<(Seq<char>, Seq<char>)>,
) -> Seq<char> {
    apply_replacements(doc, collect_replacements(doc, blocks, env, outs))
}

impl<'a> DocumentUpdater<'a> {
    /// An updater for the document of `state`; `no_cache_env` is the value of
    /// the environment variable `LLM_NO_CACHE`, if it is set.
    pub fn new(state: &'a ExecutorState, no_cache_env: Option<&str>) -> (r: Self)
        ensures
            r.state() == state,
            opt_str_view(no_cache_env) == r.no_cache_env(),
    {
        let no_cache_env = match no_cache_env {
            Some(v) => Some(v.to_owned()),
            None => None,
        };
        DocumentUpdater { state, no_cache_env }
    }

    /// The state whose document is updated.
    pub closed spec fn state(&self) -> &'a ExecutorState {
        self.state
    }

    /// The value of `LLM_NO_CACHE` that decides which blocks are cached.
    pub closed spec fn no_cache_env(&self) -> Option<Seq<char>> {
        match self.no_cache_env {
            Some(v) => Some(v@),
            None => None,
        }
    }

    /// The tag `original` with its content, between its first `>` and the
    /// first `</meta:` after it, replaced by `new_content`; in a CDATA
    /// section for a CDATA block. `None` where the tag has no such content.
    pub fn create_replacement(&self, original: &str, new_content: &str, is_cdata_block: bool) -> (r: Option<String>)
        ensures
            match r {
                Some(s) => replacement_of(original@, new_content@, is_cdata_block) == Some(s@),
                None => replacement_of(original@, new_content@, is_cdata_block) is None,
            },
    {
        let v = chars_of(original);
        let n = v.len();
        match char_index_vec(&v, '>', 0) {
            Some(gt) => {
                proof {
                    lemma_char_index_bounds(v@, '>', 0);
                }
                let cs = gt + 1;
                match find_str_in(&v, "</meta:", cs, n) {
                    Some(ce) => {
                        proof {
                            lemma_find_in(v@, "</meta:"@, cs as int, n as int);
                        }
                        let mut out = vec_range(&v, 0, cs);
                        if is_cdata_block {
                            append_str(&mut out, "<![CDATA[\n");
                            append_str(&mut out, new_content);
                            append_str(&mut out, "\n  ]]>");
                        } else {
                            append_str(&mut out, new_content);
                        }
                        let tail = vec_range(&v, ce, n);
                        append_vec(&mut out, &tail);
                        proof {
                            assert(v@.subrange(0, cs as int) =~= v@.take(cs as int));
                            assert(v@.subrange(ce as int, n as int) =~= v@.skip(ce as int));
                            let formatted = if is_cdata_block {
                                "<![CDATA[\n"@ + new_content@ + "\n  ]]>"@
                            } else {
                                new_content@
                            };
                            assert(out@ =~= v@.take(cs as int) + formatted + v@.skip(ce as int));
                        }
                        Some(string_of(&out))
                    },
                    None => None,
                }
            },
            None => None,
        }
    }

    /// The first element of type `t` in `doc`.
    fn find_tag(doc: &Vec<char>, t: &str) -> (r: Option<Vec<char>>)
        ensures
            match r {
                Some(f) => tag_of(doc@, t@) == Some(f@) && f@.len() > 0,
                None => tag_of(doc@, t@) is None,
            },
    {
        let n = doc.len();
        let mut open = chars_of("<meta:");
        append_str(&mut open, t);
        let mut close = chars_of("</meta:");
        append_str(&mut close, t);
        append_str(&mut close, ">");
        match find_in_vec(doc, &open, 0, n) {
            Some(a) => {
                proof {
                    lemma_find_in(doc@, open@, 0, n as int);
                }
                match find_in_vec(doc, &close, a, n) {
                    Some(b) => {
                        proof {
                            lemma_find_in(doc@, close@, a as int, n as int);
                            reveal_strlit(">");
                            assert(open@ == "<meta:"@ + t@);
                            assert(close@ == "</meta:"@ + t@ + ">"@);
                            assert(close@.len() > 0);
                        }
                        Some(vec_range(doc, a, b + close.len()))
                    },
                    None => None,
                }
            },
            None => None,
        }
    }

    /// Whether some replacement is for the tag `f`.
    fn has_tag_exec(reps: &Vec<(Vec<char>, Vec<char>)>, f: &Vec<char>) -> (r: bool)
        ensures
            r == has_tag(reps@.map_values(|p: (Vec<char>, Vec<char>)| (p.0@, p.1@)), f@),
    {
        let ghost rv = reps@.map_values(|p: (Vec<char>, Vec<char>)| (p.0@, p.1@));
        let mut j: usize = 0;
        while j < reps.len()
            invariant
                j <= reps@.len(),
                rv == reps@.map_values(|p: (Vec<char>, Vec<char>)| (p.0@, p.1@)),
                forall|k: int| 0 <= k < j ==> (#[trigger] rv[k]).0 != f@,
            decreases reps.len() - j,
        {
            if chars_eq(&reps[j].0, f) {
                proof {
                    assert(rv[j as int].0 == f@);
                }
                return true;
            }
            j = j + 1;
        }
        false
    }

    /// The document with the outputs of the state written into it: for each
    /// output of a cached block whose content differs (errors and results
    /// aside), in the order of the outputs, the first element of the block's
    /// type gets the output as its content; each such element is replaced
    /// once, by the first output that asks for it, at each of its
    /// occurrences.
    pub fn update_document(&self) -> (r: Result<String, ExecutorError>)
        ensures
            r matches Ok(d) && d@ == updated_document(
                self.state().current_document@,
                block_map_view(self.state().blocks@),
                self.no_cache_env(),
                entry_views(self.state().outputs.pairs()),
            ),
    {
        let state = self.state;
        let doc = chars_of(state.current_document.as_str());
        let ghost blocks = block_map_view(state.blocks@);
        let ghost env = self.no_cache_env();
        let ghost outs = entry_views(state.outputs.pairs());
        let env_str: Option<&str> = match &self.no_cache_env {
            Some(v) => Some(v.as_str()),
            None => None,
        };
        let mut reps: Vec<(Vec<char>, Vec<char>)> = Vec::new();
        let n = state.outputs.len();
        let mut i: usize = 0;
        while i < n
            invariant
                n == state.outputs.pairs().len(),
                i <= n,
                outs == entry_views(state.outputs.pairs()),
                blocks == block_map_view(state.blocks@),
                opt_str_view(env_str) == env,
                doc@ == state.current_document@,
                forall|j: int| 0 <= j < reps@.len() ==> (#[trigger] reps@[j]).0@.len() > 0,
                reps@.map_values(|p: (Vec<char>, Vec<char>)| (p.0@, p.1@))
                    == collect_replacements(doc@, blocks, env, outs.take(i as int)),
            decreases n - i,
        {
            let (name, output) = state.outputs.entry(i);
            let ghost rv = reps@.map_values(|p: (Vec<char>, Vec<char>)| (p.0@, p.1@));
            proof {
                assert(outs.take(i as int + 1).drop_last() =~= outs.take(i as int));
                assert(outs.take(i as int + 1).last() == (name@, output@));
            }
            let nm = name.as_str();
            let skip = ends_with_str(nm, "_error") || ends_with_str(nm, ".results") || ends_with_str(nm, "_results");
            if !skip {
                match state.blocks.get(nm) {
                    Some(block) => {
                        if CacheManager::is_cacheable(block, env_str) && !str_is(block.content.as_str(), output.as_str()) {
                            let t = block.block_type.as_str();
                            let cdata = starts_with_str(t, "code") || str_is(t, "shell") || str_is(t, "api");
                            match Self::find_tag(&doc, t) {
                                Some(full) => {
                                    if !Self::has_tag_exec(&reps, &full) {
                                        let fs = string_of(&full);
                                        match self.create_replacement(fs.as_str(), output.as_str(), cdata) {
                                            Some(rep) => {
                                                let rc = chars_of(rep.as_str());
                                                reps.push((full, rc));
                                                proof {
                                                    assert(reps@.map_values(|p: (Vec<char>, Vec<char>)| (p.0@, p.1@))
                                                        =~= rv.push((fs@, rep@)));
                                                }
                                            },
                                            None => {},
                                        }
                                    }
                                },
                                None => {},
                            }
                        }
                    },
                    None => {},
                }
            }
            i = i + 1;
        }
        proof {
            assert(outs.take(n as int) =~= outs);
        }
        let ghost all = reps@.map_values(|p: (Vec<char>, Vec<char>)| (p.0@, p.1@));
        let mut content = doc;
        let mut k: usize = 0;
        while k < reps.len()
            invariant
                k <= reps@.len(),
                all == reps@.map_values(|p: (Vec<char>, Vec<char>)| (p.0@, p.1@)),
                content@ == apply_replacements(doc@, all.take(k as int)),
                forall|j: int| 0 <= j < reps@.len() ==> (#[trigger] reps@[j]).0@.len() > 0,
            decreases reps.len() - k,
        {
            proof {
                assert(all.take(k as int + 1).drop_last() =~= all.take(k as int));
            }
            content = replace_all_vec(&content, &reps[k].0, &reps[k].1);
            k = k + 1;
        }
        proof {
            assert(all.take(reps@.len() as int) =~= all);
        }
        Ok(string_of(&content))
    }
}

proof fn lemma_no_replacements(
    doc: Seq<char>,
    blocks: Map<Seq<char>, BlockModel>,
    env: Option<Seq<char>>,
    outs: Seq<(Seq<char>, Seq<char>)>,
)
    requires
        forall|i: int| 0 <= i < outs.len() ==> output_replacement(doc, blocks, env, (#[trigger] outs[i]).0, outs[i].1) is None,
    ensures
        collect_replacements(doc, blocks, env, outs).len() == 0,
    decreases outs.len(),
{
    if outs.len() > 0 {
        let init = outs.drop_last();
        assert forall|i: int| 0 <= i < init.len() implies output_replacement(doc, blocks, env, (#[trigger] init[i]).0, init[i].1) is None by {
            assert(init[i] == outs[i]);
        }
        lemma_no_replacements(doc, blocks, env, init);
        assert(outs.last() == outs[outs.len() - 1]);
    }
}

/// A document that no output asks to change comes back as it is: when
/// every output is an error or a result, belongs to no cached block, or
/// equals its block's content, updating leaves the document unchanged.
pub proof fn law_update_without_changes(
    doc: Seq<char>,
    blocks: Map<Seq<char>, BlockModel>,
    env: Option<Seq<char>>,
    outs: Seq<(Seq<char>, Seq<char>)>,
)
    requires
        forall|i: int| 0 <= i < outs.len() ==> output_replacement(doc, blocks, env, (#[trigger] outs[i]).0, outs[i].1) is None,
    ensures
        updated_document(doc, blocks, env, outs) == doc,
{
    lemma_no_replacements(doc, blocks, env, outs);
}

/// The output of a code, shell or API block is written back inside a CDATA
/// section: where the block is cached, its output differs from its content,
/// and its first tag in the document holds a `>` and, after it, a
/// `</meta:`, the tag is replaced by the tag with its content made
/// `<![CDATA[`, a line break, the output, a line break, two spaces and `]]>`.
pub proof fn law_program_output_as_cdata(
    doc: Seq<char>,
    blocks: Map<Seq<char>, BlockModel>,
    env: Option<Seq<char>>,
    name: Seq<char>,
    o: Seq<char>,
    full: Seq<char>,
    gt: int,
    ce: int,
)
    requires
        !ends_with(name, "_error"@),
        !ends_with(name, ".results"@),
        !ends_with(name, "_results"@),
        blocks.contains_key(name),
        blocks[name].block_type == "api"@ || blocks[name].block_type == "shell"@ || starts_with(blocks[name].block_type, "code"@),
        cacheable(blocks[name], env),
        blocks[name].content != o,
        tag_of(doc, blocks[name].block_type) == Some(full),
        char_index(full, '>', 0) == Some(gt),
        find_in(full, "</meta:"@, gt + 1, full.len() as int) == Some(ce),
    ensures
        output_replacement(doc, blocks, env, name, o)
            == Some((full, full.take(gt + 1) + ("<![CDATA[\n"@ + o + "\n  ]]>"@) + full.skip(ce))),
{
}

/// The output of a block of any other type is written back as it is.
pub proof fn law_other_output_as_text(
    doc: Seq<char>,
    blocks: Map<Seq<char>, BlockModel>,
    env: Option<Seq<char>>,
    name: Seq<char>,
    o: Seq<char>,
    full: Seq<char>,
    gt: int,
    ce: int,
)
    requires
        !ends_with(name, "_error"@),
        !ends_with(name, ".results"@),
        !ends_with(name, "_results"@),
        blocks.contains_key(name),
        !(blocks[name].block_type == "api"@ || blocks[name].block_type == "shell"@ || starts_with(blocks[name].block_type, "code"@)),
        cacheable(blocks[name], env),
        blocks[name].content != o,
        tag_of(doc, blocks[name].block_type) == Some(full),
        char_index(full, '>', 0) == Some(gt),
        find_in(full, "</meta:"@, gt + 1, full.len() as int) == Some(ce),
    ensures
        output_replacement(doc, blocks, env, name, o) == Some((full, full.take(gt + 1) + o + full.skip(ce))),
{
}

} // verus!
