//! Whether the result of a block is cached, and for how long.

use vstd::prelude::*;
use crate::text::{starts_with, starts_with_str, str_is, chars_of, parse_u64, parse_unsigned};
use crate::parser::blocks::{Block, BlockModel, lower_equals, lower_equals_exec, opt_str_view, pairs_view};

verus! {

/// The rules for caching block results.
pub struct CacheManager;

/// A modifier value that turns an option on.
pub open spec fn is_on(v: Seq<char>) -> bool {
    v == "true"@ || v == "yes"@ || v == "1"@ || v == "on"@
}

/// A modifier value that turns an option off.
pub open spec fn is_off(v: Seq<char>) -> bool {
    v == "false"@ || v == "no"@ || v == "0"@ || v == "off"@
}

/// Whether some modifier `key` turns its option on (`on`) or off (`!on`).
pub open spec fn some_modifier(mods: Seq<(Seq<char>, Seq<char>)>, key: Seq<char>, on: bool) -> bool {
    exists|i: int| 0 <= i < mods.len() && (#[trigger] mods[i]).0 == key
        && (if on { is_on(mods[i].1) } else { is_off(mods[i].1) })
}

/// Whether the value of `LLM_NO_CACHE` switches caching off: `1`, or
/// `true` in any case.
pub open spec fn cache_disabled(env: Option<Seq<char>>) -> bool {
    env matches Some(v) && (v == "1"@ || lower_equals(v, "true"@))
}

/// The block types whose results are cached unless a block says otherwise:
/// `code`, `shell`, `api`, `code:javascript` and `code:rust`, and the types
/// that start with one of them.
pub open spec fn cached_by_default(t: Seq<char>) -> bool {
    ||| t == "code"@ || starts_with(t, "code"@)
    ||| t == "shell"@ || starts_with(t, "shell"@)
    ||| t == "api"@ || starts_with(t, "api"@)
    ||| t == "code:javascript"@ || starts_with(t, "code:javascript"@)
    ||| t == "code:rust"@ || starts_with(t, "code:rust"@)
}

/// Whether the result of `b` is cached, where `env` is the value of
/// `LLM_NO_CACHE`. Caching can be switched off for all blocks, or for one
/// by `never-cache`; a Python block is cached only with `cache_result` on;
/// the default types are cached unless `cache_result` is off; the other
/// types only with `cache_result` on.
pub open spec fn cacheable(b: BlockModel, env: Option<Seq<char>>) -> bool {
    if cache_disabled(env) {
        false
    } else if some_modifier(b.modifiers, "never-cache"@, true) {
        false
    } else if b.block_type == "code:python"@ {
        some_modifier(b.modifiers, "cache_result"@, true)
    } else if cached_by_default(b.block_type) {
        !some_modifier(b.modifiers, "cache_result"@, false)
    } else {
        some_modifier(b.modifiers, "cache_result"@, true)
    }
}

/// The value of the first `timeout` modifier at or after `from` that is a
/// number of seconds.
pub open spec fn first_timeout(mods: Seq<(Seq<char>, Seq<char>)>, from: int) -> Option<nat>
    decreases mods.len() - from,
{
    if from < 0 || from >= mods.len() {
        None
    } else if mods[from].0 == "timeout"@ && parse_unsigned(mods[from].1, u64::MAX as nat) is Some {
        parse_unsigned(mods[from].1, u64::MAX as nat)
    } else {
        first_timeout(mods, from + 1)
    }
}

/// How long, in seconds, the cached result of `b` stays valid, where `env`
/// is the value of `LLM_TIMEOUT`: the first `timeout` modifier that is a
/// number, else `env` if it is a number, else ten minutes.
pub open spec fn timeout_secs(b: BlockModel, env: Option<Seq<char>>) -> nat {
    match first_timeout(b.modifiers, 0) {
        Some(t) => t,
        None => match env {
            Some(e) => match parse_unsigned(e, u64::MAX as nat) {
                Some(t) => t,
                None => 600,
            },
            None => 600,
        },
    }
}

/// Whether a value turns an option on (`on`) or off (`!on`).
fn switch_value(v: &str, on: bool) -> (r: bool)
    ensures
        r == (if on { is_on(v@) } else { is_off(v@) }),
{
    if on {
        str_is(v, "true") || str_is(v, "yes") || str_is(v, "1") || str_is(v, "on")
    } else {
        str_is(v, "false") || str_is(v, "no") || str_is(v, "0") || str_is(v, "off")
    }
}

/// Whether some modifier `key` turns its option on (`on`) or off (`!on`).
fn some_modifier_exec(mods: &Vec<(String, String)>, key: &str, on: bool) -> (r: bool)
    ensures
        r == some_modifier(pairs_view(mods@), key@, on),
{
    let ghost pv = pairs_view(mods@);
    let n = mods.len();
    let mut i: usize = 0;
    while i < n
        invariant
            n == mods@.len(),
            pv == pairs_view(mods@),
            i <= n,
            forall|j: int| 0 <= j < i ==> !((#[trigger] pv[j]).0 == key@
                && (if on { is_on(pv[j].1) } else { is_off(pv[j].1) })),
        decreases n - i,
    {
        proof {
            assert(pv[i as int] == (mods@[i as int].0@, mods@[i as int].1@));
        }
        if str_is(mods[i].0.as_str(), key) && switch_value(mods[i].1.as_str(), on) {
            return true;
        }
        i = i + 1;
    }
    false
}

impl CacheManager {
    /// Whether the result of `block` is cached; `no_cache_env` is the value
    /// of the environment variable `LLM_NO_CACHE`, if it is set.
    pub fn is_cacheable(block: &Block, no_cache_env: Option<&str>) -> (r: bool)
        ensures
            r == cacheable(block@, opt_str_view(no_cache_env)),
    {
        match no_cache_env {
            Some(v) => {
                let vc = chars_of(v);
                if str_is(v, "1") || lower_equals_exec(&vc, "true") {
                    return false;
                }
            },
            None => {},
        }
        if some_modifier_exec(&block.modifiers, "never-cache", true) {
            return false;
        }
        let t = block.block_type.as_str();
        if str_is(t, "code:python") {
            return some_modifier_exec(&block.modifiers, "cache_result", true);
        }
        let by_default = (str_is(t, "code") || starts_with_str(t, "code"))
            || (str_is(t, "shell") || starts_with_str(t, "shell"))
            || (str_is(t, "api") || starts_with_str(t, "api"))
            || (str_is(t, "code:javascript") || starts_with_str(t, "code:javascript"))
            || (str_is(t, "code:rust") || starts_with_str(t, "code:rust"));
        if by_default {
            return !some_modifier_exec(&block.modifiers, "cache_result", false);
        }
        some_modifier_exec(&block.modifiers, "cache_result", true)
    }

    /// How long, in seconds, the cached result of `block` stays valid;
    /// `timeout_env` is the value of the environment variable `LLM_TIMEOUT`,
    /// if it is set.
    pub fn get_timeout(block: &Block, timeout_env: Option<&str>) -> (r: u64)
        ensures
            r == timeout_secs(block@, opt_str_view(timeout_env)),
    {
        let ghost pv = block@.modifiers;
        let n = block.modifiers.len();
        let mut i: usize = 0;
        while i < n
            invariant
                n == block.modifiers@.len(),
                pv == pairs_view(block.modifiers@),
                i <= n,
                first_timeout(pv, 0) == first_timeout(pv, i as int),
            decreases n - i,
        {
            proof {
                assert(pv[i as int] == (block.modifiers@[i as int].0@, block.modifiers@[i as int].1@));
            }
            if str_is(block.modifiers[i].0.as_str(), "timeout") {
                match parse_u64(block.modifiers[i].1.as_str()) {
                    Some(secs) => {
                        return secs;
                    },
                    None => {},
                }
            }
            i = i + 1;
        }
        match timeout_env {
            Some(e) => match parse_u64(e) {
                Some(secs) => secs,
                None => 600,
            },
            None => 600,
        }
    }

    /// Whether a cached result that is `elapsed_ms` milliseconds old is
    /// still valid for a timeout of `timeout_secs` seconds: it is younger
    /// than the timeout. (The timeout is a whole number of seconds, so the
    /// age in whole milliseconds decides as the exact age does.)
    pub fn is_fresh(elapsed_ms: u128, timeout_secs: u64) -> (r: bool)
        ensures
            r == (elapsed_ms < timeout_secs * 1000),
    {
        elapsed_ms < (timeout_secs as u128) * 1000
    }
}

/// Switching caching off wins: when `LLM_NO_CACHE` switches it off, or a
/// block's `never-cache` modifier is on, the block's result is not cached.
pub proof fn law_cache_switched_off(b: BlockModel, env: Option<Seq<char>>)
    requires
        cache_disabled(env) || some_modifier(b.modifiers, "never-cache"@, true),
    ensures
        !cacheable(b, env),
{
}

/// A `cache_result` modifier of `false`, `no`, `0` or `off` switches caching
/// off for a block of a type that is cached by default: code other than
/// Python, shell and API blocks (and their subtypes).
pub proof fn law_cache_result_off(b: BlockModel, env: Option<Seq<char>>, i: int)
    requires
        starts_with(b.block_type, "code"@) || starts_with(b.block_type, "shell"@) || starts_with(b.block_type, "api"@),
        b.block_type != "code:python"@,
        0 <= i < b.modifiers.len(),
        b.modifiers[i].0 == "cache_result"@,
        b.modifiers[i].1 == "false"@ || b.modifiers[i].1 == "no"@ || b.modifiers[i].1 == "0"@ || b.modifiers[i].1 == "off"@,
    ensures
        !cacheable(b, env),
{
    assert(some_modifier(b.modifiers, "cache_result"@, false));
}

/// A shell, API or non-Python code block with no modifiers is cached when
/// `LLM_NO_CACHE` is unset.
pub proof fn law_default_types_cached(b: BlockModel)
    requires
        starts_with(b.block_type, "code"@) || starts_with(b.block_type, "shell"@) || starts_with(b.block_type, "api"@),
        b.block_type != "code:python"@,
        b.modifiers.len() == 0,
    ensures
        cacheable(b, None),
{
}

/// A Python code block is cached only when some `cache_result` modifier is
/// `true`, `yes`, `1` or `on`.
pub proof fn law_python_cached_only_on_request(b: BlockModel, env: Option<Seq<char>>)
    requires
        b.block_type == "code:python"@,
        cacheable(b, env),
    ensures
        exists|i: int| 0 <= i < b.modifiers.len() && (#[trigger] b.modifiers[i]).0 == "cache_result"@
            && (b.modifiers[i].1 == "true"@ || b.modifiers[i].1 == "yes"@ || b.modifiers[i].1 == "1"@
                || b.modifiers[i].1 == "on"@),
{
}

} // verus!
