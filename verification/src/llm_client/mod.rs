//! Settings and replies of language model requests.

pub mod types;

use vstd::prelude::*;
use crate::text::{str_is, concat_str, parse_u32, parse_u64, parse_unsigned};
use crate::parser::blocks::{opt_view, pairs_view};
use crate::llm_client::types::{LlmProvider, LlmProviderModel, OpenAIResponse, AnthropicResponse};

verus! {

/// The value of the last modifier named `key`, as a map built from the
/// modifiers in order holds it.
pub open spec fn last_lookup(mods: Seq<(Seq<char>, Seq<char>)>, key: Seq<char>) -> Option<Seq<char>>
    decreases mods.len(),
{
    if mods.len() == 0 {
        None
    } else if mods.last().0 == key {
        Some(mods.last().1)
    } else {
        last_lookup(mods.drop_last(), key)
    }
}

/// The provider that a `provider` modifier names: OpenAI by default,
/// `openai`, `anthropic`, or else a custom endpoint of that name.
pub open spec fn provider_of(mods: Seq<(Seq<char>, Seq<char>)>) -> LlmProviderModel {
    match last_lookup(mods, "provider"@) {
        None => LlmProviderModel::OpenAI,
        Some(p) => if p == "openai"@ {
            LlmProviderModel::OpenAI
        } else if p == "anthropic"@ {
            LlmProviderModel::Anthropic
        } else {
            LlmProviderModel::Custom(p)
        },
    }
}

/// The environment variable that holds the API key of a provider.
pub open spec fn key_variable(p: LlmProviderModel) -> Seq<char> {
    match p {
        LlmProviderModel::OpenAI => "OPENAI_API_KEY"@,
        LlmProviderModel::Anthropic => "ANTHROPIC_API_KEY"@,
        LlmProviderModel::Custom(_) => "LLM_API_KEY"@,
    }
}

/// The settings of a request that a question's modifiers choose, its
/// temperature aside.
pub struct LlmSettings {
    pub provider: LlmProvider,
    pub model: String,
    pub api_key: String,
    pub api_endpoint: Option<String>,
    pub temperature: Option<String>,
    pub max_tokens: Option<u32>,
    pub timeout_seconds: u64,
}

/// The value of `Some` text of a setting, if the text is a number that fits.
pub open spec fn parsed_or(text: Option<Seq<char>>, max: nat, default: Option<nat>) -> Option<nat> {
    match text {
        Some(t) => match parse_unsigned(t, max) {
            Some(v) => Some(v),
            None => default,
        },
        None => default,
    }
}

/// The last modifier named `k` in `mods`.
fn last_modifier<'a>(mods: &'a [(String, String)], k: &str) -> (r: Option<&'a String>)
    ensures
        match r {
            Some(v) => last_lookup(pairs_view(mods@), k@) == Some(v@),
            None => last_lookup(pairs_view(mods@), k@) is None,
        },
{
    let ghost pv = pairs_view(mods@);
    let n = mods.len();
    let mut i: usize = n;
    proof {
        assert(pv.take(n as int) =~= pv);
    }
    while i > 0
        invariant
            n == mods@.len(),
            pv == pairs_view(mods@),
            i <= n,
            last_lookup(pv, k@) == last_lookup(pv.take(i as int), k@),
        decreases i,
    {
        proof {
            assert(pv.take(i as int).drop_last() =~= pv.take(i as int - 1));
            assert(pv.take(i as int).last() == (mods@[i - 1].0@, mods@[i - 1].1@));
        }
        if str_is(mods[i - 1].0.as_str(), k) {
            return Some(&mods[i - 1].1);
        }
        i = i - 1;
    }
    None
}

/// The provider that the modifiers name: OpenAI by default, `openai`,
/// `anthropic`, or else a custom endpoint of that name.
pub fn provider_from_modifiers(modifiers: &[(String, String)]) -> (r: LlmProvider)
    ensures
        r@ == provider_of(pairs_view(modifiers@)),
{
    match last_modifier(modifiers, "provider") {
        None => LlmProvider::OpenAI,
        Some(p) => if str_is(p.as_str(), "openai") {
            LlmProvider::OpenAI
        } else if str_is(p.as_str(), "anthropic") {
            LlmProvider::Anthropic
        } else {
            LlmProvider::Custom(p.clone())
        },
    }
}

/// The environment variable that holds the API key of `provider`.
pub fn api_key_variable(provider: &LlmProvider) -> (r: &'static str)
    ensures
        r@ == key_variable(provider@),
{
    match provider {
        LlmProvider::OpenAI => "OPENAI_API_KEY",
        LlmProvider::Anthropic => "ANTHROPIC_API_KEY",
        LlmProvider::Custom(_) => "LLM_API_KEY",
    }
}

/// The settings that the modifiers choose, where a later modifier of a name
/// overrides an earlier one: the provider; the model (`gpt-3.5-turbo` by
/// default); the API key, else `env_api_key`, the value of the provider's
/// key variable, else none; the endpoint; the text of the temperature; the
/// token limit (1024 by default) and the timeout in seconds (60 by default),
/// each where its text is a number.
pub fn llm_settings(modifiers: &[(String, String)], env_api_key: Option<&str>) -> (r: LlmSettings)
    ensures
        r.provider@ == provider_of(pairs_view(modifiers@)),
        r.model@ == (match last_lookup(pairs_view(modifiers@), "model"@) {
            Some(m) => m,
            None => "gpt-3.5-turbo"@,
        }),
        r.api_key@ == (match last_lookup(pairs_view(modifiers@), "api_key"@) {
            Some(k) => k,
            None => match env_api_key {
                Some(e) => e@,
                None => Seq::<char>::empty(),
            },
        }),
        opt_view(r.api_endpoint) == last_lookup(pairs_view(modifiers@), "api_endpoint"@),
        opt_view(r.temperature) == last_lookup(pairs_view(modifiers@), "temperature"@),
        (match r.max_tokens {
            Some(v) => Some(v as nat),
            None => None,
        }) == parsed_or(last_lookup(pairs_view(modifiers@), "max_tokens"@), u32::MAX as nat, Some(1024)),
        Some(r.timeout_seconds as nat) == parsed_or(last_lookup(pairs_view(modifiers@), "timeout"@), u64::MAX as nat, Some(60)),
{
    let provider = provider_from_modifiers(modifiers);
    let model = match last_modifier(modifiers, "model") {
        Some(m) => m.clone(),
        None => "gpt-3.5-turbo".to_owned(),
    };
    let api_key = match last_modifier(modifiers, "api_key") {
        Some(k) => k.clone(),
        None => match env_api_key {
            Some(e) => e.to_owned(),
            None => String::new(),
        },
    };
    let api_endpoint = match last_modifier(modifiers, "api_endpoint") {
        Some(e) => Some(e.clone()),
        None => None,
    };
    let temperature = match last_modifier(modifiers, "temperature") {
        Some(t) => Some(t.clone()),
        None => None,
    };
    let max_tokens = match last_modifier(modifiers, "max_tokens") {
        Some(t) => match parse_u32(t.as_str()) {
            Some(v) => Some(v),
            None => Some(1024),
        },
        None => Some(1024),
    };
    let timeout_seconds = match last_modifier(modifiers, "timeout") {
        Some(t) => match parse_u64(t.as_str()) {
            Some(v) => v,
            None => 60,
        },
        None => 60,
    };
    LlmSettings { provider, model, api_key, api_endpoint, temperature, max_tokens, timeout_seconds }
}

/// The answer in an OpenAI reply: the content of its first choice; an error
/// when it has none.
pub fn openai_answer(response: &OpenAIResponse) -> (r: Result<String, String>)
    ensures
        response.choices@.len() == 0 ==> (r matches Err(e) && e@ == "OpenAI returned no choices"@),
        response.choices@.len() > 0 ==> (r matches Ok(a) && a@ == response.choices@[0].message.content@),
{
    if response.choices.len() == 0 {
        Err("OpenAI returned no choices".to_owned())
    } else {
        Ok(response.choices[0].message.content.clone())
    }
}

/// The answer in an Anthropic reply: its completion.
pub fn anthropic_answer(response: &AnthropicResponse) -> (r: String)
    ensures
        r@ == response.completion@,
{
    response.completion.clone()
}

/// The prompt sent to Anthropic: the question after `Human:`, then
/// `Assistant:`, each after a blank line.
pub fn anthropic_prompt(prompt: &str) -> (r: String)
    ensures
        r@ == "\n\nHuman: "@ + prompt@ + "\n\nAssistant:"@,
{
    let a = concat_str("\n\nHuman: ", prompt);
    concat_str(a.as_str(), "\n\nAssistant:")
}

} // verus!
