use yet_another_llm_project_but_better::file_watcher::{convert_event, file_event_from, FileEventType, NotifyEvent, NotifyKind};
use yet_another_llm_project_but_better::llm_client::types::{
    AnthropicResponse, LlmProvider, OpenAIChoice, OpenAIMessage, OpenAIResponse,
};
use yet_another_llm_project_but_better::llm_client::{
    anthropic_answer, anthropic_prompt, api_key_variable, llm_settings, openai_answer, provider_from_modifiers,
};
use yet_another_llm_project_but_better::text::{
    concat_str, decimal_string, ends_with_str, parse_u32, parse_u64, replace_all_vec, starts_with_str,
    strip_all_suffix_str,
};
use yet_another_llm_project_but_better::text_map::TextMap;
use std::path::PathBuf;

fn mods(v: &[(&str, &str)]) -> Vec<(String, String)> {
    v.iter().map(|(k, x)| (k.to_string(), x.to_string())).collect()
}

#[test]
fn test_from_block_modifiers() {
    let modifiers = mods(&[("provider", "openai"), ("model", "gpt-4"), ("temperature", "0.5"), ("max_tokens", "2048")]);

    let settings = llm_settings(&modifiers, None);

    match settings.provider {
        LlmProvider::OpenAI => {},
        _ => panic!("Expected OpenAI provider"),
    }

    assert_eq!(settings.model, "gpt-4");
    assert_eq!(settings.temperature.unwrap().parse::<f32>().unwrap(), 0.5);
    assert_eq!(settings.max_tokens, Some(2048));
}

#[test]
fn llm_settings_defaults_and_overrides() {
    let settings = llm_settings(&[], Some("env-key"));
    assert_eq!(settings.provider, LlmProvider::OpenAI);
    assert_eq!(settings.model, "gpt-3.5-turbo");
    assert_eq!(settings.api_key, "env-key");
    assert_eq!(settings.api_endpoint, None);
    assert_eq!(settings.temperature, None);
    assert_eq!(settings.max_tokens, Some(1024));
    assert_eq!(settings.timeout_seconds, 60);

    let m = mods(&[
        ("provider", "anthropic"),
        ("api_key", "k1"),
        ("max_tokens", "5000000000"),
        ("timeout", "5"),
        ("timeout", "9"),
        ("api_endpoint", "http://localhost"),
    ]);
    let s = llm_settings(&m, Some("env-key"));
    assert_eq!(s.provider, LlmProvider::Anthropic);
    assert_eq!(s.api_key, "k1");
    assert_eq!(s.max_tokens, Some(1024));
    assert_eq!(s.timeout_seconds, 9);
    assert_eq!(s.api_endpoint, Some("http://localhost".to_string()));
}

#[test]
fn providers_and_key_variables() {
    assert_eq!(provider_from_modifiers(&mods(&[("provider", "mine")])), LlmProvider::Custom("mine".to_string()));
    assert_eq!(api_key_variable(&LlmProvider::OpenAI), "OPENAI_API_KEY");
    assert_eq!(api_key_variable(&LlmProvider::Anthropic), "ANTHROPIC_API_KEY");
    assert_eq!(api_key_variable(&LlmProvider::Custom("x".to_string())), "LLM_API_KEY");
}

#[test]
fn llm_replies() {
    let empty = OpenAIResponse { choices: vec![] };
    assert_eq!(openai_answer(&empty), Err("OpenAI returned no choices".to_string()));
    let full = OpenAIResponse {
        choices: vec![OpenAIChoice { message: OpenAIMessage { role: "assistant".to_string(), content: "Hi".to_string() } }],
    };
    assert_eq!(openai_answer(&full), Ok("Hi".to_string()));
    assert_eq!(anthropic_answer(&AnthropicResponse { completion: "Yo".to_string() }), "Yo");
    assert_eq!(anthropic_prompt("Why?"), "\n\nHuman: Why?\n\nAssistant:");
}

#[test]
fn file_events() {
    let p = PathBuf::from("/tmp/a.txt");
    let e = file_event_from(NotifyKind::Modify, Some(p.clone())).unwrap();
    assert_eq!(e.event_type, FileEventType::Modified);
    assert_eq!(e.path, p);
    assert_eq!(file_event_from(NotifyKind::Create, Some(p.clone())).unwrap().event_type, FileEventType::Created);
    assert_eq!(file_event_from(NotifyKind::Remove, Some(p.clone())).unwrap().event_type, FileEventType::Deleted);
    assert!(file_event_from(NotifyKind::Other, Some(p)).is_none());
    assert!(file_event_from(NotifyKind::Create, None).is_none());
}

#[test]
fn notifier_events_convert_on_their_first_path() {
    let a = PathBuf::from("/tmp/a.txt");
    let b = PathBuf::from("/tmp/b.txt");
    let e = convert_event(NotifyEvent { kind: NotifyKind::Create, paths: vec![a.clone(), b] }).unwrap();
    assert_eq!(e.event_type, FileEventType::Created);
    assert_eq!(e.path, a);
    assert!(convert_event(NotifyEvent { kind: NotifyKind::Remove, paths: vec![] }).is_none());
    assert!(convert_event(NotifyEvent { kind: NotifyKind::Other, paths: vec![a] }).is_none());
}

#[test]
fn unsigned_parsing() {
    assert_eq!(parse_u64("123"), Some(123));
    assert_eq!(parse_u64("+7"), Some(7));
    assert_eq!(parse_u64("007"), Some(7));
    assert_eq!(parse_u64(""), None);
    assert_eq!(parse_u64("+"), None);
    assert_eq!(parse_u64("-1"), None);
    assert_eq!(parse_u64("12a"), None);
    assert_eq!(parse_u64(" 1"), None);
    assert_eq!(parse_u64("18446744073709551615"), Some(u64::MAX));
    assert_eq!(parse_u64("18446744073709551616"), None);
    assert_eq!(parse_u32("4294967295"), Some(u32::MAX));
    assert_eq!(parse_u32("4294967296"), None);
    for n in [0u64, 9, 10, 99, 12345, u64::MAX] {
        assert_eq!(parse_u64(&decimal_string(n as u128)), Some(n));
        assert_eq!(n.to_string().parse::<u64>().ok(), parse_u64(&n.to_string()));
    }
}

#[test]
fn text_helpers() {
    assert_eq!(concat_str("ab", "cd"), "abcd");
    assert_eq!(decimal_string(0), "0");
    assert_eq!(decimal_string(1204), "1204");
    assert!(ends_with_str("block_response", "_response"));
    assert!(!ends_with_str("resp", "_response"));
    assert!(starts_with_str("code:python", "code"));
    assert_eq!(strip_all_suffix_str("a-fallback-fallback", "-fallback"), "a");
    assert_eq!(strip_all_suffix_str("plain", "-fallback"), "plain");
    let s: Vec<char> = "echo \"hi\" and echo \"x\"".chars().collect();
    let p: Vec<char> = "echo \"".chars().collect();
    let r: Vec<char> = "echo &quot;".chars().collect();
    let out: String = replace_all_vec(&s, &p, &r).into_iter().collect();
    assert_eq!(out, "echo \"hi\" and echo \"x\"".replace("echo \"", "echo &quot;"));
    let absent: String = replace_all_vec(&s, &"xyz".chars().collect(), &r).into_iter().collect();
    assert_eq!(absent, "echo \"hi\" and echo \"x\"");
    let aa: Vec<char> = "aaa".chars().collect();
    let pa: Vec<char> = "aa".chars().collect();
    let rb: Vec<char> = "b".chars().collect();
    let out2: String = replace_all_vec(&aa, &pa, &rb).into_iter().collect();
    assert_eq!(out2, "aaa".replace("aa", "b"));
}

#[test]
fn text_map_read_after_write() {
    let mut m: TextMap<String> = TextMap::new();
    assert_eq!(m.len(), 0);
    m.insert("b".to_string(), "1".to_string());
    m.insert("a".to_string(), "2".to_string());
    m.insert("b".to_string(), "3".to_string());
    assert_eq!(m.len(), 2);
    assert_eq!(m.get("b"), Some(&"3".to_string()));
    assert_eq!(m.get("a"), Some(&"2".to_string()));
    assert_eq!(m.get("c"), None);
    assert!(m.contains_key("a"));
    let (k0, v0) = m.entry(0);
    assert_eq!((k0.as_str(), v0.as_str()), ("b", "3"));
    let copy = m.copy();
    assert_eq!(copy.get("a"), Some(&"2".to_string()));
    m.clear();
    assert_eq!(m.len(), 0);
    assert!(!m.contains_key("a"));
    assert_eq!(copy.len(), 2);
}
