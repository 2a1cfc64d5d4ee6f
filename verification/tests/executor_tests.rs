use yet_another_llm_project_but_better::executor::execution::{conditional_plans, names_of_type};
use yet_another_llm_project_but_better::executor::cache::CacheManager;
use yet_another_llm_project_but_better::executor::document::DocumentUpdater;
use yet_another_llm_project_but_better::executor::error::ExecutorError;
use yet_another_llm_project_but_better::executor::execution::{
    dependencies, has_explicit_dependency, is_executable_block, BlockOutcome,
};
use yet_another_llm_project_but_better::executor::reference_resolver::ReferenceResolver as BlockReferenceResolver;
use yet_another_llm_project_but_better::executor::resolver::ReferenceResolver;
use yet_another_llm_project_but_better::executor::runners::code::{JavaScriptRunner, PythonRunner};
use yet_another_llm_project_but_better::executor::runners::conditional::ConditionalRunner;
use yet_another_llm_project_but_better::executor::runners::question::QuestionRunner;
use yet_another_llm_project_but_better::executor::runners::shell::ShellRunner;
use yet_another_llm_project_but_better::executor::state::ExecutorState;
use yet_another_llm_project_but_better::parser::blocks::Block;
use yet_another_llm_project_but_better::text_map::TextMap;

#[test]
fn test_test_mode_via_modifier() {
    let mut block = Block::new("question", Some("test_question"), "What is the meaning of life?");
    block.add_modifier("test_mode", "true");

    let result = QuestionRunner.test_response(&block, "");

    assert!(result.is_some());
    assert_eq!(result.unwrap(), "This is a simulated response for testing purposes.");
}

#[test]
fn test_custom_test_response() {
    let mut block = Block::new("question", Some("test_question"), "What is the meaning of life?");
    block.add_modifier("test_mode", "true");
    block.add_modifier("test_response", "The answer is 42.");

    let result = QuestionRunner.test_response(&block, "");

    assert!(result.is_some());
    assert_eq!(result.unwrap(), "The answer is 42.");
}

#[test]
fn test_timeout_from_modifier() {
    let mut block = Block::new("code:python", Some("test_timeout"), "print('Hello')");
    block.add_modifier("timeout", "30");

    let timeout = CacheManager::get_timeout(&block, None);

    assert_eq!(timeout, 30);
}

#[test]
fn test_process_content_no_references() {
    let state = ExecutorState::new();
    let resolver = ReferenceResolver::new(&state, false);

    let content = "Hello, world!";
    let result = resolver.process_content_pass(content).unwrap();
    assert_eq!(result.0, content);
    assert!(!result.1);
}

#[test]
fn state_new_is_empty_with_instance_id() {
    let state = ExecutorState::new();
    assert_eq!(state.blocks.len(), 0);
    assert_eq!(state.outputs.len(), 0);
    assert_eq!(state.fallbacks.len(), 0);
    assert_eq!(state.current_document, "");
    assert!(state.processing_blocks.is_empty());
    assert!(state.instance_id.starts_with("executor_"));
    assert!(state.instance_id["executor_".len()..].chars().all(|c| c.is_ascii_digit()));
}

#[test]
fn store_block_output_writes_three_keys_and_content() {
    let mut state = ExecutorState::new();
    state.blocks.insert("calc".to_string(), Block::new("code:python", Some("calc"), "print(1)"));
    state.store_block_output("calc", "1".to_string());
    assert_eq!(state.outputs.get("calc"), Some(&"1".to_string()));
    assert_eq!(state.outputs.get("calc.results"), Some(&"1".to_string()));
    assert_eq!(state.outputs.get("calc_results"), Some(&"1".to_string()));
    assert_eq!(state.blocks.get("calc").unwrap().content, "1");
    assert_eq!(state.outputs.len(), 3);

    state.store_block_output("other", "x".to_string());
    assert!(!state.blocks.contains_key("other"));
    assert_eq!(state.outputs.get("other"), Some(&"x".to_string()));
}

#[test]
fn store_error_uses_error_key() {
    let mut state = ExecutorState::new();
    state.store_error("calc", "boom");
    assert_eq!(state.outputs.get("calc_error"), Some(&"boom".to_string()));
    assert_eq!(state.outputs.len(), 1);
}

#[test]
fn reset_clears_but_keeps_instance() {
    let mut state = ExecutorState::new();
    let id = state.instance_id.clone();
    state.store_block_output("a", "1".to_string());
    state.fallbacks.insert("a".to_string(), "a-fallback".to_string());
    state.processing_blocks.push("a".to_string());
    state.reset("new doc");
    assert_eq!(state.outputs.len(), 0);
    assert_eq!(state.fallbacks.len(), 0);
    assert_eq!(state.blocks.len(), 0);
    assert!(state.processing_blocks.is_empty());
    assert_eq!(state.current_document, "new doc");
    assert_eq!(state.instance_id, id);
}

#[test]
fn restore_responses_only_adds_missing_responses() {
    let mut state = ExecutorState::new();
    state.outputs.insert("q_response".to_string(), "current".to_string());
    let mut previous = TextMap::new();
    previous.insert("q_response".to_string(), "old".to_string());
    previous.insert("r_response".to_string(), "kept".to_string());
    previous.insert("question_response".to_string(), "unnamed".to_string());
    previous.insert("calc".to_string(), "7".to_string());
    state.restore_responses(previous);
    assert_eq!(state.outputs.get("q_response"), Some(&"current".to_string()));
    assert_eq!(state.outputs.get("r_response"), Some(&"kept".to_string()));
    assert_eq!(state.outputs.get("question_response"), Some(&"unnamed".to_string()));
    assert!(!state.outputs.contains_key("calc"));
}

#[test]
fn has_fallback_reads_fallbacks() {
    let mut state = ExecutorState::new();
    assert!(!state.has_fallback("a"));
    state.fallbacks.insert("a".to_string(), "a-fallback".to_string());
    assert!(state.has_fallback("a"));
}

#[test]
fn register_blocks_names_fallbacks_and_data() {
    let mut state = ExecutorState::new();
    let blocks = vec![
        Block::new("data", Some("numbers"), "[1, 2]"),
        Block::new("code:python", None, "print(1)"),
        Block::new("shell", Some("list-fallback-fallback"), "ls"),
    ];
    state.register_blocks(&blocks);
    assert!(state.blocks.contains_key("numbers"));
    assert!(state.blocks.contains_key("code:python_1"));
    assert!(state.blocks.contains_key("list-fallback-fallback"));
    assert_eq!(state.outputs.get("numbers"), Some(&"[1, 2]".to_string()));
    assert_eq!(state.fallbacks.get("list"), Some(&"list-fallback-fallback".to_string()));
    assert_eq!(state.outputs.len(), 1);
}

#[test]
fn load_document_restores_responses() {
    let mut state = ExecutorState::new();
    state.outputs.insert("ask_response".to_string(), "answer".to_string());
    state.outputs.insert("calc".to_string(), "3".to_string());
    let blocks = vec![Block::new("data", Some("d"), "value")];
    state.load_document("<doc/>", &blocks);
    assert_eq!(state.current_document, "<doc/>");
    assert_eq!(state.outputs.get("ask_response"), Some(&"answer".to_string()));
    assert_eq!(state.outputs.get("d"), Some(&"value".to_string()));
    assert!(!state.outputs.contains_key("calc"));
}

#[test]
fn begin_block_reports_cycles_and_missing_blocks() {
    let mut state = ExecutorState::new();
    match state.begin_block("missing") {
        Err(ExecutorError::BlockNotFound(n)) => assert_eq!(n, "missing"),
        other => panic!("unexpected {:?}", other),
    }
    state.blocks.insert("a".to_string(), Block::new("shell", Some("a"), "ls"));
    assert_eq!(state.begin_block("a").unwrap().content, "ls");
    state.mark_processing("a");
    assert!(state.is_processing("a"));
    match state.begin_block("a") {
        Err(ExecutorError::CircularDependency(n)) => assert_eq!(n, "a"),
        other => panic!("unexpected {:?}", other),
    }
}

#[test]
fn finish_block_outcomes() {
    let mut state = ExecutorState::new();
    state.blocks.insert("a".to_string(), Block::new("shell", Some("a"), "ls"));
    state.mark_processing("a");
    state.mark_processing("a");
    match state.finish_block("a", Ok("out".to_string()), false, std::time::Instant::now()) {
        BlockOutcome::Completed(o) => assert_eq!(o, "out"),
        _ => panic!("expected completion"),
    }
    assert!(!state.is_processing("a"));
    assert_eq!(state.outputs.get("a_results"), Some(&"out".to_string()));
    assert_eq!(state.blocks.get("a").unwrap().content, "out");

    state.fallbacks.insert("b".to_string(), "b-fallback".to_string());
    match state.finish_block("b", Err(ExecutorError::ExecutionFailed("bad".to_string())), true, std::time::Instant::now()) {
        BlockOutcome::Fallback(f) => assert_eq!(f, "b-fallback"),
        _ => panic!("expected fallback"),
    }
    assert_eq!(state.outputs.get("b_error"), Some(&"Execution failed: bad".to_string()));

    match state.finish_block("c", Err(ExecutorError::LlmApiError("down".to_string())), true, std::time::Instant::now()) {
        BlockOutcome::Failed(ExecutorError::LlmApiError(m)) => assert_eq!(m, "down"),
        _ => panic!("expected failure"),
    }
    assert_eq!(state.outputs.get("c_error"), Some(&"LLM API error: down".to_string()));
    assert_eq!(state.cache.len(), 0);
}

#[test]
fn cacheable_results_are_cached() {
    let mut state = ExecutorState::new();
    state.blocks.insert("p".to_string(), Block::new("code:python", Some("p"), "print(1)"));
    state.mark_processing("p");
    let now = std::time::Instant::now();
    match state.finish_block("p", Ok("1".to_string()), true, now) {
        BlockOutcome::Completed(o) => assert_eq!(o, "1"),
        _ => panic!("expected completion"),
    }
    let (cached, at) = state.cache.get("p").unwrap();
    assert_eq!(cached, "1");
    assert_eq!(*at, now);
    assert_eq!(state.outputs.get("p"), Some(&"1".to_string()));
}

#[test]
fn current_and_set_block_content() {
    let mut state = ExecutorState::new();
    let block = Block::new("shell", Some("a"), "echo old");
    assert_eq!(state.current_content("a", &block), "echo old");
    state.blocks.insert("a".to_string(), block.copy());
    state.set_block_content("a", "echo new".to_string());
    assert_eq!(state.current_content("a", &block), "echo new");
    state.set_block_content("absent", "x".to_string());
    assert!(!state.blocks.contains_key("absent"));
}

#[test]
fn dependencies_in_order() {
    let mut block = Block::new("code:python", Some("p"), "");
    block.add_modifier("depends", "a");
    block.add_modifier("format", "json");
    block.add_modifier("if", "c");
    block.add_modifier("requires", "b");
    assert!(has_explicit_dependency(&block));
    assert_eq!(dependencies(&block), vec!["a".to_string(), "c".to_string(), "b".to_string()]);
    let plain = Block::new("code:python", Some("q"), "");
    assert!(!has_explicit_dependency(&plain));
    assert!(dependencies(&plain).is_empty());
}

#[test]
fn executable_block_types() {
    for t in ["code:python", "code:javascript", "code:rust", "shell", "api", "question", "conditional"] {
        assert!(is_executable_block(&Block::new(t, None, "")));
    }
    for t in ["code", "data", "code:ruby", "template"] {
        assert!(!is_executable_block(&Block::new(t, None, "")));
    }
}

#[test]
fn caching_rules() {
    let mut python = Block::new("code:python", Some("p"), "");
    assert!(!CacheManager::is_cacheable(&python, None));
    python.add_modifier("cache_result", "true");
    assert!(CacheManager::is_cacheable(&python, None));
    assert!(!CacheManager::is_cacheable(&python, Some("TRUE")));
    assert!(!CacheManager::is_cacheable(&python, Some("1")));
    assert!(CacheManager::is_cacheable(&python, Some("0")));
    python.add_modifier("never-cache", "on");
    assert!(!CacheManager::is_cacheable(&python, None));

    let mut shell = Block::new("shell", Some("s"), "");
    assert!(CacheManager::is_cacheable(&shell, None));
    shell.add_modifier("cache_result", "off");
    assert!(!CacheManager::is_cacheable(&shell, None));

    assert!(CacheManager::is_cacheable(&Block::new("code:ruby", None, ""), None));
    assert!(CacheManager::is_cacheable(&Block::new("api", None, ""), None));
    let mut data = Block::new("data", None, "");
    assert!(!CacheManager::is_cacheable(&data, None));
    data.add_modifier("cache_result", "yes");
    assert!(CacheManager::is_cacheable(&data, None));
}

#[test]
fn timeout_sources() {
    let mut block = Block::new("shell", None, "");
    assert_eq!(CacheManager::get_timeout(&block, None), 600);
    assert_eq!(CacheManager::get_timeout(&block, Some("45")), 45);
    assert_eq!(CacheManager::get_timeout(&block, Some("soon")), 600);
    block.add_modifier("timeout", "-3");
    block.add_modifier("timeout", "+12");
    assert_eq!(CacheManager::get_timeout(&block, Some("45")), 12);
}

#[test]
fn update_document_writes_cached_outputs() {
    let mut state = ExecutorState::new();
    let doc = "<meta:document>\n<meta:shell name=\"ls\"><![CDATA[ls]]></meta:shell>\n<meta:data name=\"d\">x</meta:data>\n</meta:document>";
    state.current_document = doc.to_string();
    state.blocks.insert("ls".to_string(), Block::new("shell", Some("ls"), "ls"));
    state.blocks.insert("d".to_string(), Block::new("data", Some("d"), "x"));
    state.outputs.insert("ls".to_string(), "file.txt".to_string());
    state.outputs.insert("ls_results".to_string(), "file.txt".to_string());
    state.outputs.insert("ls_error".to_string(), "none".to_string());
    state.outputs.insert("d".to_string(), "y".to_string());
    let updater = DocumentUpdater::new(&state, None);
    let updated = updater.update_document().unwrap();
    assert_eq!(
        updated,
        "<meta:document>\n<meta:shell name=\"ls\"><![CDATA[\nfile.txt\n  ]]></meta:shell>\n<meta:data name=\"d\">x</meta:data>\n</meta:document>"
    );
    let disabled = DocumentUpdater::new(&state, Some("true"));
    assert_eq!(disabled.update_document().unwrap(), doc);
}

#[test]
fn create_replacement_cases() {
    let state = ExecutorState::new();
    let updater = DocumentUpdater::new(&state, None);
    assert_eq!(
        updater.create_replacement("<meta:data name=\"d\">old</meta:data>", "new", false),
        Some("<meta:data name=\"d\">new</meta:data>".to_string())
    );
    assert_eq!(
        updater.create_replacement("<meta:code>old</meta:code>", "x = 1", true),
        Some("<meta:code><![CDATA[\nx = 1\n  ]]></meta:code>".to_string())
    );
    assert_eq!(updater.create_replacement("no tag here", "x", false), None);
    assert_eq!(updater.create_replacement("<a>never closed", "x", false), None);
}

#[test]
fn resolve_reference_blocks() {
    let mut blocks = TextMap::new();
    blocks.insert("cfg".to_string(), Block::new("data", Some("cfg"), "{\"a\": 1}"));
    let mut outputs = TextMap::new();
    outputs.insert("calc".to_string(), "42".to_string());
    let resolver = BlockReferenceResolver::new(&blocks, &outputs);

    let mut r1 = Block::new("reference", None, "");
    r1.add_modifier("target", "cfg");
    assert_eq!(resolver.resolve_reference_block(&r1), Ok("{\"a\": 1}".to_string()));

    let mut r2 = Block::new("reference", None, "");
    r2.add_modifier("target", "calc");
    assert_eq!(resolver.resolve_reference_block(&r2), Ok("42".to_string()));

    let mut r3 = Block::new("reference", None, "");
    r3.add_modifier("target", "nope");
    assert_eq!(resolver.resolve_reference_block(&r3), Err("Reference target 'nope' not found".to_string()));

    let r4 = Block::new("reference", None, "");
    assert_eq!(resolver.resolve_reference_block(&r4), Err("Reference missing target attribute".to_string()));
}

#[test]
fn conditional_runner_decisions() {
    let runner = ConditionalRunner;
    let mut state = ExecutorState::new();
    let mut block = Block::new("conditional", Some("c"), "shown");
    assert!(runner.can_execute(&block));
    assert_eq!(runner.execute("c", &block, &state).unwrap(), "shown");

    block.add_modifier("if", "check");
    match runner.execute("c", &block, &state) {
        Err(ExecutorError::ReferenceResolutionFailed(m)) => {
            assert_eq!(m, "Condition block 'check' has not been executed")
        },
        other => panic!("unexpected {:?}", other),
    }
    state.outputs.insert("check".to_string(), "  Yes \n".to_string());
    assert_eq!(runner.execute("c", &block, &state).unwrap(), "shown");
    state.outputs.insert("check".to_string(), "no".to_string());
    assert_eq!(runner.execute("c", &block, &state).unwrap(), "");

    block.add_modifier("test_mode", "1");
    assert_eq!(runner.execute("c", &block, &state).unwrap(), "shown");
    block.add_modifier("test_response", "canned");
    assert_eq!(runner.execute("c", &block, &state).unwrap(), "canned");
}

#[test]
fn question_runner_prompt_and_storage() {
    let runner = QuestionRunner;
    let mut state = ExecutorState::new();
    let mut block = Block::new("question", Some("ask"), "Why?");
    assert!(runner.can_execute(&block));
    assert_eq!(runner.test_response(&block, ""), None);
    assert_eq!(runner.test_response(&block, "yes"), Some("This is a simulated response for testing purposes.".to_string()));
    assert_eq!(runner.prompt(&block, &state), "Why?");
    block.add_modifier("system_prompt", "Be brief.");
    assert_eq!(runner.prompt(&block, &state), "Be brief.\n\nWhy?");
    block.add_modifier("context", "notes");
    assert_eq!(runner.prompt(&block, &state), "Be brief.\n\nWhy?");
    state.outputs.insert("notes".to_string(), "Sky is blue".to_string());
    assert_eq!(runner.prompt(&block, &state), "Context:\nSky is blue\n\nQuestion:\nBe brief.\n\nWhy?");

    runner.store_response(&block, &mut state, "Because.");
    assert_eq!(state.outputs.get("ask_response"), Some(&"Because.".to_string()));
    let unnamed = Block::new("question", None, "Who?");
    runner.store_response(&unnamed, &mut state, "Me.");
    assert_eq!(state.outputs.get("question_response"), Some(&"Me.".to_string()));
}

#[test]
fn code_runner_decisions() {
    let python = PythonRunner;
    let js = JavaScriptRunner;
    let mut block = Block::new("code", Some("p"), "print(1)");
    assert!(!python.can_execute(&block));
    block.add_modifier("language", "python");
    assert!(python.can_execute(&block));
    assert!(!js.can_execute(&block));
    assert!(js.can_execute(&Block::new("code:javascript", None, "")));
    assert_eq!(python.test_response(&block), None);
    block.add_modifier("test_mode", "yes");
    assert_eq!(python.test_response(&block), Some("Test mode - no response".to_string()));
    block.add_modifier("test_response", "7");
    assert_eq!(python.test_response(&block), Some("7".to_string()));

    assert_eq!(python.outcome(true, "  \"'done'\"\n", String::new()).unwrap(), "done");
    match python.outcome(false, "", "Traceback".to_string()) {
        Err(ExecutorError::ExecutionFailed(m)) => assert_eq!(m, "Traceback"),
        other => panic!("unexpected {:?}", other),
    }
    assert_eq!(js.outcome(true, " 3\n", String::new()).unwrap(), "3");
    let shell = ShellRunner;
    assert!(shell.can_execute(&Block::new("shell", None, "")));
    assert_eq!(shell.outcome(true, "a\n".to_string(), String::new()).unwrap(), "a\n");
}

#[test]
fn executor_error_texts() {
    assert_eq!(ExecutorError::BlockNotFound("x".to_string()).to_string(), "Block not found: x");
    assert_eq!(ExecutorError::CircularDependency("x".to_string()).to_string(), "Circular dependency: x");
    assert_eq!(ExecutorError::MissingApiKey("k".to_string()).to_string(), "Missing API key: k");
    let io = ExecutorError::from(std::io::Error::new(std::io::ErrorKind::Other, "disk"));
    assert_eq!(io.to_string(), "IO error: disk");
}

#[test]
fn cache_freshness_by_age() {
    assert!(CacheManager::is_fresh(0, 1));
    assert!(CacheManager::is_fresh(29_999, 30));
    assert!(!CacheManager::is_fresh(30_000, 30));
    assert!(!CacheManager::is_fresh(5, 0));
}

#[test]
fn questions_need_an_api_key() {
    let runner = QuestionRunner;
    assert!(runner.check_api_key("sk-test").is_ok());
    match runner.check_api_key("") {
        Err(ExecutorError::MissingApiKey(m)) => {
            assert_eq!(m, "No API key provided for LLM. Set via block modifier or environment variable.")
        },
        other => panic!("unexpected {:?}", other),
    }
}

#[test]
fn plans_for_questions_and_conditionals() {
    let mut blocks: TextMap<Block> = TextMap::new();
    blocks.insert("q1".to_string(), Block::new("question", Some("q1"), "why?"));
    blocks.insert("c".to_string(), Block::new("code:python", Some("c"), "print(1)"));
    let mut cond = Block::new("conditional", Some("when"), "");
    cond.add_modifier("if", "check");
    cond.add_child(Block::new("code:python", Some("then-a"), "a"));
    cond.add_child(Block::new("code:python", None, "unnamed"));
    cond.add_child(Block::new("shell", Some("then-b"), "b"));
    blocks.insert("when".to_string(), cond);
    blocks.insert("plain".to_string(), Block::new("conditional", Some("plain"), ""));
    blocks.insert("q2".to_string(), Block::new("question", Some("q2"), "how?"));

    assert_eq!(names_of_type(&blocks, "question"), vec!["q1".to_string(), "q2".to_string()]);
    let plans = conditional_plans(&blocks);
    assert_eq!(plans.len(), 1);
    assert_eq!(plans[0].conditional, "when");
    assert_eq!(plans[0].condition, "check");
    assert_eq!(plans[0].children, vec!["then-a".to_string(), "then-b".to_string()]);
}

#[test]
fn cached_outputs_are_used_while_fresh() {
    let mut state = ExecutorState::new();
    let block = Block::new("shell", Some("p"), "echo 1");
    state.blocks.insert("p".to_string(), block.copy());
    let now = std::time::Instant::now();
    assert_eq!(state.cached_output("p", &block, None, None, now), None);
    state.cache.insert("p".to_string(), ("1".to_string(), now));
    assert_eq!(state.cached_output("p", &block, None, None, now), Some("1".to_string()));
    assert_eq!(state.cached_output("p", &block, Some("1"), None, now), None);
    let later = now + std::time::Duration::from_secs(700);
    assert_eq!(state.cached_output("p", &block, None, None, later), None);
    assert_eq!(state.cached_output("p", &block, None, Some("1000"), later), Some("1".to_string()));
    let plain = Block::new("data", Some("d"), "x");
    state.cache.insert("d".to_string(), ("x".to_string(), now));
    assert_eq!(state.cached_output("d", &plain, None, None, now), None);
}
