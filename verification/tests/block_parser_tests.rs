use yet_another_llm_project_but_better::parser::block_parsers::control_blocks::parse_section_block;
use yet_another_llm_project_but_better::parser::block_parsers::executable_blocks::parse_code_block;
use yet_another_llm_project_but_better::parser::block_parsers::template_blocks::parse_template_block;
use yet_another_llm_project_but_better::parser::blocks::code_exec::extract_api_modifiers_from_tag;
use yet_another_llm_project_but_better::parser::ParserError;

fn pairs(v: &[(&str, &str)]) -> Vec<(String, String)> {
    v.iter().map(|(k, x)| (k.to_string(), x.to_string())).collect()
}

#[test]
fn section_block_with_modifiers() {
    let b = parse_section_block("[section:intro name:s1 level:2 title:\"Hi\"]\nBody\n[/section:intro]").unwrap();
    assert_eq!(b.block_type, "section:intro");
    assert_eq!(b.name, Some("s1".to_string()));
    assert_eq!(b.content, "Body");
    assert_eq!(b.modifiers, pairs(&[("level", "2"), ("title", "Hi")]));
    match parse_section_block("[section:intro]Body") {
        Err(ParserError::ParseError(m)) => assert_eq!(m, "Missing closing tag: [/section:intro]"),
        other => panic!("unexpected {:?}", other),
    }
}

#[test]
fn code_block_with_modifiers() {
    let b = parse_code_block("[code:python name:calc cache_result:\"true\" timeout:30]\nprint(1)\n[/code:python]").unwrap();
    assert_eq!(b.block_type, "code:python");
    assert_eq!(b.name, Some("calc".to_string()));
    assert_eq!(b.content, "print(1)");
    assert_eq!(b.modifiers, pairs(&[("cache_result", "true"), ("timeout", "30")]));
}

#[test]
fn template_block_requires_name() {
    let b = parse_template_block("[template name:greet lang:en]Hello ${name}[/template]").unwrap();
    assert_eq!(b.block_type, "template");
    assert_eq!(b.name, Some("greet".to_string()));
    assert_eq!(b.content, "Hello ${name}");
    assert_eq!(b.modifiers, pairs(&[("lang", "en")]));
    match parse_template_block("[template]x[/template]") {
        Err(ParserError::ParseError(m)) => assert_eq!(m, "Template block requires a name"),
        other => panic!("unexpected {:?}", other),
    }
}

#[test]
fn api_tag_modifiers() {
    assert_eq!(
        extract_api_modifiers_from_tag("[api name:weather method:GET header:\"X: 1\"]"),
        pairs(&[("name", "weather"), ("method", "GET"), ("header", "X: 1")])
    );
    assert!(extract_api_modifiers_from_tag("[code x:1]").is_empty());
}
