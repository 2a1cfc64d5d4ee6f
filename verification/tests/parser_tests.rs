use yet_another_llm_project_but_better::parser::block_parser::{has_matching_closing_tag, validate_block_structure};
use yet_another_llm_project_but_better::parser::block_parsers::communication_blocks::parse_question_block;
use yet_another_llm_project_but_better::parser::block_parsers::data_blocks::parse_data_block;
use yet_another_llm_project_but_better::parser::block_parsers::results_blocks::{parse_error_results_block, parse_results_block};
use yet_another_llm_project_but_better::parser::blocks::Block;
use yet_another_llm_project_but_better::parser::modifiers::dependency::extract_dependencies;
use yet_another_llm_project_but_better::parser::modifiers::{extract_modifier_value, extract_modifiers_from_text};
use yet_another_llm_project_but_better::parser::utils::extractors::extract_variable_references;
use yet_another_llm_project_but_better::parser::utils::validators::check_duplicate_names;
use yet_another_llm_project_but_better::parser::xml_parser::{blocks_from_xml_events, parse_xml_document, XmlEvent};
use yet_another_llm_project_but_better::parser::{is_valid_block_type, parse_document, ParserError};

fn pairs(v: &[(&str, &str)]) -> Vec<(String, String)> {
    v.iter().map(|(k, x)| (k.to_string(), x.to_string())).collect()
}

#[test]
fn xml_document_with_nested_blocks() {
    let doc = "<meta:document xmlns:meta=\"https://example.com/meta-language\">\n  <meta:section name=\"intro\" type=\"introduction\">\n    Intro text\n    <meta:code name=\"hello\" type=\"python\"><![CDATA[print(\"hi\")]]></meta:code>\n  </meta:section>\n  <meta:unknown>ignored</meta:unknown>\n  <meta:data name:cfg=\"x\">v</meta:data>\n</meta:document>";
    let blocks = parse_document(doc).unwrap();
    assert_eq!(blocks.len(), 2);
    let section = &blocks[0];
    assert_eq!(section.block_type, "section");
    assert_eq!(section.name, Some("intro".to_string()));
    assert_eq!(section.modifiers, pairs(&[("type", "introduction")]));
    assert_eq!(section.content, "Intro text");
    assert_eq!(section.children.len(), 1);
    let code = &section.children[0];
    assert_eq!(code.block_type, "code");
    assert_eq!(code.name, Some("hello".to_string()));
    assert_eq!(code.modifiers, pairs(&[("language", "python")]));
    assert_eq!(code.content, "print(\"hi\")");
    let data = &blocks[1];
    assert_eq!(data.block_type, "data");
    assert_eq!(data.name, Some("cfg".to_string()));
    assert_eq!(data.content, "v");
}

#[test]
fn xml_document_without_blocks_fails() {
    match parse_document("<meta:document></meta:document>") {
        Err(ParserError::ParseError(m)) => assert_eq!(
            m,
            "XML parsing failed: Failed to parse document: No valid blocks found in XML document"
        ),
        other => panic!("unexpected {:?}", other),
    }
    match parse_xml_document("<document><meta:code>x</meta:code></document><meta:data>y</meta:data>") {
        Ok(blocks) => {
            assert_eq!(blocks.len(), 1);
            assert_eq!(blocks[0].block_type, "code");
        },
        other => panic!("unexpected {:?}", other),
    }
}

#[test]
fn xml_document_with_mismatched_tags_fails() {
    match parse_document("<meta:document><meta:code>x</meta:data></meta:document>") {
        Err(ParserError::ParseError(m)) => {
            assert!(m.starts_with("XML parsing failed: Failed to parse document: XML parsing error: "), "{}", m)
        },
        other => panic!("unexpected {:?}", other),
    }
}

#[test]
fn blocks_from_events_builds_and_stops() {
    let events = vec![
        XmlEvent::Start { name: "meta:document".to_string(), attributes: vec![] },
        XmlEvent::Start {
            name: "meta:meta:question".to_string(),
            attributes: vec![Some(("name".to_string(), "q".to_string())), None],
        },
        XmlEvent::Text { text: Some(" Why? ".to_string()) },
        XmlEvent::CData { text: "!".to_string() },
        XmlEvent::End { name: "meta:question".to_string() },
        XmlEvent::Eof,
        XmlEvent::Error { message: "never read".to_string() },
    ];
    let blocks = blocks_from_xml_events(&events).unwrap();
    assert_eq!(blocks.len(), 1);
    assert_eq!(blocks[0].block_type, "question");
    assert_eq!(blocks[0].name, Some("q".to_string()));
    assert_eq!(blocks[0].content, "Why? !");

    let failing = vec![XmlEvent::Error { message: "bad".to_string() }];
    match blocks_from_xml_events(&failing) {
        Err(ParserError::ParseError(m)) => assert_eq!(m, "XML parsing error: bad"),
        other => panic!("unexpected {:?}", other),
    }
}

#[test]
fn block_type_validity() {
    assert!(is_valid_block_type("code"));
    assert!(is_valid_block_type("code:python"));
    assert!(is_valid_block_type("template_invocation"));
    assert!(!is_valid_block_type("codes"));
    assert!(!is_valid_block_type("unknown:code"));
}

#[test]
fn parse_error_texts() {
    assert_eq!(ParserError::DuplicateBlockName("x".to_string()).to_string(), "Duplicate block name: x");
    assert_eq!(ParserError::InvalidBlockType("y".to_string()).to_string(), "Invalid block type: y");
}

#[test]
fn data_and_question_blocks() {
    let data = parse_data_block("[data name:cfg format:json]\n{\"a\": 1}\n[/data]").unwrap();
    assert_eq!(data.block_type, "data");
    assert_eq!(data.name, Some("cfg".to_string()));
    assert_eq!(data.content, "{\"a\": 1}");
    assert_eq!(data.get_modifier("format"), Some(&"json".to_string()));

    let q = parse_question_block("[question name:ask model:gpt-4]What?[/question]").unwrap();
    assert_eq!(q.name, Some("ask".to_string()));
    assert_eq!(q.content, "What?");
    assert_eq!(q.modifiers, pairs(&[("model", "gpt-4")]));
}

#[test]
fn results_blocks() {
    let r = parse_results_block("[results for:\"my block\" format:json display:inline]\n output \n[/results]").unwrap();
    assert_eq!(r.block_type, "results");
    assert_eq!(r.name, None);
    assert_eq!(r.content, "output");
    assert_eq!(r.modifiers, pairs(&[("for", "my block"), ("format", "json"), ("display", "inline")]));

    let e = parse_error_results_block("[error_results for:calc]oops[/error_results]").unwrap();
    assert_eq!(e.block_type, "error_results");
    assert_eq!(e.content, "oops");
    assert_eq!(e.modifiers, pairs(&[("for", "calc")]));

    match parse_results_block("text") {
        Err(ParserError::ParseError(m)) => assert_eq!(m, "Not a results block: text"),
        other => panic!("unexpected {:?}", other),
    }
    match parse_error_results_block("[results]x[/results]") {
        Err(ParserError::ParseError(m)) => assert_eq!(m, "Not an error_results block: [results]x[/results]"),
        other => panic!("unexpected {:?}", other),
    }
}

#[test]
fn variable_references() {
    let refs = extract_variable_references(
        "a __META_REFERENCE__x-1 b <meta:reference target=\"y\"/> c <meta:reference other=\"z\"/>",
    );
    assert_eq!(refs, vec!["x-1".to_string(), "y".to_string()]);
    assert!(extract_variable_references("plain text").is_empty());
    assert!(extract_variable_references("<meta:reference target=\"open\"").is_empty());
}

#[test]
fn duplicate_names() {
    let ok = vec![
        Block::new("code", Some("a"), ""),
        Block::new("template_invocation", Some("a"), ""),
        Block::new("data", Some("b"), ""),
    ];
    assert!(check_duplicate_names(&ok).is_ok());
    let bad = vec![
        Block::new("code", Some("a"), ""),
        Block::new("template_invocation", Some("a"), ""),
        Block::new("data", Some("a"), ""),
    ];
    match check_duplicate_names(&bad) {
        Err(ParserError::DuplicateBlockName(n)) => assert_eq!(n, "a"),
        other => panic!("unexpected {:?}", other),
    }
}

#[test]
fn closing_tags() {
    assert!(has_matching_closing_tag("[code:python name:x]\nprint(1)\n[/code:python]"));
    assert!(!has_matching_closing_tag("[data name:x]\n1\n"));
    assert!(!has_matching_closing_tag("no tag"));
    assert!(validate_block_structure("[data]1[/data]").is_ok());
    match validate_block_structure("[data]1") {
        Err(ParserError::InvalidBlockStructure(m)) => assert_eq!(m, "Missing or invalid closing tag"),
        other => panic!("unexpected {:?}", other),
    }
}

#[test]
fn modifiers_from_text() {
    let mods = extract_modifiers_from_text("name:foo format:json depends:a,b color:\"red\"");
    assert_eq!(
        mods,
        pairs(&[
            ("name", "foo"),
            ("depends", "a,b"),
            ("depends:a", "a"),
            ("depends:b", "b"),
            ("format", "json"),
            ("color", "red"),
        ])
    );
    assert_eq!(extract_dependencies("requires:x"), pairs(&[("requires", "x")]));
    assert_eq!(extract_modifier_value("\"quoted\""), "quoted");
    assert_eq!(extract_modifier_value("\""), "\"");
    assert_eq!(extract_modifier_value("plain"), "plain");
}

#[test]
fn modifier_read_after_add() {
    let mut block = Block::new("code", None, "");
    block.add_modifier("lang", "python");
    block.add_modifier("lang", "rust");
    assert!(block.has_modifier("lang"));
    assert_eq!(block.get_modifier("lang"), Some(&"python".to_string()));
    assert_eq!(block.get_modifier("other"), None);
    block.add_modifier("auto", "YES");
    assert!(block.is_modifier_true("auto"));
    block.add_modifier("off", "nope");
    assert!(!block.is_modifier_true("off"));
}

#[test]
fn dollar_and_tag_references() {
    let refs = extract_variable_references("x = ${a}; y = <meta:reference target=\"b\"/>");
    assert!(refs.contains(&"a".to_string()));
    assert!(refs.contains(&"b".to_string()));
    assert_eq!(refs, vec!["b".to_string(), "a".to_string()]);
    assert_eq!(extract_variable_references("data = ${test-data}\nresult = sum(data)"), vec!["test-data".to_string()]);
    assert!(extract_variable_references("${} and ${unclosed").is_empty());
}

#[test]
fn xml_section_with_data_child() {
    let blocks = parse_xml_document(
        "<meta:document><meta:section type='intro' name='s'><meta:data name='d'>x</meta:data></meta:section></meta:document>",
    )
    .unwrap();
    assert_eq!(blocks.len(), 1);
    assert_eq!(blocks[0].block_type, "section");
    assert_eq!(blocks[0].name, Some("s".to_string()));
    assert_eq!(blocks[0].modifiers, pairs(&[("type", "intro")]));
    assert_eq!(blocks[0].content, "");
    assert_eq!(blocks[0].children.len(), 1);
    assert_eq!(blocks[0].children[0].block_type, "data");
    assert_eq!(blocks[0].children[0].name, Some("d".to_string()));
    assert_eq!(blocks[0].children[0].content, "x");
}

#[test]
fn xml_code_with_cdata() {
    let blocks = parse_xml_document(
        "<meta:document><meta:code language='python' name='c' timeout='30'><![CDATA[print(1 < 2)]]></meta:code></meta:document>",
    )
    .unwrap();
    assert_eq!(blocks.len(), 1);
    assert_eq!(blocks[0].block_type, "code");
    assert_eq!(blocks[0].name, Some("c".to_string()));
    assert_eq!(blocks[0].modifiers, pairs(&[("language", "python"), ("timeout", "30")]));
    assert_eq!(blocks[0].content, "print(1 < 2)");
    assert!(blocks[0].children.is_empty());
}

#[test]
fn xml_error_results_block() {
    let blocks = parse_xml_document(
        "<meta:document xmlns:meta='https://example.com/meta-language'><meta:error-results for='failed-block'>Error message details</meta:error-results></meta:document>",
    )
    .unwrap();
    assert_eq!(blocks.len(), 1);
    assert_eq!(blocks[0].block_type, "error-results");
    assert_eq!(blocks[0].get_modifier("for"), Some(&"failed-block".to_string()));
    assert_eq!(blocks[0].content, "Error message details");
    assert!(is_valid_block_type("template-invocation"));
}

#[test]
fn readme_usage_document() {
    let doc = "<meta:document xmlns:meta=\"https://example.com/meta-language\">\n  <meta:data name=\"user-info\" format=\"json\">\n  <![CDATA[\n  {\"name\": \"Alice\", \"role\": \"Developer\"}\n  ]]>\n  </meta:data>\n  <meta:code language=\"python\" name=\"greet-user\" depends=\"user-info\">\n  <![CDATA[\n  import json\n  print('hi')\n  ]]>\n  </meta:code>\n</meta:document>";
    let blocks = parse_document(doc).unwrap();
    assert_eq!(blocks.len(), 2);
    assert_eq!(blocks[0].block_type, "data");
    assert_eq!(blocks[0].name, Some("user-info".to_string()));
    assert_eq!(blocks[0].modifiers, pairs(&[("format", "json")]));
    assert_eq!(blocks[0].content, "{\"name\": \"Alice\", \"role\": \"Developer\"}");
    assert_eq!(blocks[1].block_type, "code");
    assert_eq!(blocks[1].name, Some("greet-user".to_string()));
    assert_eq!(blocks[1].modifiers, pairs(&[("language", "python"), ("depends", "user-info")]));
}
