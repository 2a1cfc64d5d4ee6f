use yet_another_llm_project_but_better::executor::error::ExecutorError;
use yet_another_llm_project_but_better::executor::resolver::{
    attribute_value, flatten_references, flatten_tree, join_pass, process_blocks, process_references, process_tree,
    substitute_variables, RefElement, RefNode, ReferenceResolver,
};
use yet_another_llm_project_but_better::parser::blocks::Block;
use yet_another_llm_project_but_better::executor::state::ExecutorState;
use yet_another_llm_project_but_better::text_map::TextMap;

fn element(name: &str, target: Option<&str>, children: Vec<RefNode>) -> RefElement {
    RefElement {
        prefix: None,
        namespace: None,
        namespaces: None,
        name: name.to_string(),
        attributes: target.map(|t| vec![("target".to_string(), t.to_string())]).unwrap_or_default(),
        children,
    }
}

fn texts(e: &RefElement) -> Vec<String> {
    e.children
        .iter()
        .map(|c| match c {
            RefNode::Text(t) => format!("text:{}", t),
            RefNode::Element(el) => format!("element:{}", el.name),
            _ => "other".to_string(),
        })
        .collect()
}

#[test]
fn references_resolve_to_outputs_or_placeholders() {
    let mut outputs = TextMap::new();
    outputs.insert("x".to_string(), "1".to_string());
    let root = element(
        "root",
        None,
        vec![
            RefNode::Element(element("meta:reference", Some("x"), vec![])),
            RefNode::Text("a".to_string()),
            RefNode::Element(element("p", None, vec![RefNode::Element(element("my:reference", Some("y"), vec![]))])),
            RefNode::Element(element("meta:reference", None, vec![])),
        ],
    );
    let r = process_tree(&root, &outputs);
    assert_eq!(texts(&r), vec!["text:1", "text:a", "element:p", "element:meta:reference"]);
    match &r.children[2] {
        RefNode::Element(p) => assert_eq!(texts(p), vec!["text:UNRESOLVED_REFERENCE:y"]),
        _ => panic!("expected an element"),
    }

    let reference = element("meta:reference", Some("x"), vec![RefNode::Text("old".to_string())]);
    assert_eq!(texts(&process_tree(&reference, &outputs)), vec!["text:1"]);
}

#[test]
fn flattening_lifts_single_texts() {
    let root = element(
        "root",
        None,
        vec![
            RefNode::Element(element("meta:reference", Some("x"), vec![RefNode::Text("v".to_string())])),
            RefNode::Element(element(
                "meta:reference",
                Some("y"),
                vec![RefNode::Text("a".to_string()), RefNode::Text("b".to_string())],
            )),
            RefNode::Element(element("div", None, vec![RefNode::Text("w".to_string())])),
        ],
    );
    let f = flatten_tree(&root);
    assert_eq!(texts(&f), vec!["text:v", "element:meta:reference", "element:div"]);
}

#[test]
fn content_passes() {
    let state = ExecutorState::new();
    let resolver = ReferenceResolver::new(&state, false);
    let (text, more) = resolver.process_content_pass("plain <b>bold</b>").unwrap();
    assert_eq!(text, "plain <b>bold</b>");
    assert!(!more);
    let (again, more_refs) = resolver.process_content_pass("see <meta:reference target=\"x\"/>").unwrap();
    assert!(again.contains(":reference"));
    assert!(more_refs);
}

#[test]
fn malformed_content_is_an_xml_error() {
    let state = ExecutorState::new();
    let resolver = ReferenceResolver::new(&state, false);
    match resolver.process_content_pass("a:reference <unclosed") {
        Err(ExecutorError::XmlParsingError(m)) => assert!(m.starts_with("XML parse error: "), "{}", m),
        other => panic!("unexpected {:?}", other),
    }
}

#[test]
fn trees_without_references_stay_the_same() {
    let mut outputs = TextMap::new();
    outputs.insert("x".to_string(), "1".to_string());
    let root = element(
        "root",
        None,
        vec![
            RefNode::Text("a".to_string()),
            RefNode::Element(element("p", Some("x"), vec![RefNode::Text("b".to_string())])),
        ],
    );
    let r = process_tree(&root, &outputs);
    assert_eq!(texts(&r), texts(&root));
    match &r.children[1] {
        RefNode::Element(p) => {
            assert_eq!(attribute_value(&p.attributes, "target"), Some("x".to_string()));
            assert_eq!(texts(p), vec!["text:b"]);
        },
        _ => panic!("expected an element"),
    }
}

#[test]
fn attribute_lookup_takes_the_first_value() {
    let attrs = vec![
        ("name".to_string(), "a".to_string()),
        ("target".to_string(), "t1".to_string()),
        ("target".to_string(), "t2".to_string()),
    ];
    assert_eq!(attribute_value(&attrs, "target"), Some("t1".to_string()));
    assert_eq!(attribute_value(&attrs, "missing"), None);
}

#[test]
fn element_references_are_resolved_in_place() {
    let mut state = ExecutorState::new();
    state.outputs.insert("x".to_string(), "one".to_string());
    let resolver = ReferenceResolver::new(&state, false);
    let mut root = element(
        "root",
        None,
        vec![
            RefNode::Text("v=".to_string()),
            RefNode::Element(element("meta:reference", Some("x"), vec![])),
        ],
    );
    resolver.process_element_references(&mut root).unwrap();
    assert_eq!(texts(&root), vec!["text:v=", "text:one"]);

    let mut nested = element(
        "root",
        None,
        vec![RefNode::Element(element("meta:reference", Some("x"), vec![RefNode::Text("one".to_string())]))],
    );
    flatten_references(&mut nested);
    assert_eq!(texts(&nested), vec!["text:one"]);
}

#[test]
fn passes_join_texts_and_written_elements() {
    let children = vec![
        RefNode::Text("a".to_string()),
        RefNode::Element(element("b", None, vec![])),
        RefNode::Comment("c".to_string()),
        RefNode::Text("d".to_string()),
    ];
    let writes = vec![
        Ok(String::new()),
        Ok("<b/>".to_string()),
        Ok("ignored".to_string()),
        Ok(String::new()),
    ];
    assert_eq!(join_pass(&children, &writes).unwrap(), ("a<b/>d".to_string(), false));

    let more = vec![RefNode::Text("see x:reference".to_string())];
    assert_eq!(join_pass(&more, &vec![Ok(String::new())]).unwrap(), ("see x:reference".to_string(), true));

    let failing = vec![Ok(String::new()), Err("boom".to_string()), Ok(String::new()), Ok(String::new())];
    match join_pass(&children, &failing) {
        Err(ExecutorError::XmlParsingError(m)) => assert_eq!(m, "Failed to write element: boom"),
        other => panic!("unexpected {:?}", other),
    }
}

#[test]
fn content_pass_keeps_text_around_elements() {
    let state = ExecutorState::new();
    let resolver = ReferenceResolver::new(&state, false);
    let (text, more) = resolver.process_content_pass("head <b>bold</b> tail x:reference").unwrap();
    assert!(text.starts_with("head "), "{}", text);
    assert!(text.contains("<b ") && text.contains(">bold</b>"), "{}", text);
    assert!(text.ends_with(" tail x:reference"), "{}", text);
    assert!(more);
}

fn upper_refs(s: &str) -> Result<String, ExecutorError> {
    Ok(s.replace("<meta:reference target=\"x\"/>", "X"))
}

#[test]
fn blocks_are_resolved_and_recorded_as_outputs() {
    let mut blocks: TextMap<Block> = TextMap::new();
    blocks.insert("a".to_string(), Block::new("data", Some("a"), "v=<meta:reference target=\"x\"/>"));
    blocks.insert("b".to_string(), Block::new("code:python", Some("b"), "print(1)"));
    blocks.insert("c".to_string(), Block::new("code:python", Some("c"), "<meta:reference target=\"x\"/>"));
    let mut outputs: TextMap<String> = TextMap::new();
    outputs.insert("other".to_string(), "kept".to_string());
    let names = vec!["a".to_string(), "b".to_string(), "missing".to_string()];
    process_blocks(&upper_refs, &mut blocks, &mut outputs, &names).unwrap();
    assert_eq!(blocks.get("a").unwrap().content, "v=X");
    assert_eq!(blocks.get("b").unwrap().content, "print(1)");
    assert_eq!(blocks.get("c").unwrap().content, "<meta:reference target=\"x\"/>");
    assert_eq!(outputs.get("a").unwrap(), "v=X");
    assert_eq!(outputs.get("b").unwrap(), "print(1)");
    assert_eq!(outputs.get("other").unwrap(), "kept");
    assert!(outputs.get("c").is_none());
    assert!(outputs.get("missing").is_none());

    process_references(&upper_refs, &mut blocks, &mut outputs).unwrap();
    assert_eq!(blocks.get("c").unwrap().content, "X");
    assert_eq!(outputs.get("c").unwrap(), "X");
    assert_eq!(outputs.get("b").unwrap(), "print(1)");
}

fn failing_resolve(_s: &str) -> Result<String, ExecutorError> {
    Err(ExecutorError::XmlParsingError("bad".to_string()))
}

#[test]
fn a_resolution_error_is_returned() {
    let mut blocks: TextMap<Block> = TextMap::new();
    blocks.insert("a".to_string(), Block::new("data", Some("a"), "<meta:reference target=\"x\"/>"));
    let mut outputs: TextMap<String> = TextMap::new();
    let names = vec!["a".to_string()];
    match process_blocks(&failing_resolve, &mut blocks, &mut outputs, &names) {
        Err(ExecutorError::XmlParsingError(m)) => assert_eq!(m, "bad"),
        other => panic!("unexpected {:?}", other),
    }
}

#[test]
fn test_variable_reference_to_results() {
    let mut state = ExecutorState::new();
    state.outputs.insert("generate-data.results".to_string(), "[1, 2, 3, 4, 5]".to_string());
    let resolver = ReferenceResolver::new(&state, false);
    let content = "import json\ndata = ${generate-data.results}\nprint(f\"Sum: {sum(data)}\")";
    let (processed, more) = resolver.process_content_pass(content).unwrap();
    assert!(!processed.contains("${generate-data.results}"), "Variable reference should be replaced");
    assert!(processed.contains("[1, 2, 3, 4, 5]"), "Processed content should contain the data array");
    assert!(!more);
}

#[test]
fn dollar_references_are_substituted_where_known() {
    let mut outputs = TextMap::new();
    outputs.insert("a".to_string(), "1".to_string());
    assert_eq!(substitute_variables("x=${a}, y=${b}, z=${a", &outputs), "x=1, y=${b}, z=${a");
    assert_eq!(substitute_variables("no refs", &outputs), "no refs");
    assert_eq!(substitute_variables("${a}${a}", &outputs), "11");
}

#[test]
fn blocks_without_references_are_left_alone() {
    let mut blocks: TextMap<Block> = TextMap::new();
    blocks.insert("a".to_string(), Block::new("data", Some("a"), "plain"));
    blocks.insert("b".to_string(), Block::new("code:python", Some("b"), "print(1)"));
    let mut outputs: TextMap<String> = TextMap::new();
    let names = vec!["a".to_string(), "b".to_string()];
    process_blocks(&failing_resolve, &mut blocks, &mut outputs, &names).unwrap();
    assert_eq!(blocks.get("a").unwrap().content, "plain");
    assert_eq!(outputs.get("a").unwrap(), "plain");
    assert_eq!(outputs.get("b").unwrap(), "print(1)");
    process_references(&failing_resolve, &mut blocks, &mut outputs).unwrap();
    assert_eq!(blocks.get("b").unwrap().content, "print(1)");
}
