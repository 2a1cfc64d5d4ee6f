use yet_another_llm_project_but_better::parser::blocks::Block;
use yet_another_llm_project_but_better::parser::document_processor::update_document;

#[test]
fn test_response_block() {
    let mut block = Block::new("response", None, "The three laws of robotics, as defined by Isaac Asimov, are:
1. A robot may not injure a human being or, through inaction, allow a human being to come to harm.
2. A robot must obey the orders given it by human beings except where such orders would conflict with the First Law.
3. A robot must protect its own existence as long as such protection does not conflict with the First or Second Law.");

    block.add_modifier("timestamp", "2023-05-15T14:30:00Z");
    block.add_modifier("tokens", "150");

    assert_eq!(block.block_type, "response");
    assert_eq!(block.content.lines().count(), 4);

    let timestamp = block.get_modifier("timestamp");
    assert_eq!(timestamp, Some(&"2023-05-15T14:30:00Z".to_string()));
}

#[test]
fn test_unnamed_question_response_pairing() {
    let mut blocks = vec![
        Block::new("question", None, "What is the meaning of life?"),
        Block::new("response", None, "42"),
    ];

    update_document(&mut blocks);

    assert!(blocks[1].has_modifier("question_ref"));
    assert_eq!(blocks[1].get_modifier("question_ref").unwrap(), "0");
}

#[test]
fn test_named_question_response_pairing() {
    let mut blocks = vec![
        Block::new("question", Some("q1"), "What is the meaning of life?"),
        Block::new("response", Some("q1"), "42"),
    ];

    update_document(&mut blocks);

    assert!(blocks[1].has_modifier("question_ref"));
    assert_eq!(blocks[1].get_modifier("question_ref").unwrap(), "0");
}

#[test]
fn responses_link_to_their_questions() {
    let mut blocks = vec![
        Block::new("question", None, "first?"),
        Block::new("question", Some("named"), "second?"),
        Block::new("data", None, "x"),
        Block::new("question", None, "third?"),
        Block::new("response", None, "to third"),
        Block::new("response", Some("named"), "to second"),
        Block::new("response", Some("nobody"), "orphan"),
    ];

    update_document(&mut blocks);

    assert_eq!(blocks[4].get_modifier("question_ref"), Some(&"3".to_string()));
    assert_eq!(blocks[5].get_modifier("question_ref"), Some(&"1".to_string()));
    assert!(!blocks[6].has_modifier("question_ref"));
    assert!(!blocks[2].has_modifier("question_ref"));
}

#[test]
fn unnamed_response_before_any_question_stays_unlinked() {
    let mut blocks = vec![Block::new("response", None, "early"), Block::new("question", None, "late?")];
    update_document(&mut blocks);
    assert!(!blocks[0].has_modifier("question_ref"));
}
