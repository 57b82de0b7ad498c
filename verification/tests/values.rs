use abnf_converter::{
    contains_node, GrammarNode, Repeat, Rule, StringLiteral, TerminalValues,
};

fn samples() -> Vec<GrammarNode> {
    let name = |text: &str| GrammarNode::Rulename(text.to_string());
    vec![
        name("a"),
        name("b"),
        GrammarNode::Prose("a".to_string()),
        GrammarNode::String(StringLiteral::new("a".to_string(), false)),
        GrammarNode::String(StringLiteral::new("a".to_string(), true)),
        GrammarNode::Group(Box::new(name("a"))),
        GrammarNode::Optional(Box::new(name("a"))),
        GrammarNode::Alternatives(vec![name("a"), name("b")]),
        GrammarNode::Alternatives(vec![name("a")]),
        GrammarNode::Alternatives(vec![name("b"), name("a")]),
        GrammarNode::Concatenation(vec![name("a"), name("b")]),
        GrammarNode::TerminalValues(TerminalValues::Range(1, 2)),
        GrammarNode::TerminalValues(TerminalValues::Range(1, 3)),
        GrammarNode::TerminalValues(TerminalValues::Concatenation(vec![1, 2])),
        GrammarNode::TerminalValues(TerminalValues::Concatenation(vec![1, 2, 3])),
        GrammarNode::Repetition { repeat: Repeat::Specific(1), node: Box::new(name("a")) },
        GrammarNode::Repetition { repeat: Repeat::Specific(2), node: Box::new(name("a")) },
        GrammarNode::Repetition { repeat: Repeat::Specific(1), node: Box::new(name("b")) },
        GrammarNode::Repetition {
            repeat: Repeat::Variable { min: Some(1), max: None },
            node: Box::new(name("a")),
        },
        GrammarNode::Repetition {
            repeat: Repeat::Variable { min: None, max: Some(1) },
            node: Box::new(name("a")),
        },
        GrammarNode::Repetition {
            repeat: Repeat::Variable { min: Some(1), max: Some(1) },
            node: Box::new(name("a")),
        },
        GrammarNode::Repetition {
            repeat: Repeat::Variable { min: None, max: None },
            node: Box::new(name("a")),
        },
    ]
}

#[test]
fn same_as_tells_the_samples_apart() {
    let nodes = samples();
    for (i, a) in nodes.iter().enumerate() {
        for (j, b) in nodes.iter().enumerate() {
            assert_eq!(a.same_as(b), i == j);
            assert_eq!(a.same_as(b), a == b);
        }
    }
}

#[test]
fn clone_is_the_same_node() {
    for node in samples() {
        let copy = node.clone();
        assert!(copy.same_as(&node));
        assert_eq!(copy, node);
    }
}

#[test]
fn contains_node_finds_equal_nodes_only() {
    let nodes = samples();
    for (i, node) in nodes.iter().enumerate() {
        assert!(contains_node(&nodes, &node.clone()));
        assert!(!contains_node(&nodes[..i], node));
        assert!(!contains_node(&nodes[i + 1..], node));
    }
    assert!(!contains_node(&[], &nodes[0]));
}

#[test]
fn rule_keeps_name_and_node() {
    let node = GrammarNode::Group(Box::new(GrammarNode::Rulename("x".to_string())));
    let rule = Rule::new("my-rule", node.clone());
    assert_eq!(rule.name(), "my-rule");
    assert_eq!(rule.node(), &node);
    assert_eq!(rule.clone(), rule);
}

#[test]
fn literal_keeps_text_and_case() {
    let literal = StringLiteral::new("Text".to_string(), true);
    assert_eq!(literal.as_str(), "Text");
    assert!(literal.case_sensitive);
    assert!(!StringLiteral::new("Text".to_string(), false).case_sensitive);
}
