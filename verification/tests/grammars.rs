use abnf_converter::{
    abnf_to_json, add_missing_body_brackets, extract_nested_grups_from_rules,
    extract_rules_for_nested_groups, json_rule_body_from_group, json_rule_name_from_group,
    parse_rulelist, rule_to_json, ruleset_to_json, ConvertError, GrammarNode, Repeat, Rule,
    StringLiteral, TerminalValues,
};

fn rulename(name: &str) -> GrammarNode {
    GrammarNode::Rulename(name.to_string())
}

fn group(inner: GrammarNode) -> GrammarNode {
    GrammarNode::Group(Box::new(inner))
}

const START: &str = "  \"<start>\": [[\"<program>\"]],\n";

#[test]
fn brackets_are_added_where_missing() {
    assert_eq!(add_missing_body_brackets("\"<a>\"".to_string()), "[\"<a>\"]");
    assert_eq!(add_missing_body_brackets("[\"<a>\"]".to_string()), "[\"<a>\"]");
    assert_eq!(add_missing_body_brackets("[], [\"<a>\"]".to_string()), "[], [\"<a>\"]");
    assert_eq!(add_missing_body_brackets(String::new()), "[]");
    assert_eq!(add_missing_body_brackets("x[".to_string()), "[x[]");
}

#[test]
fn parse_copies_every_kind_of_node() {
    let rules = parse_rulelist(
        "r = a / b c / 2d / 1*e / *3f / 4*5g / *h / (i) / [j] / \"k\" / %s\"l\" / %x41-5A / %d13.10 / <m>\n",
    )
    .unwrap();
    assert_eq!(rules.len(), 1);
    assert_eq!(rules[0].name(), "r");
    let repetition = |repeat, name: &str| GrammarNode::Repetition {
        repeat,
        node: Box::new(rulename(name)),
    };
    let expected = GrammarNode::Alternatives(vec![
        rulename("a"),
        GrammarNode::Concatenation(vec![rulename("b"), rulename("c")]),
        repetition(Repeat::Specific(2), "d"),
        repetition(Repeat::Variable { min: Some(1), max: None }, "e"),
        repetition(Repeat::Variable { min: None, max: Some(3) }, "f"),
        repetition(Repeat::Variable { min: Some(4), max: Some(5) }, "g"),
        repetition(Repeat::Variable { min: None, max: None }, "h"),
        group(rulename("i")),
        GrammarNode::Optional(Box::new(rulename("j"))),
        GrammarNode::String(StringLiteral::new("k".to_string(), false)),
        GrammarNode::String(StringLiteral::new("l".to_string(), true)),
        GrammarNode::TerminalValues(TerminalValues::Range(0x41, 0x5A)),
        GrammarNode::TerminalValues(TerminalValues::Concatenation(vec![13, 10])),
        GrammarNode::Prose("m".to_string()),
    ]);
    assert_eq!(rules[0].node(), &expected);
    assert!(rules[0].node().same_as(&expected));
}

#[test]
fn parse_keeps_the_order_of_the_rules() {
    let rules = parse_rulelist("b = \"1\"\na = b\nc = a b\n").unwrap();
    let names: Vec<&str> = rules.iter().map(|r| r.name()).collect();
    assert_eq!(names, vec!["b", "a", "c"]);
}

#[test]
fn parse_rejects_what_is_no_grammar() {
    assert_eq!(parse_rulelist("bad-rule = *a]\n"), Err(ConvertError::MalformedInput));
    assert_eq!(parse_rulelist(""), Err(ConvertError::MalformedInput));
    assert_eq!(parse_rulelist("a = b"), Err(ConvertError::MalformedInput));
    assert_eq!(abnf_to_json("= nothing\n"), Err(ConvertError::MalformedInput));
}

#[test]
fn group_of_alternatives_becomes_a_rule() {
    let text = "a = \"a\"\nb = \"b\"\nc = \"c\"\ngrp-a-any-bc = a ( b / c )\n";
    let rules = parse_rulelist(text).unwrap();
    let extra_nodes = extract_nested_grups_from_rules(&rules);
    assert_eq!(extra_nodes.len(), 1);
    assert_eq!(json_rule_name_from_group(&extra_nodes[0], true).unwrap(), "b-or-c");
    assert_eq!(
        json_rule_body_from_group(&extra_nodes[0], &rules, &extra_nodes, true).unwrap(),
        "[\"<b>\"], [\"<c>\"]"
    );
    assert_eq!(
        json_rule_body_from_group(rules[3].node(), &rules, &extra_nodes, false).unwrap(),
        "\"<a>\", \"<b-or-c>\""
    );
    assert_eq!(
        abnf_to_json(text).unwrap(),
        "{\n".to_string()
            + START
            + "  \"<b-or-c>\": [[\"<b>\"], [\"<c>\"]],\n"
            + "  \"<a>\": [[\"a\"]], \n"
            + "  \"<b>\": [[\"b\"]], \n"
            + "  \"<c>\": [[\"c\"]], \n"
            + "  \"<grp-a-any-bc>\": [[\"<a>\", \"<b-or-c>\"]]"
            + "\n}"
    );
}

#[test]
fn star_becomes_a_rule_that_refers_to_itself() {
    let rules = parse_rulelist("star-a = *a\n").unwrap();
    let extra_nodes = extract_nested_grups_from_rules(&rules);
    assert_eq!(extra_nodes.len(), 1);
    assert_eq!(json_rule_name_from_group(&extra_nodes[0], true).unwrap(), "zero-or-more-as");
    assert_eq!(
        json_rule_body_from_group(&extra_nodes[0], &rules, &extra_nodes, true).unwrap(),
        "[], [\"<a>\", \"<zero-or-more-as>\"]"
    );
    assert_eq!(
        ruleset_to_json(&rules).unwrap(),
        "{\n".to_string()
            + START
            + "  \"<zero-or-more-as>\": [[], [\"<a>\", \"<zero-or-more-as>\"]],\n"
            + "  \"<star-a>\": [[\"<zero-or-more-as>\"]]"
            + "\n}"
    );
}

#[test]
fn both_bounds_have_a_name_and_no_body() {
    let rules = parse_rulelist("one-star-two-a = 1*2a\n").unwrap();
    let extra_nodes = extract_nested_grups_from_rules(&rules);
    assert_eq!(extra_nodes.len(), 1);
    assert_eq!(
        json_rule_name_from_group(&extra_nodes[0], true).unwrap(),
        "between-1-and-2-as"
    );
    assert_eq!(
        json_rule_body_from_group(&extra_nodes[0], &rules, &extra_nodes, true),
        Err(ConvertError::UnsupportedConstruct)
    );
    assert_eq!(
        extract_rules_for_nested_groups(&rules, &extra_nodes),
        Err(ConvertError::UnsupportedConstruct)
    );
    assert_eq!(ruleset_to_json(&rules), Err(ConvertError::UnsupportedConstruct));
    assert_eq!(
        abnf_to_json("one-star-two-a = 1*2a\n"),
        Err(ConvertError::UnsupportedConstruct)
    );
}

#[test]
fn one_unsupported_rule_fails_the_grammar() {
    assert_eq!(
        abnf_to_json("a = \"a\"\nb = <prose>\nc = a\n"),
        Err(ConvertError::UnsupportedConstruct)
    );
    assert_eq!(
        abnf_to_json("a = \"a\"\nb = a %xD800.41\n"),
        Err(ConvertError::UnsupportedConstruct)
    );
    assert_eq!(
        abnf_to_json("a = %xD7FF-E000\n"),
        Err(ConvertError::UnsupportedConstruct)
    );
}

#[test]
fn empty_grammar() {
    assert_eq!(ruleset_to_json(&[]).unwrap(), "{\n".to_string() + START + "\n}");
    assert_eq!(extract_rules_for_nested_groups(&[], &[]).unwrap(), START);
}

#[test]
fn rule_line() {
    let rule = Rule::new("r", GrammarNode::Alternatives(vec![rulename("a"), rulename("b")]));
    assert_eq!(rule_to_json(&rule, &[], &[]).unwrap(), "  \"<r>\": [[\"<a>\"], [\"<b>\"]]");
    let rule = Rule::new("r", GrammarNode::Concatenation(vec![rulename("a"), rulename("b")]));
    assert_eq!(rule_to_json(&rule, &[], &[]).unwrap(), "  \"<r>\": [[\"<a>\", \"<b>\"]]");
    let rule = Rule::new("r", GrammarNode::Prose("p".to_string()));
    assert_eq!(rule_to_json(&rule, &[], &[]), Err(ConvertError::UnsupportedConstruct));
}

#[test]
fn equal_nodes_share_one_rule() {
    let text = "x = a (b / c)\ny = (b / c) a\n";
    assert_eq!(
        abnf_to_json(text).unwrap(),
        "{\n".to_string()
            + START
            + "  \"<b-or-c>\": [[\"<b>\"], [\"<c>\"]],\n"
            + "  \"<x>\": [[\"<a>\", \"<b-or-c>\"]], \n"
            + "  \"<y>\": [[\"<b-or-c>\", \"<a>\"]]"
            + "\n}"
    );
}

#[test]
fn first_node_of_a_name_defines_the_rule() {
    // a group in a group and the group alone are both called d
    let first = group(rulename("d"));
    let second = group(group(rulename("d")));
    let rules = vec![
        Rule::new("x", second.clone()),
        Rule::new("y", first.clone()),
    ];
    let extra_nodes = extract_nested_grups_from_rules(&rules);
    assert_eq!(extra_nodes, vec![second, first.clone(), first]);
    assert_eq!(
        extract_rules_for_nested_groups(&rules, &extra_nodes).unwrap(),
        START.to_string() + "  \"<d>\": [[\"<d>\"]],\n"
    );
}

#[test]
fn range_becomes_a_rule() {
    assert_eq!(
        abnf_to_json("digit = %x30-32\nnum = 1*digit\n").unwrap(),
        "{\n".to_string()
            + START
            + "  \"<b48-to-b50>\": [[\"0\"], [\"1\"], [\"2\"]],\n"
            + "  \"<at-least-1-digit>\": [[\"<digit>\"], [\"<digit>\", \"<at-least-1-digit>\"]],\n"
            + "  \"<digit>\": [[\"<b48-to-b50>\"]], \n"
            + "  \"<num>\": [[\"<at-least-1-digit>\"]]"
            + "\n}"
    );
}

#[test]
fn converting_twice_gives_the_same_text() {
    let text = "a = \"a\" / %x41.42\nb = *( a [ \"x\" ] ) 3a\nc = *2( a / b ) %x61-63\n";
    let first = abnf_to_json(text).unwrap();
    let second = abnf_to_json(text).unwrap();
    assert_eq!(first, second);
    let rules = parse_rulelist(text).unwrap();
    assert_eq!(ruleset_to_json(&rules).unwrap(), first);
    assert_eq!(ruleset_to_json(&rules).unwrap(), first);
}

const GROUPS_AND_REPETITIONS: &str = r#"
a = "a";
b = "b";
c = "c";

grp-a-any-bc = a ( b / c );
grp-a-all-bc = a ( b c );

nested-any-grp = a ( b / (a / c) );
nested-all-grp = a ( b (a c) );

star-a = *a;
one-star-a = 1*a;
star-two-a = *2a;
"#;

#[test]
fn groups_and_repetitions_as_one_grammar() {
    let expected = [
        "{",
        "  \"<start>\": [[\"<program>\"]],",
        "  \"<b-or-c>\": [[\"<b>\"], [\"<c>\"]],",
        "  \"<b-and-c>\": [[\"<b>\", \"<c>\"]],",
        "  \"<b-or-\u{ff08}a-or-c\u{ff09}>\": [[\"<b>\"], [\"<a-or-c>\"]],",
        "  \"<a-or-c>\": [[\"<a>\"], [\"<c>\"]],",
        "  \"<b-and-\u{ff08}a-and-c\u{ff09}>\": [[\"<b>\", \"<a-and-c>\"]],",
        "  \"<a-and-c>\": [[\"<a>\", \"<c>\"]],",
        "  \"<zero-or-more-as>\": [[], [\"<a>\", \"<zero-or-more-as>\"]],",
        "  \"<at-least-1-a>\": [[\"<a>\"], [\"<a>\", \"<at-least-1-a>\"]],",
        "  \"<at-most-2-as>\": [[], [\"<a>\"], [\"<a>\", \"<a>\"]],",
        "  \"<a>\": [[\"a\"]], ",
        "  \"<b>\": [[\"b\"]], ",
        "  \"<c>\": [[\"c\"]], ",
        "  \"<grp-a-any-bc>\": [[\"<a>\", \"<b-or-c>\"]], ",
        "  \"<grp-a-all-bc>\": [[\"<a>\", \"<b-and-c>\"]], ",
        "  \"<nested-any-grp>\": [[\"<a>\", \"<b-or-\u{ff08}a-or-c\u{ff09}>\"]], ",
        "  \"<nested-all-grp>\": [[\"<a>\", \"<b-and-\u{ff08}a-and-c\u{ff09}>\"]], ",
        "  \"<star-a>\": [[\"<zero-or-more-as>\"]], ",
        "  \"<one-star-a>\": [[\"<at-least-1-a>\"]], ",
        "  \"<star-two-a>\": [[\"<at-most-2-as>\"]]",
        "}",
    ]
    .join("\n");
    assert_eq!(abnf_to_json(GROUPS_AND_REPETITIONS).unwrap(), expected);
}

#[test]
fn a_repetition_with_both_bounds_fails_the_grammar() {
    let text = GROUPS_AND_REPETITIONS.to_string() + "one-star-two-a = 1*2a;\n";
    assert_eq!(parse_rulelist(&text).unwrap().len(), 11);
    assert_eq!(abnf_to_json(&text), Err(ConvertError::UnsupportedConstruct));
}
