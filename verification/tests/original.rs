use abnf_converter::{
    extract_nested_grups_from_rules, json_rule_body_from_group, json_rule_name_from_group,
    parse_rulelist, repetition_rule_name,
};

const SIMPLE_RULESET: &str = r#"
a = "a";
b = "b";
c = "c";

grp-a-any-bc = a ( b / c );
grp-a-all-bc = a ( b c );

nested-any-grp = a ( b / (a / c) );
nested-all-grp = a ( b (a c) );

star-a = *a;
one-star-a = 1*a;
star-two-a = *2a;
one-star-two-a = 1*2a;
"#;

#[test]
fn nested_group_extraction() {
    let rules = parse_rulelist(SIMPLE_RULESET).unwrap();

    let extra_nodes = extract_nested_grups_from_rules(&rules);
    assert_eq!(extra_nodes.len(), 10);

    let mut node_iter = extra_nodes.iter();
    let node0 = node_iter.next().unwrap();
    assert_eq!("b-or-c", json_rule_name_from_group(node0, true).unwrap());
    assert_eq!(
        "[\"<b>\"], [\"<c>\"]",
        json_rule_body_from_group(node0, &rules, &extra_nodes, true).unwrap()
    );

    let node1 = node_iter.next().unwrap();
    assert_eq!("b-and-c", json_rule_name_from_group(node1, true).unwrap());
    assert_eq!(
        "\"<b>\", \"<c>\"",
        json_rule_body_from_group(node1, &rules, &extra_nodes, true).unwrap()
    );

    let node2 = node_iter.next().unwrap();
    assert_eq!(
        "b-or-\u{ff08}a-or-c\u{ff09}",
        json_rule_name_from_group(node2, true).unwrap()
    );
    assert_eq!(
        "[\"<b>\"], [\"<a-or-c>\"]",
        json_rule_body_from_group(node2, &rules, &extra_nodes, true).unwrap()
    );

    let node3 = node_iter.next().unwrap();
    assert_eq!("a-or-c", json_rule_name_from_group(node3, true).unwrap());
    assert_eq!(
        "[\"<a>\"], [\"<c>\"]",
        json_rule_body_from_group(node3, &rules, &extra_nodes, true).unwrap()
    );

    let node4 = node_iter.next().unwrap();
    assert_eq!(
        "b-and-\u{ff08}a-and-c\u{ff09}",
        json_rule_name_from_group(node4, true).unwrap()
    );
    assert_eq!(
        "\"<b>\", \"<a-and-c>\"",
        json_rule_body_from_group(node4, &rules, &extra_nodes, true).unwrap()
    );

    let node5 = node_iter.next().unwrap();
    assert_eq!("a-and-c", json_rule_name_from_group(node5, true).unwrap());
    assert_eq!(
        "\"<a>\", \"<c>\"",
        json_rule_body_from_group(node5, &rules, &extra_nodes, true).unwrap()
    );
}

#[test]
fn repetitions() {
    let rules = parse_rulelist(SIMPLE_RULESET).unwrap();

    let rep = rules.iter().find(|&r| r.name() == "star-a").unwrap().node();
    assert_eq!(repetition_rule_name(rep, true).unwrap(), "zero-or-more-as");

    let rep = rules
        .iter()
        .find(|&r| r.name() == "one-star-a")
        .unwrap()
        .node();
    assert_eq!(repetition_rule_name(rep, true).unwrap(), "at-least-1-a");

    let rep = rules
        .iter()
        .find(|&r| r.name() == "star-two-a")
        .unwrap()
        .node();
    assert_eq!(repetition_rule_name(rep, true).unwrap(), "at-most-2-as");

    let rep = rules
        .iter()
        .find(|&r| r.name() == "one-star-two-a")
        .unwrap()
        .node();
    assert_eq!(repetition_rule_name(rep, true).unwrap(), "between-1-and-2-as");
}
