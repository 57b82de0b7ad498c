//! Converts an ABNF grammar into a flat grammar of named rules, each a list
//! of alternatives made of quoted literals and rule references.
//!
//! The work is done in four steps: the nodes that need a rule of their own
//! are collected ([`extract`]), every such node gets a name ([`name`]), bodies
//! are written with references in place of those nodes ([`body`]), and the
//! rules are put together ([`emit`]). [`parse`] reads the text of a grammar.

pub mod body;
pub mod emit;
pub mod error;
pub mod extract;
pub mod grammar;
pub mod name;
pub mod parse;
pub mod sanitize;
pub mod text;

pub use body::json_rule_body_from_group;
pub use emit::{
    add_missing_body_brackets, extract_rules_for_nested_groups, rule_to_json, ruleset_to_json,
};
pub use error::ConvertError;
pub use extract::{extract_nested_groups_from_node, extract_nested_grups_from_rules};
pub use grammar::{contains_node, GrammarNode, Repeat, Rule, StringLiteral, TerminalValues};
pub use name::{json_rule_name_from_group, repetition_rule_name};
pub use parse::{abnf_to_json, parse_rulelist};
pub use sanitize::sanitize;
