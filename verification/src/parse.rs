//! Reading the text of a grammar, and converting a grammar given as text.

use crate::emit::{ruleset_supported, ruleset_text, ruleset_to_json};
use crate::error::ConvertError;
use crate::grammar::{
    productions_of, GrammarNode, Production, Repeat, Rule, StringLiteral, TerminalValues,
};
use abnf::types::Node as ParsedNode;
use abnf::types::Repeat as ParsedRepeat;
use abnf::types::TerminalValues as ParsedValues;
use vstd::prelude::*;

verus! {

/// `abnf::error::ParseError`, of which nothing is read.
#[verifier::external_type_specification]
#[verifier::external_body]
pub struct ExParseError(abnf::error::ParseError);

/// `abnf::types::Node`, which is only handed on to be copied.
#[verifier::external_type_specification]
#[verifier::external_body]
pub struct ExParsedNode(abnf::types::Node);

/// The rules that the text of a grammar stands for, `None` where the text is
/// no grammar: the rules that `abnf::rulelist` returns for the text, each
/// with its name and its tree.
pub uninterp spec fn parsed_rules(text: Seq<char>) -> Option<Seq<Production>>;

/// Copies a node of a parsed rule, kind for kind: here the nodes that hold
/// other nodes, whose parts are copied in turn.
#[verifier::external_body]
fn node_from(node: &abnf::types::Node) -> GrammarNode {
    match node {
        ParsedNode::Alternatives(nodes) => GrammarNode::Alternatives(nodes.iter().map(node_from).collect()),
        ParsedNode::Concatenation(nodes) => GrammarNode::Concatenation(nodes.iter().map(node_from).collect()),
        ParsedNode::Group(inner) => GrammarNode::Group(Box::new(node_from(inner))),
        ParsedNode::Optional(inner) => GrammarNode::Optional(Box::new(node_from(inner))),
        ParsedNode::Repetition { repeat, node } => {
            let inner = Box::new(node_from(node));
            match *repeat {
                ParsedRepeat::Specific(n) => GrammarNode::Repetition { repeat: Repeat::Specific(n), node: inner },
                ParsedRepeat::Variable { min, max } => GrammarNode::Repetition { repeat: Repeat::Variable { min, max }, node: inner },
            }
        },
        other => leaf_from(other),
    }
}

/// Copies a node of a parsed rule, kind for kind: here the nodes that hold
/// no other node.
#[verifier::external_body]
fn leaf_from(node: &abnf::types::Node) -> GrammarNode {
    match node {
        ParsedNode::Rulename(name) => GrammarNode::Rulename(name.clone()),
        ParsedNode::String(literal) => GrammarNode::String(StringLiteral { value: literal.value().to_owned(), case_sensitive: literal.is_case_sensitive() }),
        ParsedNode::TerminalValues(ParsedValues::Range(start, end)) => GrammarNode::TerminalValues(TerminalValues::Range(*start, *end)),
        ParsedNode::TerminalValues(ParsedValues::Concatenation(values)) => GrammarNode::TerminalValues(TerminalValues::Concatenation(values.clone())),
        ParsedNode::Prose(text) => GrammarNode::Prose(text.clone()),
        other => node_from(other),
    }
}

/// Parses the text of a grammar with `abnf::rulelist` and copies the rules
/// that it returns. The outcome depends on the text alone and is named
/// [`parsed_rules`].
#[verifier::external_body]
fn parse_with_abnf(text: &str) -> (r: Result<Vec<Rule>, abnf::error::ParseError>)
    ensures
        r matches Ok(rules) ==> parsed_rules(text@) == Some(productions_of(rules@)),
        r is Err ==> parsed_rules(text@) is None,
{
    let parsed = abnf::rulelist(text)?;
    Ok(parsed.iter().map(|rule| Rule { name: rule.name().to_owned(), node: node_from(rule.node()) }).collect())
}

/// Parses the text of a grammar. Fails with `MalformedInput` where the text
/// is no grammar.
pub fn parse_rulelist(text: &str) -> (r: Result<Vec<Rule>, ConvertError>)
    ensures
        match r {
            Ok(rules) => parsed_rules(text@) == Some(productions_of(rules@)),
            Err(e) => parsed_rules(text@) is None && e == ConvertError::MalformedInput,
        },
{
    match parse_with_abnf(text) {
        Ok(rules) => Ok(rules),
        Err(_) => Err(ConvertError::MalformedInput),
    }
}

/// What converting a parsed grammar gives: the text of the grammar, or why
/// there is none.
pub open spec fn conversion_of(parsed: Option<Seq<Production>>) -> Result<
    Seq<char>,
    ConvertError,
> {
    match parsed {
        None => Err(ConvertError::MalformedInput),
        Some(rules) => if ruleset_supported(rules) {
            Ok(ruleset_text(rules))
        } else {
            Err(ConvertError::UnsupportedConstruct)
        },
    }
}

/// What converting the text of a grammar returns.
pub open spec fn is_conversion_of(r: Result<String, ConvertError>, text: Seq<char>) -> bool {
    match r {
        Ok(json) => conversion_of(parsed_rules(text)) == Ok::<Seq<char>, ConvertError>(json@),
        Err(e) => conversion_of(parsed_rules(text)) == Err::<Seq<char>, ConvertError>(e),
    }
}

/// Converts the text of a grammar: parses it and writes the parsed rules.
/// Fails with `MalformedInput` where the text is no grammar, and with
/// `UnsupportedConstruct` where the grammar cannot be written.
pub fn abnf_to_json(text: &str) -> (r: Result<String, ConvertError>)
    ensures
        is_conversion_of(r, text@),
{
    match parse_rulelist(text) {
        Ok(rules) => ruleset_to_json(rules.as_slice()),
        Err(e) => Err(e),
    }
}

/// Converting a text is deterministic: the same text has the same outcome,
/// the same grammar or the same failure.
pub proof fn lemma_text_conversion_is_deterministic(
    text: Seq<char>,
    first: Result<String, ConvertError>,
    second: Result<String, ConvertError>,
)
    requires
        is_conversion_of(first, text),
        is_conversion_of(second, text),
    ensures
        first is Ok <==> second is Ok,
        first matches Ok(x) ==> second matches Ok(y) && x@ == y@,
        first matches Err(e) ==> second == Err::<String, ConvertError>(e),
{
}

} // verus!
