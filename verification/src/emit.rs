//! Emission: the rules of a grammar put together as one object.

use crate::body::{body_supported, body_text, bracketed, json_rule_body_from_group};
use crate::error::ConvertError;
use crate::extract::{extract_nested_grups_from_rules, extracted_from_rules};
use crate::grammar::{productions_of, trees_of, GrammarNode, Production, Rule, Tree};
use crate::name::{json_rule_name_from_group, name_text, nameable};
use crate::text::{join, lemma_join_step};
use vstd::prelude::*;

verus! {

/// A body as it stands in a rule's line: as it is where it begins with a
/// square bracket, between square brackets where it does not.
pub open spec fn with_brackets(body: Seq<char>) -> Seq<char> {
    if body.len() > 0 && body[0] == '[' {
        body
    } else {
        bracketed(body)
    }
}

/// The line of the rule called `name` with the body `body`.
pub open spec fn rule_line(name: Seq<char>, body: Seq<char>) -> Seq<char> {
    "  \"<"@ + name + ">\": ["@ + with_brackets(body) + "]"@
}

/// The line of the start rule, which refers to the rule called `program`.
pub open spec fn start_line() -> Seq<char> {
    "  \"<start>\": [[\"<program>\"]],\n"@
}

/// The names under which the first `n` extracted trees are emitted, each
/// once, in the order in which it first occurs.
pub open spec fn emitted_names(extracted: Seq<Tree>, n: int) -> Seq<Seq<char>>
    decreases n,
{
    if n <= 0 {
        Seq::empty()
    } else {
        let earlier = emitted_names(extracted, n - 1);
        let name = name_text(extracted[n - 1], true);
        if earlier.contains(name) {
            earlier
        } else {
            earlier.push(name)
        }
    }
}

/// Whether the extracted tree at `i` is the first of its name, and so the
/// one that defines the rule of that name.
pub open spec fn defines_rule(extracted: Seq<Tree>, i: int) -> bool {
    !emitted_names(extracted, i).contains(name_text(extracted[i], true))
}

/// The lines of the rules that the first `n` extracted trees define, each
/// followed by a comma and a line break.
pub open spec fn extracted_lines(extracted: Seq<Tree>, n: int) -> Seq<char>
    decreases n,
{
    if n <= 0 {
        Seq::empty()
    } else if defines_rule(extracted, n - 1) {
        extracted_lines(extracted, n - 1) + rule_line(
            name_text(extracted[n - 1], true),
            body_text(extracted[n - 1], extracted, true),
        ) + ",\n"@
    } else {
        extracted_lines(extracted, n - 1)
    }
}

/// Whether the rules of the first `n` extracted trees can be written: each
/// tree can be named, and each that defines a rule has a body.
pub open spec fn extracted_supported(extracted: Seq<Tree>, n: int) -> bool {
    forall|i: int|
        0 <= i < n ==> nameable(#[trigger] extracted[i]) && (defines_rule(extracted, i)
            ==> body_supported(extracted[i], extracted, true))
}

/// The start rule followed by the rules of the extracted trees.
pub open spec fn extracted_rules_text(extracted: Seq<Tree>) -> Seq<char> {
    start_line() + extracted_lines(extracted, extracted.len() as int)
}

/// The lines of the grammar's own rules, in order.
pub open spec fn rule_lines(rules: Seq<Production>, extracted: Seq<Tree>) -> Seq<Seq<char>> {
    Seq::new(
        rules.len(),
        |i: int| rule_line(rules[i].name, body_text(rules[i].tree, extracted, false)),
    )
}

/// Whether the grammar can be written: the rules of its extracted trees can,
/// and each of its own rules has a body.
pub open spec fn ruleset_supported(rules: Seq<Production>) -> bool {
    let extracted = extracted_from_rules(rules);
    &&& extracted_supported(extracted, extracted.len() as int)
    &&& forall|i: int|
        0 <= i < rules.len() ==> body_supported((#[trigger] rules[i]).tree, extracted, false)
}

/// The grammar as one object: the start rule, the rules of the extracted
/// trees, then the grammar's own rules.
pub open spec fn ruleset_text(rules: Seq<Production>) -> Seq<char> {
    let extracted = extracted_from_rules(rules);
    "{\n"@ + extracted_rules_text(extracted) + join(rule_lines(rules, extracted), ", \n"@)
        + "\n}"@
}

/// What converting `rules` returns: the text of the grammar where it can be
/// written, the error where it cannot.
pub open spec fn is_json_of(r: Result<String, ConvertError>, rules: Seq<Production>) -> bool {
    match r {
        Ok(text) => ruleset_supported(rules) && text@ == ruleset_text(rules),
        Err(e) => !ruleset_supported(rules) && e == ConvertError::UnsupportedConstruct,
    }
}

/// The texts of the strings, in order.
pub open spec fn texts_of(strings: Seq<String>) -> Seq<Seq<char>> {
    Seq::new(strings.len(), |i: int| strings[i]@)
}

/// Puts a body between square brackets unless it begins with one.
pub fn add_missing_body_brackets(body: String) -> (out: String)
    ensures
        out@ == with_brackets(body@),
{
    if !body.as_str().is_empty() && body.as_str().get_char(0) == '[' {
        body
    } else {
        let mut out = String::new();
        out.append("[");
        out.append(body.as_str());
        out.append("]");
        assert(out@ =~= bracketed(body@));
        out
    }
}

fn line_of(name: &str, body: String) -> (out: String)
    ensures
        out@ == rule_line(name@, body@),
{
    let full = add_missing_body_brackets(body);
    let mut out = String::new();
    out.append("  \"<");
    out.append(name);
    out.append(">\": [");
    out.append(full.as_str());
    out.append("]");
    assert(out@ =~= rule_line(name@, body@));
    out
}

fn holds_text(known: &Vec<String>, text: &String) -> (found: bool)
    ensures
        found == texts_of(known@).contains(text@),
{
    let mut i: usize = 0;
    while i < known.len()
        invariant
            i <= known.len(),
            forall|k: int| 0 <= k < i ==> known@[k]@ != text@,
        decreases known.len() - i,
    {
        if known[i] == *text {
            assert(texts_of(known@)[i as int] == text@);
            return true;
        }
        i = i + 1;
    }
    false
}

/// Writes the start rule and, after it, the rule of each extracted node that
/// is the first of its name, with the body that the node has at the root of
/// its own rule. Fails where one of the nodes cannot be named or one of the
/// rules has no body. `rules` is not read.
pub fn extract_rules_for_nested_groups(rules: &[Rule], extra_nodes: &[GrammarNode]) -> (r: Result<
    String,
    ConvertError,
>)
    ensures
        match r {
            Ok(text) => extracted_supported(
                trees_of(extra_nodes@),
                extra_nodes@.len() as int,
            ) && text@ == extracted_rules_text(trees_of(extra_nodes@)),
            Err(e) => !extracted_supported(trees_of(extra_nodes@), extra_nodes@.len() as int)
                && e == ConvertError::UnsupportedConstruct,
        },
{
    let ghost extracted = trees_of(extra_nodes@);
    let mut ret = String::new();
    ret.append("  \"<start>\": [[\"<program>\"]],\n");
    assert(ret@ =~= start_line());
    let mut known_rule_names: Vec<String> = Vec::new();
    assert(texts_of(known_rule_names@) =~= emitted_names(extracted, 0));
    let mut i: usize = 0;
    while i < extra_nodes.len()
        invariant
            i <= extra_nodes.len(),
            extracted == trees_of(extra_nodes@),
            extracted_supported(extracted, i as int),
            texts_of(known_rule_names@) == emitted_names(extracted, i as int),
            ret@ == start_line() + extracted_lines(extracted, i as int),
        decreases extra_nodes.len() - i,
    {
        let node = &extra_nodes[i];
        assert(node@ == extracted[i as int]);
        let rule_name = match json_rule_name_from_group(node, true) {
            Ok(rule_name) => rule_name,
            Err(e) => {
                assert(!nameable(extracted[i as int]));
                return Err(e);
            },
        };
        if !holds_text(&known_rule_names, &rule_name) {
            assert(defines_rule(extracted, i as int));
            let body = match json_rule_body_from_group(node, rules, extra_nodes, true) {
                Ok(body) => body,
                Err(e) => {
                    assert(!body_supported(extracted[i as int], extracted, true));
                    return Err(e);
                },
            };
            let line = line_of(rule_name.as_str(), body);
            let ghost before = ret@;
            ret.append(line.as_str());
            ret.append(",\n");
            assert(ret@ =~= start_line() + extracted_lines(extracted, i as int + 1)) by {
                assert(ret@ =~= before + line@ + ",\n"@);
            }
            let ghost names = texts_of(known_rule_names@);
            known_rule_names.push(rule_name);
            assert(texts_of(known_rule_names@) =~= names.push(rule_name@));
        }
        i = i + 1;
    }
    Ok(ret)
}

/// Writes the line of one of the grammar's own rules: its name and its body,
/// in which every extracted node is a reference. `rules` is not read.
pub fn rule_to_json(rule: &Rule, rules: &[Rule], extra_nodes: &[GrammarNode]) -> (r: Result<
    String,
    ConvertError,
>)
    ensures
        match r {
            Ok(line) => body_supported(rule@.tree, trees_of(extra_nodes@), false) && line@
                == rule_line(rule@.name, body_text(rule@.tree, trees_of(extra_nodes@), false)),
            Err(e) => !body_supported(rule@.tree, trees_of(extra_nodes@), false) && e
                == ConvertError::UnsupportedConstruct,
        },
{
    match json_rule_body_from_group(rule.node(), rules, extra_nodes, false) {
        Ok(body) => Ok(line_of(rule.name(), body)),
        Err(e) => Err(e),
    }
}

/// Converts a grammar: extracts the nodes that need rules of their own, then
/// writes the start rule, those rules and the grammar's own rules as one
/// object. Fails, with nothing written, where any part cannot be written.
pub fn ruleset_to_json(rules: &[Rule]) -> (r: Result<String, ConvertError>)
    ensures
        is_json_of(r, productions_of(rules@)),
{
    let ghost productions = productions_of(rules@);
    let extra_nodes = extract_nested_grups_from_rules(rules);
    let ghost extracted = trees_of(extra_nodes@);
    let ghost lines = rule_lines(productions, extracted);
    let head = match extract_rules_for_nested_groups(rules, extra_nodes.as_slice()) {
        Ok(head) => head,
        Err(e) => {
            return Err(e);
        },
    };
    let mut body = String::new();
    let mut i: usize = 0;
    while i < rules.len()
        invariant
            i <= rules.len(),
            productions == productions_of(rules@),
            extracted == trees_of(extra_nodes@),
            extracted == extracted_from_rules(productions),
            lines == rule_lines(productions, extracted),
            forall|k: int|
                0 <= k < i ==> body_supported((#[trigger] productions[k]).tree, extracted, false),
            body@ == join(lines.take(i as int), ", \n"@),
        decreases rules.len() - i,
    {
        match rule_to_json(&rules[i], rules, extra_nodes.as_slice()) {
            Ok(line) => {
                proof {
                    lemma_join_step(lines, ", \n"@, i as int);
                }
                if i > 0 {
                    body.append(", \n");
                }
                body.append(line.as_str());
            },
            Err(e) => {
                assert(!body_supported(productions[i as int].tree, extracted, false));
                return Err(e);
            },
        }
        i = i + 1;
    }
    assert(lines.take(i as int) =~= lines);
    let mut ret = String::new();
    ret.append("{\n");
    ret.append(head.as_str());
    ret.append(body.as_str());
    ret.append("\n}");
    assert(ret@ =~= ruleset_text(productions));
    Ok(ret)
}

/// A name is among the emitted names only if one of the trees so far is
/// the first of that name.
proof fn lemma_emitted_name_is_defined(extracted: Seq<Tree>, n: int, name: Seq<char>)
    requires
        0 <= n <= extracted.len(),
        emitted_names(extracted, n).contains(name),
    ensures
        exists|j: int|
            0 <= j < n && defines_rule(extracted, j) && name_text(#[trigger] extracted[j], true)
                == name,
    decreases n,
{
    if n > 0 {
        let earlier = emitted_names(extracted, n - 1);
        if earlier.contains(name) {
            lemma_emitted_name_is_defined(extracted, n - 1, name);
        } else {
            let names = emitted_names(extracted, n);
            let k = choose|k: int| 0 <= k < names.len() && names[k] == name;
            if k < earlier.len() {
                assert(earlier[k] == name);
            }
            assert(name_text(extracted[n - 1], true) == name);
            assert(defines_rule(extracted, n - 1));
        }
    }
}

/// The name of every tree so far is among the emitted names.
proof fn lemma_name_is_emitted(extracted: Seq<Tree>, n: int, j: int)
    requires
        0 <= j < n <= extracted.len(),
    ensures
        emitted_names(extracted, n).contains(name_text(extracted[j], true)),
    decreases n,
{
    let earlier = emitted_names(extracted, n - 1);
    let last = name_text(extracted[n - 1], true);
    let name = name_text(extracted[j], true);
    if j < n - 1 {
        lemma_name_is_emitted(extracted, n - 1, j);
        if !earlier.contains(last) {
            let k = choose|k: int| 0 <= k < earlier.len() && earlier[k] == name;
            assert(earlier.push(last)[k] == name);
        }
    } else {
        if !earlier.contains(last) {
            assert(earlier.push(last)[earlier.len() as int] == last);
        }
    }
}

/// The first of a name wins: an extracted tree defines a rule exactly when
/// no earlier extracted tree has the same name.
pub proof fn lemma_first_of_a_name_defines_the_rule(extracted: Seq<Tree>, i: int)
    requires
        0 <= i < extracted.len(),
    ensures
        defines_rule(extracted, i) <==> forall|j: int|
            0 <= j < i ==> name_text(#[trigger] extracted[j], true) != name_text(
                extracted[i],
                true,
            ),
{
    let name = name_text(extracted[i], true);
    if defines_rule(extracted, i) {
        assert forall|j: int| 0 <= j < i implies name_text(#[trigger] extracted[j], true)
            != name by {
            lemma_name_is_emitted(extracted, i, j);
        }
    } else {
        lemma_emitted_name_is_defined(extracted, i, name);
    }
}

/// Every reference names a rule that is written: for each extracted tree,
/// it or an earlier one of the same name defines the rule of that name.
pub proof fn lemma_reference_names_a_rule(extracted: Seq<Tree>, i: int)
    requires
        0 <= i < extracted.len(),
    ensures
        exists|j: int|
            0 <= j <= i && defines_rule(extracted, j) && name_text(#[trigger] extracted[j], true)
                == name_text(extracted[i], true),
{
    if !defines_rule(extracted, i) {
        lemma_emitted_name_is_defined(extracted, i, name_text(extracted[i], true));
    }
}

/// Converting is deterministic: two grammars that stand for the same
/// productions have the same outcome, the same text or the same failure.
pub proof fn lemma_conversion_is_deterministic(
    a: Seq<Rule>,
    b: Seq<Rule>,
    first: Result<String, ConvertError>,
    second: Result<String, ConvertError>,
)
    requires
        productions_of(a) == productions_of(b),
        is_json_of(first, productions_of(a)),
        is_json_of(second, productions_of(b)),
    ensures
        first is Ok <==> second is Ok,
        first matches Ok(x) ==> second matches Ok(y) && x@ == y@,
        first matches Err(e) ==> second == Err::<String, ConvertError>(e),
{
}

} // verus!
