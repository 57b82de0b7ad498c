//! Bodies: the alternatives of a rule, written as sequences of quoted
//! literals and rule references.

use crate::error::ConvertError;
use crate::grammar::{
    contains_node, trees_of, GrammarNode, Repeat, Rule, TerminalValues, Tree,
};
use crate::name::{
    joined_values, json_rule_name_from_group, name_text, nameable, quoted_values,
};
use crate::text::{all_scalar, is_scalar_value, join, lemma_join_step, quote_code, quoted_code};
use vstd::prelude::*;

verus! {

/// A reference to the rule called `name`: the name between `<` and `>`, in
/// double quotes.
pub open spec fn rule_reference(name: Seq<char>) -> Seq<char> {
    "\"<"@ + name + ">\""@
}

/// One alternative: a sequence of elements between square brackets.
pub open spec fn bracketed(text: Seq<char>) -> Seq<char> {
    "["@ + text + "]"@
}

/// `n` times the same text.
pub open spec fn copies(text: Seq<char>, n: nat) -> Seq<Seq<char>> {
    Seq::new(n, |i: int| text)
}

/// An alternative that holds `text` exactly `n` times.
pub open spec fn repeated(text: Seq<char>, n: nat) -> Seq<char> {
    bracketed(join(copies(text, n), ", "@))
}

/// One alternative for each count from zero to `max`.
pub open spec fn counts_up_to(text: Seq<char>, max: nat) -> Seq<Seq<char>> {
    Seq::new(max + 1, |k: int| repeated(text, k as nat))
}

/// A literal string between double quotes; the string of one backslash is
/// written with the backslash doubled.
pub open spec fn literal_text(value: Seq<char>) -> Seq<char> {
    if value == seq!['\\'] {
        seq!['"', '\\', '\\', '"']
    } else {
        "\""@ + value + "\""@
    }
}

/// How many code points lie between `start` and `end`, both included.
pub open spec fn range_len(start: u32, end: u32) -> nat {
    if start <= end {
        (end - start + 1) as nat
    } else {
        0
    }
}

/// The code point that lies `i` above `start`.
pub open spec fn code_at(start: u32, i: int) -> u32 {
    (start + i) as u32
}

/// One alternative for each code point from `start` to `end`: the quoted
/// character alone.
pub open spec fn range_alternatives(start: u32, end: u32) -> Seq<Seq<char>> {
    Seq::new(range_len(start, end), |i: int| bracketed(quoted_code(code_at(start, i))))
}

/// The body of a repetition whose element has the body `single`, and which is
/// itself referred to by `itself`.
///
/// Exactly `n` times: one alternative of `n` elements. At least `m` times:
/// one alternative of `m` elements, and one of `m` elements followed by the
/// repetition itself. At most `m` times: one alternative for each count from
/// zero to `m`. Any number of times: the empty alternative, and the element
/// followed by the repetition itself. With both bounds there is no body.
pub open spec fn repetition_body(repeat: Repeat, single: Seq<char>, itself: Seq<char>) -> Seq<
    char,
> {
    match repeat {
        Repeat::Specific(n) => repeated(single, n as nat),
        Repeat::Variable { min: Some(m), max: None } => repeated(single, m as nat) + ", "@
            + bracketed(join(copies(single, m as nat).push(itself), ", "@)),
        Repeat::Variable { min: None, max: Some(m) } => join(
            counts_up_to(single, m as nat),
            ", "@,
        ),
        Repeat::Variable { min: None, max: None } => "[], "@ + bracketed(single + ", "@ + itself),
        Repeat::Variable { min: Some(_), max: Some(_) } => Seq::empty(),
    }
}

/// The bodies of the children, each as it stands inside its parent; where
/// `alternatives` is set, each between square brackets.
pub open spec fn bodies_of(children: Seq<Tree>, extracted: Seq<Tree>, alternatives: bool) -> Seq<
    Seq<char>,
>
    decreases children,
{
    Seq::new(
        children.len(),
        |i: int|
            if 0 <= i < children.len() {
                if alternatives {
                    bracketed(body_text(children[i], extracted, false))
                } else {
                    body_text(children[i], extracted, false)
                }
            } else {
                Seq::empty()
            },
    )
}

/// The body of a tree, given the trees that have rules of their own. Such a
/// tree is written as a reference to its rule, except at the root of that
/// very rule (`toplevel`).
///
/// Otherwise: alternatives are the bodies of the children, each between
/// square brackets; a concatenation is the bodies of the children in one
/// sequence; a repetition is written by [`repetition_body`]; a group is what
/// it holds; an optional is the empty alternative and what it holds; a rule
/// name is a reference; a literal is quoted; a range has one alternative for
/// each of its code points; listed code points are quoted in one sequence.
/// Prose has no body.
pub open spec fn body_text(tree: Tree, extracted: Seq<Tree>, toplevel: bool) -> Seq<char>
    decreases tree,
{
    if !toplevel && extracted.contains(tree) {
        rule_reference(name_text(tree, true))
    } else {
        match tree {
            Tree::Alternatives(children) => join(bodies_of(children, extracted, true), ", "@),
            Tree::Concatenation(children) => join(bodies_of(children, extracted, false), ", "@),
            Tree::Repetition { repeat, inner } => repetition_body(
                repeat,
                body_text(*inner, extracted, false),
                rule_reference(name_text(tree, true)),
            ),
            Tree::Rulename(name) => rule_reference(name),
            Tree::Group(inner) => body_text(*inner, extracted, false),
            Tree::Optional(inner) => "[], "@ + bracketed(body_text(*inner, extracted, false)),
            Tree::String { value, case_sensitive } => literal_text(value),
            Tree::Range(start, end) => join(range_alternatives(start, end), ", "@),
            Tree::Values(values) => join(quoted_values(values), ", "@),
            Tree::Prose(text) => Seq::empty(),
        }
    }
}

/// Whether a repetition with these bounds can be written, given whether the
/// repetition can be named: not with both bounds; and with a lower bound
/// only, or no bound, it refers to itself, so it must have a name.
pub open spec fn repeat_supported(repeat: Repeat, named: bool) -> bool {
    match repeat {
        Repeat::Specific(_) => true,
        Repeat::Variable { min: Some(_), max: Some(_) } => false,
        Repeat::Variable { min: None, max: Some(_) } => true,
        _ => named,
    }
}

/// Whether every code point from `start` to `end` is the code of a
/// character.
pub open spec fn range_supported(start: u32, end: u32) -> bool {
    forall|i: int| 0 <= i < range_len(start, end) ==> is_scalar_value(#[trigger] code_at(start, i))
}

/// Whether the body of each child can be written, as it stands inside its
/// parent.
pub open spec fn all_supported(children: Seq<Tree>, extracted: Seq<Tree>) -> bool
    decreases children,
{
    forall|i: int|
        0 <= i < children.len() ==> body_supported(#[trigger] children[i], extracted, false)
}

/// Whether the body of a tree can be written: every tree referred to can be
/// named, and what is written out holds no prose, no repetition with both
/// bounds and no code point that is not the code of a character.
pub open spec fn body_supported(tree: Tree, extracted: Seq<Tree>, toplevel: bool) -> bool
    decreases tree,
{
    if !toplevel && extracted.contains(tree) {
        nameable(tree)
    } else {
        match tree {
            Tree::Alternatives(children) => all_supported(children, extracted),
            Tree::Concatenation(children) => all_supported(children, extracted),
            Tree::Repetition { repeat, inner } => body_supported(*inner, extracted, false)
                && repeat_supported(repeat, nameable(tree)),
            Tree::Rulename(name) => true,
            Tree::Group(inner) => body_supported(*inner, extracted, false),
            Tree::Optional(inner) => body_supported(*inner, extracted, false),
            Tree::String { value, case_sensitive } => true,
            Tree::Range(start, end) => range_supported(start, end),
            Tree::Values(values) => all_scalar(values),
            Tree::Prose(text) => false,
        }
    }
}

/// What writing the body of `tree` returns: the body where it can be
/// written, the error where it cannot.
pub open spec fn is_body_of(
    r: Result<String, ConvertError>,
    tree: Tree,
    extracted: Seq<Tree>,
    toplevel: bool,
) -> bool {
    match r {
        Ok(body) => body_supported(tree, extracted, toplevel) && body@ == body_text(
            tree,
            extracted,
            toplevel,
        ),
        Err(e) => !body_supported(tree, extracted, toplevel) && e
            == ConvertError::UnsupportedConstruct,
    }
}

fn reference_to(name: &str) -> (out: String)
    ensures
        out@ == rule_reference(name@),
{
    let mut out = String::new();
    out.append("\"<");
    out.append(name);
    out.append(">\"");
    assert(out@ =~= rule_reference(name@));
    out
}

fn in_brackets(text: &str) -> (out: String)
    ensures
        out@ == bracketed(text@),
{
    let mut out = String::new();
    out.append("[");
    out.append(text);
    out.append("]");
    assert(out@ =~= bracketed(text@));
    out
}

/// `n` times `text`, with a comma and a space between each two.
fn copies_joined(text: &str, n: usize) -> (out: String)
    ensures
        out@ == join(copies(text@, n as nat), ", "@),
{
    let ghost parts = copies(text@, n as nat);
    let mut out = String::new();
    let mut i: usize = 0;
    while i < n
        invariant
            i <= n,
            parts == copies(text@, n as nat),
            out@ == join(parts.take(i as int), ", "@),
        decreases n - i,
    {
        proof {
            lemma_join_step(parts, ", "@, i as int);
        }
        if i > 0 {
            out.append(", ");
        }
        out.append(text);
        i = i + 1;
    }
    assert(parts.take(n as int) =~= parts);
    out
}

fn repeated_string(text: &str, n: usize) -> (out: String)
    ensures
        out@ == repeated(text@, n as nat),
{
    let inside = copies_joined(text, n);
    in_brackets(inside.as_str())
}

fn counted_alternatives(text: &str, max: usize) -> (out: String)
    ensures
        out@ == join(counts_up_to(text@, max as nat), ", "@),
{
    let ghost parts = counts_up_to(text@, max as nat);
    let mut out = String::new();
    let mut k: usize = 0;
    while k < max
        invariant
            k <= max,
            parts == counts_up_to(text@, max as nat),
            out@ == join(parts.take(k as int), ", "@),
        decreases max - k,
    {
        proof {
            lemma_join_step(parts, ", "@, k as int);
        }
        if k > 0 {
            out.append(", ");
        }
        let one = repeated_string(text, k);
        out.append(one.as_str());
        k = k + 1;
    }
    proof {
        lemma_join_step(parts, ", "@, max as int);
        assert(parts.take(max as int + 1) =~= parts);
    }
    if max > 0 {
        out.append(", ");
    }
    let last = repeated_string(text, max);
    out.append(last.as_str());
    out
}

fn literal_string(value: &str) -> (out: String)
    ensures
        out@ == literal_text(value@),
{
    let mut out = String::new();
    if value.unicode_len() == 1 && value.get_char(0) == '\\' {
        assert(value@ =~= seq!['\\']);
        out.append("\"\\\\\"");
        proof {
            reveal_strlit("\"\\\\\"");
        }
        assert(out@ =~= literal_text(value@));
    } else {
        out.append("\"");
        out.append(value);
        out.append("\"");
        assert(out@ =~= literal_text(value@));
    }
    out
}

fn range_body(start: u32, end: u32) -> (r: Result<String, ConvertError>)
    ensures
        match r {
            Ok(text) => range_supported(start, end) && text@ == join(
                range_alternatives(start, end),
                ", "@,
            ),
            Err(e) => !range_supported(start, end) && e == ConvertError::UnsupportedConstruct,
        },
{
    let ghost parts = range_alternatives(start, end);
    let count: u64 = if start <= end {
        (end - start) as u64 + 1
    } else {
        0
    };
    let mut out = String::new();
    let mut i: u64 = 0;
    while i < count
        invariant
            i <= count,
            count == range_len(start, end),
            parts == range_alternatives(start, end),
            forall|k: int| 0 <= k < i ==> is_scalar_value(#[trigger] code_at(start, k)),
            out@ == join(parts.take(i as int), ", "@),
        decreases count - i,
    {
        let code: u32 = start + (i as u32);
        match quote_code(code) {
            Some(quoted) => {
                proof {
                    lemma_join_step(parts, ", "@, i as int);
                }
                if i > 0 {
                    out.append(", ");
                }
                let one = in_brackets(quoted.as_str());
                out.append(one.as_str());
            },
            None => {
                assert(!is_scalar_value(code_at(start, i as int)));
                return Err(ConvertError::UnsupportedConstruct);
            },
        }
        i = i + 1;
    }
    assert(parts.take(i as int) =~= parts);
    Ok(out)
}

fn joined_bodies(
    nodes: &Vec<GrammarNode>,
    rules: &[Rule],
    extra_nodes: &[GrammarNode],
    alternatives: bool,
) -> (r: Result<String, ConvertError>)
    ensures
        match r {
            Ok(text) => all_supported(trees_of(nodes@), trees_of(extra_nodes@)) && text@ == join(
                bodies_of(trees_of(nodes@), trees_of(extra_nodes@), alternatives),
                ", "@,
            ),
            Err(e) => !all_supported(trees_of(nodes@), trees_of(extra_nodes@)) && e
                == ConvertError::UnsupportedConstruct,
        },
    decreases nodes, 0int,
{
    let ghost children = trees_of(nodes@);
    let ghost extracted = trees_of(extra_nodes@);
    let ghost parts = bodies_of(children, extracted, alternatives);
    let mut out = String::new();
    let mut i: usize = 0;
    while i < nodes.len()
        invariant
            i <= nodes.len(),
            children == trees_of(nodes@),
            extracted == trees_of(extra_nodes@),
            parts == bodies_of(children, extracted, alternatives),
            all_supported(children.take(i as int), extracted),
            out@ == join(parts.take(i as int), ", "@),
        decreases nodes.len() - i,
    {
        match json_rule_body_from_group(&nodes[i], rules, extra_nodes, false) {
            Ok(body) => {
                proof {
                    lemma_join_step(parts, ", "@, i as int);
                }
                if i > 0 {
                    out.append(", ");
                }
                if alternatives {
                    let one = in_brackets(body.as_str());
                    out.append(one.as_str());
                } else {
                    out.append(body.as_str());
                }
            },
            Err(e) => {
                assert(!body_supported(children[i as int], extracted, false));
                return Err(e);
            },
        }
        i = i + 1;
    }
    assert(children.take(i as int) =~= children);
    assert(parts.take(i as int) =~= parts);
    Ok(out)
}

/// Writes the body of `main_node`: its alternatives, each a sequence of
/// quoted literals and rule references. A node that `extra_nodes` holds is
/// written as a reference to its rule, unless `toplevel` says that this is the
/// root of that rule. `rules` is not read.
pub fn json_rule_body_from_group(
    main_node: &GrammarNode,
    rules: &[Rule],
    extra_nodes: &[GrammarNode],
    toplevel: bool,
) -> (r: Result<String, ConvertError>)
    ensures
        is_body_of(r, main_node@, trees_of(extra_nodes@), toplevel),
    decreases main_node, 1int,
{
    if !toplevel && contains_node(extra_nodes, main_node) {
        return match json_rule_name_from_group(main_node, true) {
            Ok(name) => Ok(reference_to(name.as_str())),
            Err(e) => Err(e),
        };
    }
    match main_node {
        GrammarNode::Alternatives(nodes) => {
            joined_bodies(nodes, rules, extra_nodes, true)
        },
        GrammarNode::Concatenation(nodes) => {
            joined_bodies(nodes, rules, extra_nodes, false)
        },
        GrammarNode::Repetition { repeat, node: inner } => {
            let single = match json_rule_body_from_group(inner, rules, extra_nodes, false) {
                Ok(single) => single,
                Err(e) => {
                    return Err(e);
                },
            };
            match repeat {
                Repeat::Specific(n) => Ok(repeated_string(single.as_str(), *n)),
                Repeat::Variable { min: Some(_), max: Some(_) } => Err(
                    ConvertError::UnsupportedConstruct,
                ),
                Repeat::Variable { min: Some(m), max: None } => {
                    match json_rule_name_from_group(main_node, true) {
                        Ok(name) => {
                            let itself = reference_to(name.as_str());
                            let mut out = repeated_string(single.as_str(), *m);
                            out.append(", ");
                            let mut tail = copies_joined(single.as_str(), *m);
                            if *m > 0 {
                                tail.append(", ");
                            }
                            tail.append(itself.as_str());
                            proof {
                                let parts = copies(single@, *m as nat).push(itself@);
                                lemma_join_step(parts, ", "@, *m as int);
                                assert(parts.take(*m as int) =~= copies(single@, *m as nat));
                                assert(parts.take(*m as int + 1) =~= parts);
                            }
                            let second = in_brackets(tail.as_str());
                            out.append(second.as_str());
                            Ok(out)
                        },
                        Err(e) => Err(e),
                    }
                },
                Repeat::Variable { min: None, max: Some(m) } => Ok(
                    counted_alternatives(single.as_str(), *m),
                ),
                Repeat::Variable { min: None, max: None } => {
                    match json_rule_name_from_group(main_node, true) {
                        Ok(name) => {
                            let itself = reference_to(name.as_str());
                            let mut tail = String::new();
                            tail.append(single.as_str());
                            tail.append(", ");
                            tail.append(itself.as_str());
                            assert(tail@ =~= single@ + ", "@ + itself@);
                            let second = in_brackets(tail.as_str());
                            let mut out = String::new();
                            out.append("[], ");
                            out.append(second.as_str());
                            assert(out@ =~= "[], "@ + second@);
                            Ok(out)
                        },
                        Err(e) => Err(e),
                    }
                },
            }
        },
        GrammarNode::Rulename(name) => Ok(reference_to(name.as_str())),
        GrammarNode::Group(inner) => json_rule_body_from_group(inner, rules, extra_nodes, false),
        GrammarNode::Optional(inner) => {
            match json_rule_body_from_group(inner, rules, extra_nodes, false) {
                Ok(body) => {
                    let second = in_brackets(body.as_str());
                    let mut out = String::new();
                    out.append("[], ");
                    out.append(second.as_str());
                    assert(out@ =~= "[], "@ + second@);
                    Ok(out)
                },
                Err(e) => Err(e),
            }
        },
        GrammarNode::String(literal) => Ok(literal_string(literal.value.as_str())),
        GrammarNode::TerminalValues(TerminalValues::Range(start, end)) => range_body(*start, *end),
        GrammarNode::TerminalValues(TerminalValues::Concatenation(values)) => joined_values(
            values,
            ", ",
        ),
        GrammarNode::Prose(_) => Err(ConvertError::UnsupportedConstruct),
    }
}

/// A repetition of exactly zero times has the empty sequence as its body,
/// wherever it is written out and not referred to.
pub proof fn lemma_body_of_zero_repetition(inner: Tree, extracted: Seq<Tree>, toplevel: bool)
    requires
        toplevel || !extracted.contains(
            Tree::Repetition { repeat: Repeat::Specific(0), inner: Box::new(inner) },
        ),
    ensures
        body_text(
            Tree::Repetition { repeat: Repeat::Specific(0), inner: Box::new(inner) },
            extracted,
            toplevel,
        ) == "[]"@,
{
    reveal_strlit("[]");
    reveal_strlit("[");
    reveal_strlit("]");
    let single = body_text(inner, extracted, false);
    assert(copies(single, 0).len() == 0);
    assert(repeated(single, 0) =~= "[]"@);
}

/// A repetition of at least once has two alternatives: the element once,
/// and the element followed by a reference to the repetition itself.
pub proof fn lemma_body_of_at_least_one(inner: Tree, extracted: Seq<Tree>, toplevel: bool)
    requires
        toplevel || !extracted.contains(
            Tree::Repetition {
                repeat: Repeat::Variable { min: Some(1), max: None },
                inner: Box::new(inner),
            },
        ),
    ensures
        ({
            let tree = Tree::Repetition {
                repeat: Repeat::Variable { min: Some(1), max: None },
                inner: Box::new(inner),
            };
            let single = body_text(inner, extracted, false);
            body_text(tree, extracted, toplevel) == bracketed(single) + ", "@ + bracketed(
                single + ", "@ + rule_reference(name_text(tree, true)),
            )
        }),
{
    let tree = Tree::Repetition {
        repeat: Repeat::Variable { min: Some(1), max: None },
        inner: Box::new(inner),
    };
    let single = body_text(inner, extracted, false);
    let itself = rule_reference(name_text(tree, true));
    let once = copies(single, 1);
    let both = once.push(itself);
    assert(join(once, ", "@) == single);
    assert(both.drop_last() =~= once);
    assert(join(both, ", "@) == single + ", "@ + itself);
}

/// A repetition of at most twice has three alternatives: nothing, the
/// element once, and the element twice.
pub proof fn lemma_body_of_at_most_two(inner: Tree, extracted: Seq<Tree>, toplevel: bool)
    requires
        toplevel || !extracted.contains(
            Tree::Repetition {
                repeat: Repeat::Variable { min: None, max: Some(2) },
                inner: Box::new(inner),
            },
        ),
    ensures
        ({
            let tree = Tree::Repetition {
                repeat: Repeat::Variable { min: None, max: Some(2) },
                inner: Box::new(inner),
            };
            let single = body_text(inner, extracted, false);
            body_text(tree, extracted, toplevel) == "[]"@ + ", "@ + bracketed(single) + ", "@
                + bracketed(single + ", "@ + single)
        }),
{
    reveal_strlit("[]");
    reveal_strlit("[");
    reveal_strlit("]");
    let single = body_text(inner, extracted, false);
    let counts = counts_up_to(single, 2);
    assert(copies(single, 0).len() == 0);
    assert(repeated(single, 0) =~= "[]"@);
    assert(join(copies(single, 1), ", "@) == single);
    assert(copies(single, 2).drop_last() =~= copies(single, 1));
    assert(join(copies(single, 2), ", "@) == single + ", "@ + single);
    let two = counts.drop_last();
    let one = two.drop_last();
    assert(one.len() == 1 && one[0] == repeated(single, 0));
    assert(join(one, ", "@) == repeated(single, 0));
    assert(two.len() == 2 && two.last() == repeated(single, 1));
    assert(join(two, ", "@) == join(one, ", "@) + ", "@ + repeated(single, 1));
    assert(counts.last() == repeated(single, 2));
    assert(join(counts, ", "@) == join(two, ", "@) + ", "@ + repeated(single, 2));
}

/// A tree that has a rule of its own is never written out inside another
/// body: it is a reference to the rule of its name, and can be written
/// exactly where it can be named.
pub proof fn lemma_extracted_is_referenced(tree: Tree, extracted: Seq<Tree>)
    requires
        extracted.contains(tree),
    ensures
        body_text(tree, extracted, false) == rule_reference(name_text(tree, true)),
        body_supported(tree, extracted, false) == nameable(tree),
{
}

} // verus!
