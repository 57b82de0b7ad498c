//! Names: a name for every node, made of the names of its parts.

use crate::error::ConvertError;
use crate::grammar::{trees_of, GrammarNode, Repeat, TerminalValues, Tree};
use crate::sanitize::{
    is_clean, lemma_sanitized_is_clean, lemma_sanitized_of_clean, sanitize, sanitized,
};
use crate::text::{
    all_scalar, decimal, is_scalar_value, join, lemma_join_step, push_char, push_decimal,
    quote_code, quoted_code,
};
use vstd::prelude::*;

verus! {

/// Opens a compound name that stands inside a larger name.
pub const NESTED_RULE_START: char = '\u{FF08}';

/// Closes a compound name that stands inside a larger name.
pub const NESTED_RULE_END: char = '\u{FF09}';

/// A compound name as it is written at the root of a rule (`toplevel`) or
/// inside a larger name, where it stands between the two markers.
pub open spec fn nested(text: Seq<char>, toplevel: bool) -> Seq<char> {
    if toplevel {
        text
    } else {
        seq![NESTED_RULE_START] + text + seq![NESTED_RULE_END]
    }
}

/// The words that say how often a repetition repeats.
pub open spec fn repeat_prefix(repeat: Repeat) -> Seq<char> {
    match repeat {
        Repeat::Specific(n) => decimal(n as nat),
        Repeat::Variable { min: Some(a), max: Some(b) } => "between-"@ + decimal(a as nat)
            + "-and-"@ + decimal(b as nat),
        Repeat::Variable { min: Some(a), max: None } => "at-least-"@ + decimal(a as nat),
        Repeat::Variable { min: None, max: Some(b) } => "at-most-"@ + decimal(b as nat),
        Repeat::Variable { min: None, max: None } => "zero-or-more"@,
    }
}

/// Whether the name of the repeated element gets a plural `s`: not after a
/// group or a repetition, and not where the only bound is one.
pub open spec fn is_plural(repeat: Repeat, inner: Tree) -> bool {
    &&& !(inner is Group)
    &&& !(inner is Repetition)
    &&& match repeat {
        Repeat::Variable { min: Some(a), max: None } => a != 1,
        Repeat::Variable { min: None, max: Some(b) } => b != 1,
        _ => true,
    }
}

/// The name of a repetition whose element is `inner` and is named
/// `inner_name`: prefix, dash, element, plural.
pub open spec fn repetition_text(repeat: Repeat, inner: Tree, inner_name: Seq<char>) -> Seq<char> {
    repeat_prefix(repeat) + "-"@ + inner_name + if is_plural(repeat, inner) {
        "s"@
    } else {
        Seq::empty()
    }
}

/// The quoted form of each code point, taken as a one-character string.
pub open spec fn quoted_values(values: Seq<u32>) -> Seq<Seq<char>> {
    Seq::new(values.len(), |i: int| quoted_code(values[i]))
}

/// The names of the children, each as it is written inside a larger name.
pub open spec fn names_of(children: Seq<Tree>) -> Seq<Seq<char>>
    decreases children,
{
    Seq::new(
        children.len(),
        |i: int|
            if 0 <= i < children.len() {
                name_text(children[i], false)
            } else {
                Seq::empty()
            },
    )
}

/// The name of a tree: a function of its structure and of whether it is the
/// root of a rule.
///
/// Alternatives are joined with `-or-`, a concatenation with `-and-`. A
/// repetition is named by [`repetition_text`], its element never being at the
/// root. A group is named as what it holds, an optional as `optional-` and
/// what it holds. A rule name and a literal are their own names. A range is
/// `b`, its first code point, `-to-b` and its last one; listed code points
/// are quoted and joined with `-and-`. Alternatives, concatenations,
/// repetitions and ranges stand between markers unless at the root
/// ([`nested`]). Every name is sanitized at the end. Prose has no name.
pub open spec fn name_text(tree: Tree, toplevel: bool) -> Seq<char>
    decreases tree,
{
    match tree {
        Tree::Alternatives(children) => sanitized(
            nested(join(names_of(children), "-or-"@), toplevel),
        ),
        Tree::Concatenation(children) => sanitized(
            nested(join(names_of(children), "-and-"@), toplevel),
        ),
        Tree::Repetition { repeat, inner } => sanitized(
            nested(repetition_text(repeat, *inner, name_text(*inner, false)), toplevel),
        ),
        Tree::Rulename(name) => sanitized(name),
        Tree::Group(inner) => name_text(*inner, toplevel),
        Tree::Optional(inner) => sanitized("optional-"@ + name_text(*inner, false)),
        Tree::String { value, case_sensitive } => sanitized(value),
        Tree::Range(start, end) => sanitized(
            nested("b"@ + decimal(start as nat) + "-to-b"@ + decimal(end as nat), toplevel),
        ),
        Tree::Values(values) => sanitized(join(quoted_values(values), "-and-"@)),
        Tree::Prose(text) => Seq::empty(),
    }
}

/// Whether each of the children can be named.
pub open spec fn all_nameable(children: Seq<Tree>) -> bool
    decreases children,
{
    forall|i: int| 0 <= i < children.len() ==> nameable(#[trigger] children[i])
}

/// Whether a tree can be named: it holds no prose, and every listed code
/// point is the code of a character.
pub open spec fn nameable(tree: Tree) -> bool
    decreases tree,
{
    match tree {
        Tree::Alternatives(children) => all_nameable(children),
        Tree::Concatenation(children) => all_nameable(children),
        Tree::Repetition { repeat, inner } => nameable(*inner),
        Tree::Group(inner) => nameable(*inner),
        Tree::Optional(inner) => nameable(*inner),
        Tree::Values(values) => all_scalar(values),
        Tree::Prose(text) => false,
        _ => true,
    }
}

/// What naming `tree` returns: its name where it can be named, the error
/// where it cannot.
pub open spec fn is_name_of(r: Result<String, ConvertError>, tree: Tree, toplevel: bool) -> bool {
    match r {
        Ok(name) => nameable(tree) && name@ == name_text(tree, toplevel),
        Err(e) => !nameable(tree) && e == ConvertError::UnsupportedConstruct,
    }
}

fn with_nesting(text: String, toplevel: bool) -> (out: String)
    ensures
        out@ == nested(text@, toplevel),
{
    if toplevel {
        text
    } else {
        let mut out = String::new();
        push_char(&mut out, NESTED_RULE_START);
        out.append(text.as_str());
        push_char(&mut out, NESTED_RULE_END);
        assert(out@ =~= nested(text@, toplevel));
        out
    }
}

fn repeat_prefix_string(repeat: &Repeat) -> (out: String)
    ensures
        out@ == repeat_prefix(*repeat),
{
    let mut out = String::new();
    match repeat {
        Repeat::Specific(n) => {
            push_decimal(&mut out, *n as u64);
        },
        Repeat::Variable { min: Some(a), max: Some(b) } => {
            out.append("between-");
            push_decimal(&mut out, *a as u64);
            out.append("-and-");
            push_decimal(&mut out, *b as u64);
        },
        Repeat::Variable { min: Some(a), max: None } => {
            out.append("at-least-");
            push_decimal(&mut out, *a as u64);
        },
        Repeat::Variable { min: None, max: Some(b) } => {
            out.append("at-most-");
            push_decimal(&mut out, *b as u64);
        },
        Repeat::Variable { min: None, max: None } => {
            out.append("zero-or-more");
        },
    }
    assert(out@ =~= repeat_prefix(*repeat));
    out
}

fn takes_plural(repeat: &Repeat, inner: &GrammarNode) -> (plural: bool)
    ensures
        plural == is_plural(*repeat, inner@),
{
    let compound = match inner {
        GrammarNode::Group(_) => true,
        GrammarNode::Repetition { .. } => true,
        _ => false,
    };
    let single = match repeat {
        Repeat::Variable { min: Some(a), max: None } => *a == 1,
        Repeat::Variable { min: None, max: Some(b) } => *b == 1,
        _ => false,
    };
    !compound && !single
}

/// Quotes each code point and joins the results with `sep`; fails where one
/// of them is not the code of a character.
pub(crate) fn joined_values(values: &Vec<u32>, sep: &str) -> (r: Result<String, ConvertError>)
    ensures
        match r {
            Ok(text) => all_scalar(values@) && text@ == join(quoted_values(values@), sep@),
            Err(e) => !all_scalar(values@) && e == ConvertError::UnsupportedConstruct,
        },
{
    let mut out = String::new();
    let mut i: usize = 0;
    while i < values.len()
        invariant
            i <= values.len(),
            all_scalar(values@.take(i as int)),
            out@ == join(quoted_values(values@).take(i as int), sep@),
        decreases values.len() - i,
    {
        match quote_code(values[i]) {
            Some(quoted) => {
                proof {
                    lemma_join_step(quoted_values(values@), sep@, i as int);
                }
                if i > 0 {
                    out.append(sep);
                }
                out.append(quoted.as_str());
            },
            None => {
                assert(!is_scalar_value(values@[i as int]));
                return Err(ConvertError::UnsupportedConstruct);
            },
        }
        i = i + 1;
    }
    assert(values@.take(i as int) =~= values@);
    assert(quoted_values(values@).take(i as int) =~= quoted_values(values@));
    Ok(out)
}

pub(crate) fn joined_names(nodes: &Vec<GrammarNode>, sep: &str) -> (r: Result<String, ConvertError>)
    ensures
        match r {
            Ok(text) => all_nameable(trees_of(nodes@)) && text@ == join(
                names_of(trees_of(nodes@)),
                sep@,
            ),
            Err(e) => !all_nameable(trees_of(nodes@)) && e == ConvertError::UnsupportedConstruct,
        },
    decreases nodes, 0int,
{
    let ghost children = trees_of(nodes@);
    let mut out = String::new();
    let mut i: usize = 0;
    while i < nodes.len()
        invariant
            i <= nodes.len(),
            children == trees_of(nodes@),
            all_nameable(children.take(i as int)),
            out@ == join(names_of(children).take(i as int), sep@),
        decreases nodes.len() - i,
    {
        match json_rule_name_from_group(&nodes[i], false) {
            Ok(name) => {
                proof {
                    lemma_join_step(names_of(children), sep@, i as int);
                }
                if i > 0 {
                    out.append(sep);
                }
                out.append(name.as_str());
            },
            Err(e) => {
                assert(!nameable(children[i as int]));
                return Err(e);
            },
        }
        i = i + 1;
    }
    assert(children.take(i as int) =~= children);
    assert(names_of(children).take(i as int) =~= names_of(children));
    Ok(out)
}

/// Names a repetition: the words for its bounds, a dash, the name of the
/// repeated element, and `s` where the element takes the plural. The element
/// is named as the root of a rule where `toplevel` is set.
pub fn repetition_rule_name(node: &GrammarNode, toplevel: bool) -> (r: Result<String, ConvertError>)
    requires
        node is Repetition,
    ensures
        match r {
            Ok(name) => nameable(node@) && name@ == repetition_text(
                node@->repeat,
                *node@->inner,
                name_text(*node@->inner, toplevel),
            ),
            Err(e) => !nameable(node@) && e == ConvertError::UnsupportedConstruct,
        },
    decreases node, 0int,
{
    match node {
        GrammarNode::Repetition { repeat, node: inner } => {
            match json_rule_name_from_group(inner, toplevel) {
                Ok(inner_name) => {
                    let mut out = repeat_prefix_string(repeat);
                    out.append("-");
                    out.append(inner_name.as_str());
                    if takes_plural(repeat, inner) {
                        out.append("s");
                    }
                    assert(out@ =~= repetition_text(*repeat, inner@, inner_name@));
                    Ok(out)
                },
                Err(e) => Err(e),
            }
        },
        _ => Err(ConvertError::UnsupportedConstruct),
    }
}

/// Names a node. The name depends on the node's tree and on `toplevel`
/// alone; it fails exactly where the tree cannot be named.
pub fn json_rule_name_from_group(node: &GrammarNode, toplevel: bool) -> (r: Result<
    String,
    ConvertError,
>)
    ensures
        is_name_of(r, node@, toplevel),
    decreases node, 1int,
{
    let text = match node {
        GrammarNode::Alternatives(nodes) => {
            match joined_names(nodes, "-or-") {
                Ok(joined) => with_nesting(joined, toplevel),
                Err(e) => {
                    return Err(e);
                },
            }
        },
        GrammarNode::Concatenation(nodes) => {
            match joined_names(nodes, "-and-") {
                Ok(joined) => with_nesting(joined, toplevel),
                Err(e) => {
                    return Err(e);
                },
            }
        },
        GrammarNode::Repetition { .. } => {
            match repetition_rule_name(node, false) {
                Ok(text) => with_nesting(text, toplevel),
                Err(e) => {
                    return Err(e);
                },
            }
        },
        GrammarNode::Rulename(name) => {
            return Ok(sanitize(name.as_str()));
        },
        GrammarNode::Group(inner) => {
            return json_rule_name_from_group(inner, toplevel);
        },
        GrammarNode::Optional(inner) => {
            match json_rule_name_from_group(inner, false) {
                Ok(inner_name) => {
                    let mut out = String::new();
                    out.append("optional-");
                    out.append(inner_name.as_str());
                    assert(out@ =~= "optional-"@ + inner_name@);
                    out
                },
                Err(e) => {
                    return Err(e);
                },
            }
        },
        GrammarNode::String(literal) => {
            return Ok(sanitize(literal.value.as_str()));
        },
        GrammarNode::TerminalValues(TerminalValues::Range(start, end)) => {
            let mut out = String::new();
            out.append("b");
            push_decimal(&mut out, *start as u64);
            out.append("-to-b");
            push_decimal(&mut out, *end as u64);
            assert(out@ =~= "b"@ + decimal(*start as nat) + "-to-b"@ + decimal(*end as nat));
            with_nesting(out, toplevel)
        },
        GrammarNode::TerminalValues(TerminalValues::Concatenation(values)) => {
            match joined_values(values, "-and-") {
                Ok(joined) => joined,
                Err(e) => {
                    return Err(e);
                },
            }
        },
        GrammarNode::Prose(_) => {
            return Err(ConvertError::UnsupportedConstruct);
        },
    };
    Ok(sanitize(text.as_str()))
}

/// Naming depends on structure alone: two nodes that stand for the same
/// tree have the same outcome, the same name or the same failure.
pub proof fn lemma_name_depends_on_structure(
    a: GrammarNode,
    b: GrammarNode,
    toplevel: bool,
    first: Result<String, ConvertError>,
    second: Result<String, ConvertError>,
)
    requires
        a@ == b@,
        is_name_of(first, a@, toplevel),
        is_name_of(second, b@, toplevel),
    ensures
        first is Ok <==> second is Ok,
        first matches Ok(x) ==> second matches Ok(y) && x@ == y@,
        first matches Err(e) ==> second == Err::<String, ConvertError>(e),
{
}

/// Every name is sanitized: it holds no `.`, no `_` and no `--`.
pub proof fn lemma_name_is_clean(tree: Tree, toplevel: bool)
    ensures
        is_clean(name_text(tree, toplevel)),
    decreases tree,
{
    match tree {
        Tree::Alternatives(children) => {
            lemma_sanitized_is_clean(nested(join(names_of(children), "-or-"@), toplevel));
        },
        Tree::Concatenation(children) => {
            lemma_sanitized_is_clean(nested(join(names_of(children), "-and-"@), toplevel));
        },
        Tree::Repetition { repeat, inner } => {
            lemma_sanitized_is_clean(
                nested(repetition_text(repeat, *inner, name_text(*inner, false)), toplevel),
            );
        },
        Tree::Rulename(name) => {
            lemma_sanitized_is_clean(name);
        },
        Tree::Group(inner) => {
            lemma_name_is_clean(*inner, toplevel);
        },
        Tree::Optional(inner) => {
            lemma_sanitized_is_clean("optional-"@ + name_text(*inner, false));
        },
        Tree::String { value, case_sensitive } => {
            lemma_sanitized_is_clean(value);
        },
        Tree::Range(start, end) => {
            lemma_sanitized_is_clean(
                nested("b"@ + decimal(start as nat) + "-to-b"@ + decimal(end as nat), toplevel),
            );
        },
        Tree::Values(values) => {
            lemma_sanitized_is_clean(join(quoted_values(values), "-and-"@));
        },
        Tree::Prose(text) => {},
    }
}

/// A group is named as what it holds, and sanitizing a name again changes
/// nothing.
pub proof fn lemma_name_of_group(inner: Tree, toplevel: bool)
    ensures
        name_text(Tree::Group(Box::new(inner)), toplevel) == name_text(inner, toplevel),
        sanitized(name_text(inner, toplevel)) == name_text(inner, toplevel),
{
    lemma_name_is_clean(inner, toplevel);
    lemma_sanitized_of_clean(name_text(inner, toplevel));
}

} // verus!
