//! Extraction: which nodes of the grammar get a rule of their own.

use crate::grammar::{
    productions_of, trees_of, GrammarNode, Production, Rule, TerminalValues, Tree,
};
use vstd::prelude::*;

verus! {

/// What the children contribute, child after child.
pub open spec fn extracted_from_all(children: Seq<Tree>) -> Seq<Tree>
    decreases children,
{
    if children.len() == 0 {
        Seq::empty()
    } else {
        extracted_from_all(children.drop_last()) + extracted_from(children.last())
    }
}

/// The trees inside `tree`, itself included, that get a rule of their own, in
/// the order in which a walk from the root meets them: every repetition,
/// group and optional, followed by what its element holds, and every range.
/// Alternatives and concatenations only pass on what their children hold.
pub open spec fn extracted_from(tree: Tree) -> Seq<Tree>
    decreases tree,
{
    match tree {
        Tree::Alternatives(children) => extracted_from_all(children),
        Tree::Concatenation(children) => extracted_from_all(children),
        Tree::Repetition { repeat, inner } => seq![tree] + extracted_from(*inner),
        Tree::Group(inner) => seq![tree] + extracted_from(*inner),
        Tree::Optional(inner) => seq![tree] + extracted_from(*inner),
        Tree::Range(start, end) => seq![tree],
        _ => Seq::empty(),
    }
}

/// The definitions of the rules, in order.
pub open spec fn definitions_of(rules: Seq<Production>) -> Seq<Tree> {
    Seq::new(rules.len(), |i: int| rules[i].tree)
}

/// What all the rules contribute, rule after rule.
pub open spec fn extracted_from_rules(rules: Seq<Production>) -> Seq<Tree> {
    extracted_from_all(definitions_of(rules))
}

/// The kinds of tree that get a rule of their own.
pub open spec fn needs_rule(tree: Tree) -> bool {
    tree is Repetition || tree is Group || tree is Optional || tree is Range
}

/// Every tree in a sequence gets a rule of its own.
pub open spec fn all_need_rules(trees: Seq<Tree>) -> bool {
    forall|i: int| 0 <= i < trees.len() ==> needs_rule(#[trigger] trees[i])
}

proof fn lemma_extracted_from_all_need_rules(children: Seq<Tree>)
    ensures
        all_need_rules(extracted_from_all(children)),
    decreases children,
{
    if children.len() > 0 {
        lemma_extracted_from_all_need_rules(children.drop_last());
        lemma_extracted_need_rules(children.last());
    }
}

/// Only repetitions, groups, optionals and ranges are extracted: never
/// alternatives, concatenations, rule names, literals, listed code points or
/// prose.
pub proof fn lemma_extracted_need_rules(tree: Tree)
    ensures
        all_need_rules(extracted_from(tree)),
    decreases tree,
{
    match tree {
        Tree::Alternatives(children) => {
            lemma_extracted_from_all_need_rules(children);
        },
        Tree::Concatenation(children) => {
            lemma_extracted_from_all_need_rules(children);
        },
        Tree::Repetition { repeat, inner } => {
            lemma_extracted_need_rules(*inner);
        },
        Tree::Group(inner) => {
            lemma_extracted_need_rules(*inner);
        },
        Tree::Optional(inner) => {
            lemma_extracted_need_rules(*inner);
        },
        _ => {},
    }
}

/// What the first `i + 1` children contribute extends what the first `i` do.
proof fn lemma_extracted_step(children: Seq<Tree>, i: int)
    requires
        0 <= i < children.len(),
    ensures
        extracted_from_all(children.take(i + 1)) == extracted_from_all(children.take(i))
            + extracted_from(children[i]),
{
    assert(children.take(i + 1).drop_last() =~= children.take(i));
}

fn extract_from_each(nodes: &Vec<GrammarNode>, ret: &mut Vec<GrammarNode>)
    ensures
        trees_of(final(ret)@) == trees_of(old(ret)@) + extracted_from_all(trees_of(nodes@)),
    decreases nodes, 0int,
{
    let ghost before = trees_of(ret@);
    let ghost children = trees_of(nodes@);
    let mut i: usize = 0;
    while i < nodes.len()
        invariant
            i <= nodes.len(),
            children == trees_of(nodes@),
            trees_of(ret@) == before + extracted_from_all(children.take(i as int)),
        decreases nodes.len() - i,
    {
        proof {
            lemma_extracted_step(children, i as int);
        }
        extract_nested_groups_from_node(&nodes[i], ret);
        i = i + 1;
    }
    assert(children.take(i as int) =~= children);
}

fn push_copy(node: &GrammarNode, ret: &mut Vec<GrammarNode>)
    ensures
        trees_of(final(ret)@) == trees_of(old(ret)@).push(node@),
{
    ret.push(node.clone());
    assert(trees_of(ret@) =~= trees_of(old(ret)@).push(node@));
}

/// Appends to `ret` the nodes inside `node` that get a rule of their own, in
/// the order of [`extracted_from`].
pub fn extract_nested_groups_from_node(node: &GrammarNode, ret: &mut Vec<GrammarNode>)
    ensures
        trees_of(final(ret)@) == trees_of(old(ret)@) + extracted_from(node@),
    decreases node, 1int,
{
    match node {
        GrammarNode::Alternatives(nodes) => {
            extract_from_each(nodes, ret);
        },
        GrammarNode::Concatenation(nodes) => {
            extract_from_each(nodes, ret);
        },
        GrammarNode::Repetition { repeat, node: inner } => {
            push_copy(node, ret);
            extract_nested_groups_from_node(inner, ret);
            assert(trees_of(ret@) =~= trees_of(old(ret)@) + extracted_from(node@));
        },
        GrammarNode::Group(inner) => {
            push_copy(node, ret);
            extract_nested_groups_from_node(inner, ret);
            assert(trees_of(ret@) =~= trees_of(old(ret)@) + extracted_from(node@));
        },
        GrammarNode::Optional(inner) => {
            push_copy(node, ret);
            extract_nested_groups_from_node(inner, ret);
            assert(trees_of(ret@) =~= trees_of(old(ret)@) + extracted_from(node@));
        },
        GrammarNode::TerminalValues(TerminalValues::Range(start, end)) => {
            push_copy(node, ret);
            assert(trees_of(ret@) =~= trees_of(old(ret)@) + extracted_from(node@));
        },
        _ => {
            assert(trees_of(ret@) =~= trees_of(old(ret)@) + extracted_from(node@));
        },
    }
}

/// The nodes of all the rules that get a rule of their own, in the order in
/// which a walk through the rules meets them. A node that occurs twice is
/// listed twice.
pub fn extract_nested_grups_from_rules(rules: &[Rule]) -> (ret: Vec<GrammarNode>)
    ensures
        trees_of(ret@) == extracted_from_rules(productions_of(rules@)),
{
    let ghost definitions = definitions_of(productions_of(rules@));
    let mut ret: Vec<GrammarNode> = Vec::new();
    let mut i: usize = 0;
    while i < rules.len()
        invariant
            i <= rules.len(),
            definitions == definitions_of(productions_of(rules@)),
            trees_of(ret@) == extracted_from_all(definitions.take(i as int)),
        decreases rules.len() - i,
    {
        proof {
            lemma_extracted_step(definitions, i as int);
        }
        extract_nested_groups_from_node(rules[i].node(), &mut ret);
        i = i + 1;
    }
    assert(definitions.take(i as int) =~= definitions);
    ret
}

} // verus!
