//! The grammar as data: rules and the nodes of their syntax trees, each with
//! the mathematical value that the contracts of this crate speak of.

use vstd::prelude::*;

verus! {

/// How often the element of a repetition occurs.
#[derive(Clone, Copy, Debug, PartialEq, Eq)]
pub enum Repeat {
    /// Exactly this many times.
    Specific(usize),
    /// Between `min` and `max` times, each bound optional and inclusive.
    Variable { min: Option<usize>, max: Option<usize> },
}

/// A terminal given by code points.
#[derive(Clone, Debug, PartialEq, Eq)]
pub enum TerminalValues {
    /// Any single code point between the two bounds, both inclusive.
    Range(u32, u32),
    /// The listed code points, one after the other.
    Concatenation(Vec<u32>),
}

/// A literal text terminal. Two literals with the same text are different
/// nodes where only one of them is case sensitive.
#[derive(Clone, Debug, PartialEq, Eq)]
pub struct StringLiteral {
    pub value: String,
    pub case_sensitive: bool,
}

/// A node of a rule's syntax tree.
#[derive(Debug, PartialEq, Eq)]
pub enum GrammarNode {
    /// One of the children.
    Alternatives(Vec<GrammarNode>),
    /// All the children, one after the other.
    Concatenation(Vec<GrammarNode>),
    /// The element `node`, as often as `repeat` says.
    Repetition { repeat: Repeat, node: Box<GrammarNode> },
    /// The rule of this name.
    Rulename(String),
    /// A node in parentheses.
    Group(Box<GrammarNode>),
    /// A node that may be left out.
    Optional(Box<GrammarNode>),
    /// A literal text.
    String(StringLiteral),
    /// Characters given by their code points.
    TerminalValues(TerminalValues),
    /// A description in words, which stands for nothing that can be written.
    Prose(String),
}

/// A named rule of the grammar.
#[derive(Clone, Debug, PartialEq, Eq)]
pub struct Rule {
    pub name: String,
    pub node: GrammarNode,
}

/// The mathematical value of a [`GrammarNode`]: the same tree over
/// sequences. Two nodes are structurally equal exactly when their trees are
/// equal.
pub enum Tree {
    /// One of the children.
    Alternatives(Seq<Tree>),
    /// All the children, one after the other.
    Concatenation(Seq<Tree>),
    /// The element `inner`, as often as `repeat` says.
    Repetition { repeat: Repeat, inner: Box<Tree> },
    /// The rule of this name.
    Rulename(Seq<char>),
    /// A tree in parentheses.
    Group(Box<Tree>),
    /// A tree that may be left out.
    Optional(Box<Tree>),
    /// A literal text.
    String { value: Seq<char>, case_sensitive: bool },
    /// Any single code point between the two bounds, both inclusive.
    Range(u32, u32),
    /// The listed code points, one after the other.
    Values(Seq<u32>),
    /// A description in words.
    Prose(Seq<char>),
}

/// The mathematical value of a [`Rule`].
pub struct Production {
    pub name: Seq<char>,
    pub tree: Tree,
}

/// The trees that a sequence of nodes stands for, in order.
pub open spec fn trees_of(nodes: Seq<GrammarNode>) -> Seq<Tree>
    decreases nodes,
{
    Seq::new(
        nodes.len(),
        |i: int|
            if 0 <= i < nodes.len() {
                tree_of(nodes[i])
            } else {
                Tree::Values(Seq::empty())
            },
    )
}

/// The tree that a node stands for.
pub open spec fn tree_of(node: GrammarNode) -> Tree
    decreases node,
{
    match node {
        GrammarNode::Alternatives(nodes) => Tree::Alternatives(trees_of(nodes@)),
        GrammarNode::Concatenation(nodes) => Tree::Concatenation(trees_of(nodes@)),
        GrammarNode::Repetition { repeat, node } => Tree::Repetition {
            repeat,
            inner: Box::new(tree_of(*node)),
        },
        GrammarNode::Rulename(name) => Tree::Rulename(name@),
        GrammarNode::Group(inner) => Tree::Group(Box::new(tree_of(*inner))),
        GrammarNode::Optional(inner) => Tree::Optional(Box::new(tree_of(*inner))),
        GrammarNode::String(literal) => Tree::String {
            value: literal.value@,
            case_sensitive: literal.case_sensitive,
        },
        GrammarNode::TerminalValues(TerminalValues::Range(start, end)) => Tree::Range(start, end),
        GrammarNode::TerminalValues(TerminalValues::Concatenation(values)) => Tree::Values(values@),
        GrammarNode::Prose(text) => Tree::Prose(text@),
    }
}

impl View for GrammarNode {
    type V = Tree;

    open spec fn view(&self) -> Tree {
        tree_of(*self)
    }
}

impl View for Rule {
    type V = Production;

    open spec fn view(&self) -> Production {
        Production { name: self.name@, tree: self.node@ }
    }
}

/// The productions that a sequence of rules stands for, in order.
pub open spec fn productions_of(rules: Seq<Rule>) -> Seq<Production> {
    Seq::new(rules.len(), |i: int| rules[i]@)
}

impl Rule {
    /// A rule called `name` that is defined by `node`.
    pub fn new(name: &str, node: GrammarNode) -> (rule: Rule)
        ensures
            rule@ == (Production { name: name@, tree: node@ }),
    {
        Rule { name: name.to_owned(), node }
    }

    /// The rule's name.
    pub fn name(&self) -> (name: &str)
        ensures
            name@ == self@.name,
    {
        self.name.as_str()
    }

    /// The rule's definition.
    pub fn node(&self) -> (node: &GrammarNode)
        ensures
            node@ == self@.tree,
    {
        &self.node
    }
}

impl StringLiteral {
    /// A literal with the text `value`.
    pub fn new(value: String, case_sensitive: bool) -> (literal: StringLiteral)
        ensures
            literal.value@ == value@,
            literal.case_sensitive == case_sensitive,
    {
        StringLiteral { value, case_sensitive }
    }

    /// The literal's text.
    pub fn as_str(&self) -> (text: &str)
        ensures
            text@ == self.value@,
    {
        self.value.as_str()
    }
}

fn clone_nodes(nodes: &Vec<GrammarNode>) -> (copies: Vec<GrammarNode>)
    ensures
        trees_of(copies@) == trees_of(nodes@),
    decreases nodes,
{
    let mut copies: Vec<GrammarNode> = Vec::new();
    let mut i: usize = 0;
    while i < nodes.len()
        invariant
            i <= nodes.len(),
            copies.len() == i,
            forall|k: int| 0 <= k < i ==> copies@[k]@ == nodes@[k]@,
        decreases nodes.len() - i,
    {
        copies.push(nodes[i].clone());
        i = i + 1;
    }
    copies
}

impl Clone for GrammarNode {
    /// A copy that stands for the same tree.
    fn clone(&self) -> (copy: Self)
        ensures
            copy@ == self@,
        decreases self,
    {
        match self {
            GrammarNode::Alternatives(nodes) => GrammarNode::Alternatives(clone_nodes(nodes)),
            GrammarNode::Concatenation(nodes) => GrammarNode::Concatenation(clone_nodes(nodes)),
            GrammarNode::Repetition { repeat, node } => GrammarNode::Repetition {
                repeat: *repeat,
                node: Box::new((&**node).clone()),
            },
            GrammarNode::Rulename(name) => GrammarNode::Rulename(name.clone()),
            GrammarNode::Group(inner) => GrammarNode::Group(Box::new((&**inner).clone())),
            GrammarNode::Optional(inner) => GrammarNode::Optional(Box::new((&**inner).clone())),
            GrammarNode::String(literal) => GrammarNode::String(
                StringLiteral {
                    value: literal.value.clone(),
                    case_sensitive: literal.case_sensitive,
                },
            ),
            GrammarNode::TerminalValues(TerminalValues::Range(start, end)) => {
                GrammarNode::TerminalValues(TerminalValues::Range(*start, *end))
            },
            GrammarNode::TerminalValues(TerminalValues::Concatenation(values)) => {
                GrammarNode::TerminalValues(TerminalValues::Concatenation(values.clone()))
            },
            GrammarNode::Prose(text) => GrammarNode::Prose(text.clone()),
        }
    }
}

fn values_same(a: &Vec<u32>, b: &Vec<u32>) -> (same: bool)
    ensures
        same == (a@ == b@),
{
    if a.len() != b.len() {
        return false;
    }
    let mut i: usize = 0;
    while i < a.len()
        invariant
            i <= a.len(),
            a.len() == b.len(),
            forall|k: int| 0 <= k < i ==> a@[k] == b@[k],
        decreases a.len() - i,
    {
        if a[i] != b[i] {
            return false;
        }
        i = i + 1;
    }
    assert(a@ =~= b@);
    true
}

fn bounds_same(a: &Option<usize>, b: &Option<usize>) -> (same: bool)
    ensures
        same == (*a == *b),
{
    match (a, b) {
        (Some(m), Some(n)) => *m == *n,
        (None, None) => true,
        _ => false,
    }
}

fn repeats_same(a: &Repeat, b: &Repeat) -> (same: bool)
    ensures
        same == (*a == *b),
{
    match (a, b) {
        (Repeat::Specific(m), Repeat::Specific(n)) => *m == *n,
        (
            Repeat::Variable { min: a_min, max: a_max },
            Repeat::Variable { min: b_min, max: b_max },
        ) => bounds_same(a_min, b_min) && bounds_same(a_max, b_max),
        _ => false,
    }
}

fn nodes_same(a: &Vec<GrammarNode>, b: &Vec<GrammarNode>) -> (same: bool)
    ensures
        same == (trees_of(a@) == trees_of(b@)),
    decreases a,
{
    if a.len() != b.len() {
        assert(trees_of(a@).len() != trees_of(b@).len());
        return false;
    }
    let mut i: usize = 0;
    while i < a.len()
        invariant
            i <= a.len(),
            a.len() == b.len(),
            forall|k: int| 0 <= k < i ==> a@[k]@ == b@[k]@,
        decreases a.len() - i,
    {
        if !a[i].same_as(&b[i]) {
            assert(trees_of(a@)[i as int] != trees_of(b@)[i as int]);
            return false;
        }
        i = i + 1;
    }
    assert(trees_of(a@) =~= trees_of(b@));
    true
}

impl GrammarNode {
    /// Structural equality: whether two nodes stand for the same tree.
    pub fn same_as(&self, other: &GrammarNode) -> (same: bool)
        ensures
            same == (self@ == other@),
        decreases self,
    {
        match (self, other) {
            (GrammarNode::Alternatives(a), GrammarNode::Alternatives(b)) => nodes_same(a, b),
            (GrammarNode::Concatenation(a), GrammarNode::Concatenation(b)) => nodes_same(a, b),
            (
                GrammarNode::Repetition { repeat: a_repeat, node: a },
                GrammarNode::Repetition { repeat: b_repeat, node: b },
            ) => repeats_same(a_repeat, b_repeat) && (&**a).same_as(&**b),
            (GrammarNode::Rulename(a), GrammarNode::Rulename(b)) => *a == *b,
            (GrammarNode::Group(a), GrammarNode::Group(b)) => (&**a).same_as(&**b),
            (GrammarNode::Optional(a), GrammarNode::Optional(b)) => (&**a).same_as(&**b),
            (GrammarNode::String(a), GrammarNode::String(b)) => a.value == b.value
                && a.case_sensitive == b.case_sensitive,
            (
                GrammarNode::TerminalValues(TerminalValues::Range(a_start, a_end)),
                GrammarNode::TerminalValues(TerminalValues::Range(b_start, b_end)),
            ) => *a_start == *b_start && *a_end == *b_end,
            (
                GrammarNode::TerminalValues(TerminalValues::Concatenation(a)),
                GrammarNode::TerminalValues(TerminalValues::Concatenation(b)),
            ) => values_same(a, b),
            (GrammarNode::Prose(a), GrammarNode::Prose(b)) => *a == *b,
            _ => false,
        }
    }
}

/// Whether `list` holds a node that stands for the same tree as `node`.
pub fn contains_node(list: &[GrammarNode], node: &GrammarNode) -> (found: bool)
    ensures
        found == trees_of(list@).contains(node@),
{
    let mut i: usize = 0;
    while i < list.len()
        invariant
            i <= list.len(),
            forall|k: int| 0 <= k < i ==> list@[k]@ != node@,
        decreases list.len() - i,
    {
        if list[i].same_as(node) {
            assert(trees_of(list@)[i as int] == node@);
            return true;
        }
        i = i + 1;
    }
    false
}

} // verus!
