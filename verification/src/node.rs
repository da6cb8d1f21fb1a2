//! The tree that the right-hand side of a rule is parsed into.

use crate::syntax::{is_literal_text, is_name};
use vstd::prelude::*;

verus! {

/// Which postfix operator follows a term.
#[derive(Debug, Clone, Copy, PartialEq, Eq, Structural)]
pub enum RegexExtKind {
    /// `*`: zero or more.
    Repeat0,
    /// `+`: one or more.
    Repeat1,
    /// `?`: zero or one.
    Optional,
}

/// Which explicit binary operator joins two operands.
#[derive(Debug, Clone, Copy, PartialEq, Eq, Structural)]
pub enum SymbolKind {
    /// `,`
    Concatenation,
    /// `|`
    Alternation,
}

/// One node of the right-hand side of a rule. Every node owns its children.
#[derive(Debug, PartialEq, Eq)]
pub enum Node {
    /// The raw text between the quotes of a string literal, escapes undecoded.
    String(String),
    /// The raw text between the quotes of a regex literal, escapes undecoded.
    RegexString(String),
    /// A reference to a rule by its name.
    Terminal(String),
    /// Two or more nodes that follow each other without an operator.
    Multiple(Vec<Node>),
    /// A node followed by a postfix operator.
    RegexExt(Box<Node>, RegexExtKind),
    /// Two nodes joined by an explicit operator.
    Symbol(Box<Node>, SymbolKind, Box<Node>),
    /// `( ... )`
    Group(Box<Node>),
    /// `[ ... ]`
    Optional(Box<Node>),
    /// `{ ... }`
    Repeat(Box<Node>),
    /// A placeholder that no parse produces.
    Unknown,
}

/// The mathematical value of a [`Node`].
pub enum Tree {
    String(Seq<char>),
    RegexString(Seq<char>),
    Terminal(Seq<char>),
    Multiple(Seq<Tree>),
    RegexExt(Box<Tree>, RegexExtKind),
    Symbol(Box<Tree>, SymbolKind, Box<Tree>),
    Group(Box<Tree>),
    Optional(Box<Tree>),
    Repeat(Box<Tree>),
    Unknown,
}

impl Tree {
    /// A literal, a reference to a rule, or a bracketed construct.
    pub open spec fn is_atom(self) -> bool {
        self is String || self is RegexString || self is Terminal || self is Group
            || self is Optional || self is Repeat
    }

    /// An atom, alone or under a postfix operator.
    pub open spec fn is_term(self) -> bool {
        self.is_atom() || self is RegexExt
    }

    /// The shape of the trees that stand for a right-hand side. A literal
    /// holds a text that can stand between quotes of one of the two kinds,
    /// and a reference holds an identifier. A postfix operator stands over
    /// an atom. The left operand of a binary operator is a term,
    /// so that chains of operators nest to the right, and its right operand
    /// is no `Multiple`. A `Multiple` holds two or more trees, none of them a
    /// `Multiple` itself. `Unknown` occurs nowhere.
    pub open spec fn well_formed(self) -> bool
        decreases self,
    {
        match self {
            Tree::String(text) => is_literal_text(text, '\'') || is_literal_text(text, '"'),
            Tree::RegexString(text) => is_literal_text(text, '\'') || is_literal_text(text, '"'),
            Tree::Terminal(name) => is_name(name),
            Tree::Multiple(nodes) => {
                &&& nodes.len() >= 2
                &&& forall|i: int|
                    0 <= i < nodes.len() ==> !(#[trigger] nodes[i] is Multiple)
                        && nodes[i].well_formed()
            },
            Tree::RegexExt(inner, _) => inner.is_atom() && inner.well_formed(),
            Tree::Symbol(left, _, right) => {
                &&& left.is_term()
                &&& left.well_formed()
                &&& !(*right is Multiple)
                &&& right.well_formed()
            },
            Tree::Group(inner) => inner.well_formed(),
            Tree::Optional(inner) => inner.well_formed(),
            Tree::Repeat(inner) => inner.well_formed(),
            Tree::Unknown => false,
        }
    }
}

/// The value of a node: its shape, with each text as a sequence of characters.
pub open spec fn tree_of(node: Node) -> Tree
    decreases node,
{
    match node {
        Node::String(text) => Tree::String(text@),
        Node::RegexString(text) => Tree::RegexString(text@),
        Node::Terminal(name) => Tree::Terminal(name@),
        Node::Multiple(nodes) => Tree::Multiple(
            Seq::new(
                nodes@.len(),
                |i: int|
                    if 0 <= i < nodes@.len() {
                        tree_of(nodes@[i])
                    } else {
                        // Outside the sequence; the condition shows that the
                        // definition is well-founded.
                        Tree::Unknown
                    },
            ),
        ),
        Node::RegexExt(inner, kind) => Tree::RegexExt(Box::new(tree_of(*inner)), kind),
        Node::Symbol(left, kind, right) => Tree::Symbol(
            Box::new(tree_of(*left)),
            kind,
            Box::new(tree_of(*right)),
        ),
        Node::Group(inner) => Tree::Group(Box::new(tree_of(*inner))),
        Node::Optional(inner) => Tree::Optional(Box::new(tree_of(*inner))),
        Node::Repeat(inner) => Tree::Repeat(Box::new(tree_of(*inner))),
        Node::Unknown => Tree::Unknown,
    }
}

/// The values of the nodes in a vector, in order.
pub open spec fn trees_of(nodes: Seq<Node>) -> Seq<Tree> {
    Seq::new(nodes.len(), |i: int| tree_of(nodes[i]))
}

/// The value of a `Multiple` holds the values of its nodes.
pub proof fn lemma_tree_of_multiple(nodes: Vec<Node>)
    ensures
        tree_of(Node::Multiple(nodes)) == Tree::Multiple(trees_of(nodes@)),
{
    assert(tree_of(Node::Multiple(nodes))->Multiple_0 =~= trees_of(nodes@));
}

impl View for Node {
    type V = Tree;

    open spec fn view(&self) -> Tree {
        tree_of(*self)
    }
}

impl Clone for Node {
    /// A copy of the whole tree.
    fn clone(&self) -> (copy: Self)
        ensures
            copy@ == self@,
        decreases self,
    {
        match self {
            Node::String(text) => Node::String(text.clone()),
            Node::RegexString(text) => Node::RegexString(text.clone()),
            Node::Terminal(name) => Node::Terminal(name.clone()),
            Node::Multiple(nodes) => {
                let mut copies: Vec<Node> = Vec::new();
                let mut i: usize = 0;
                while i < nodes.len()
                    invariant
                        *self == Node::Multiple(*nodes),
                        i <= nodes.len(),
                        copies.len() == i,
                        forall|j: int| 0 <= j < i ==> copies@[j]@ == nodes@[j]@,
                    decreases nodes.len() - i,
                {
                    let item = &nodes[i];
                    assert(decreases_to!(*self => *item)) by {
                        assert(decreases_to!(*self => self->Multiple_0));
                    }
                    copies.push(item.clone());
                    i += 1;
                }
                proof {
                    lemma_tree_of_multiple(copies);
                    lemma_tree_of_multiple(*nodes);
                    assert(trees_of(copies@) =~= trees_of(nodes@));
                }
                Node::Multiple(copies)
            },
            Node::RegexExt(inner, kind) => Node::RegexExt(Box::new((&**inner).clone()), *kind),
            Node::Symbol(left, kind, right) => Node::Symbol(
                Box::new((&**left).clone()),
                *kind,
                Box::new((&**right).clone()),
            ),
            Node::Group(inner) => Node::Group(Box::new((&**inner).clone())),
            Node::Optional(inner) => Node::Optional(Box::new((&**inner).clone())),
            Node::Repeat(inner) => Node::Repeat(Box::new((&**inner).clone())),
            Node::Unknown => Node::Unknown,
        }
    }
}

} // verus!
