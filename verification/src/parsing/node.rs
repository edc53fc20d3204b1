//! The syntax tree.

use crate::lexing::token::TokenKind;
use vstd::prelude::*;
use vstd::string::StringExecFns;

verus! {

/// What a node of the syntax tree is, with what a leaf carries.
#[derive(Debug, Clone, PartialEq, Eq)]
pub enum AstNode {
    Program,
    Function,
    Statement,
    Exp,
    UnOp,
    Int(usize),
    String(String),
    Operator(TokenKind),
}

/// What a node of the syntax tree is, without what it carries. Grammar rules are kept by kind.
#[derive(Debug, PartialEq, Eq, Clone, Copy, Hash, Structural)]
pub enum AstNodeKind {
    Program,
    Function,
    Statement,
    Exp,
    UnOp,
    Int,
    String,
    Operator,
}

/// A node of the syntax tree. It owns its children, in the order in which they were parsed.
#[derive(Debug, PartialEq, Eq)]
pub struct Node {
    pub kind: AstNode,
    pub children: Vec<Node>,
}

/// An [`AstNode`] as a mathematical value.
pub enum Label {
    Program,
    Function,
    Statement,
    Exp,
    UnOp,
    Int(usize),
    Name(Seq<char>),
    Operator(TokenKind),
}

/// A [`Node`] as a mathematical value: a label and the trees below it.
pub struct Tree {
    pub label: Label,
    pub children: Seq<Tree>,
}

impl View for AstNode {
    type V = Label;

    open spec fn view(&self) -> Label {
        match self {
            AstNode::Program => Label::Program,
            AstNode::Function => Label::Function,
            AstNode::Statement => Label::Statement,
            AstNode::Exp => Label::Exp,
            AstNode::UnOp => Label::UnOp,
            AstNode::Int(i) => Label::Int(*i),
            AstNode::String(s) => Label::Name(s@),
            AstNode::Operator(k) => Label::Operator(*k),
        }
    }
}

/// The trees of the first `n` of `nodes`, in order.
pub open spec fn trees_of_first(nodes: Seq<Node>, n: nat) -> Seq<Tree>
    decreases nodes, n,
{
    if n == 0 || n > nodes.len() {
        Seq::empty()
    } else {
        trees_of_first(nodes, (n - 1) as nat).push(tree_of(nodes[n - 1]))
    }
}

/// The tree that a node stands for.
pub open spec fn tree_of(node: Node) -> Tree
    decreases node, 0nat,
{
    Tree {
        label: node.kind@,
        children: trees_of_first(node.children@, node.children@.len()),
    }
}

impl View for Node {
    type V = Tree;

    open spec fn view(&self) -> Tree {
        tree_of(*self)
    }
}

/// The first `n` trees of a list of nodes are the views of its first `n` nodes.
pub proof fn lemma_trees_of_first(nodes: Seq<Node>, n: nat)
    requires
        n <= nodes.len(),
    ensures
        trees_of_first(nodes, n).len() == n,
        forall|i: int| 0 <= i < n ==> #[trigger] trees_of_first(nodes, n)[i] == nodes[i]@,
    decreases n,
{
    if n > 0 {
        lemma_trees_of_first(nodes, (n - 1) as nat);
    }
}

impl Label {
    /// The kind of a label: the label without what it carries.
    pub open spec fn kind(self) -> AstNodeKind {
        match self {
            Label::Program => AstNodeKind::Program,
            Label::Function => AstNodeKind::Function,
            Label::Statement => AstNodeKind::Statement,
            Label::Exp => AstNodeKind::Exp,
            Label::UnOp => AstNodeKind::UnOp,
            Label::Int(_) => AstNodeKind::Int,
            Label::Name(_) => AstNodeKind::String,
            Label::Operator(_) => AstNodeKind::Operator,
        }
    }
}

impl Tree {
    /// The tree of one node with no children.
    pub open spec fn leaf(label: Label) -> Tree {
        Tree { label, children: Seq::empty() }
    }

    /// This tree with one more child at the end.
    pub open spec fn with_child(self, child: Tree) -> Tree {
        Tree { label: self.label, children: self.children.push(child) }
    }
}

impl AstNodeKind {
    /// The name of this kind, as it is written in a message.
    pub open spec fn name_text(self) -> Seq<char> {
        match self {
            AstNodeKind::Program => "Program"@,
            AstNodeKind::Function => "Function"@,
            AstNodeKind::Statement => "Statement"@,
            AstNodeKind::Exp => "Exp"@,
            AstNodeKind::UnOp => "UnOp"@,
            AstNodeKind::Int => "Int"@,
            AstNodeKind::String => "String"@,
            AstNodeKind::Operator => "Operator"@,
        }
    }

    /// The name of this kind, as it is written in a message.
    pub fn name(&self) -> (r: &'static str)
        ensures
            r@ == self.name_text(),
    {
        match self {
            AstNodeKind::Program => "Program",
            AstNodeKind::Function => "Function",
            AstNodeKind::Statement => "Statement",
            AstNodeKind::Exp => "Exp",
            AstNodeKind::UnOp => "UnOp",
            AstNodeKind::Int => "Int",
            AstNodeKind::String => "String",
            AstNodeKind::Operator => "Operator",
        }
    }

    /// The label that a fresh node of this kind gets. Only the kinds that have grammar
    /// rules get a label of their own; a leaf kind gets the name `err`.
    pub open spec fn fresh_label(self) -> Label {
        match self {
            AstNodeKind::Program => Label::Program,
            AstNodeKind::Function => Label::Function,
            AstNodeKind::Statement => Label::Statement,
            AstNodeKind::Exp => Label::Exp,
            AstNodeKind::UnOp => Label::UnOp,
            _ => Label::Name("err"@),
        }
    }

    /// What a fresh node of this kind is.
    pub fn get_type(&self) -> (node: AstNode)
        ensures
            node@ == self.fresh_label(),
    {
        match self {
            AstNodeKind::Program => AstNode::Program,
            AstNodeKind::Function => AstNode::Function,
            AstNodeKind::Statement => AstNode::Statement,
            AstNodeKind::Exp => AstNode::Exp,
            AstNodeKind::UnOp => AstNode::UnOp,
            _ => AstNode::String(String::from_str("err")),
        }
    }
}

impl AstNode {
    /// The kind of this node.
    pub fn get_kind(&self) -> (kind: AstNodeKind)
        ensures
            kind == self@.kind(),
    {
        match self {
            AstNode::Program => AstNodeKind::Program,
            AstNode::Function => AstNodeKind::Function,
            AstNode::Statement => AstNodeKind::Statement,
            AstNode::Exp => AstNodeKind::Exp,
            AstNode::UnOp => AstNodeKind::UnOp,
            AstNode::Int(_) => AstNodeKind::Int,
            AstNode::String(_) => AstNodeKind::String,
            AstNode::Operator(_) => AstNodeKind::Operator,
        }
    }
}

impl Node {
    /// The view of a node is the view of its kind over the views of its children.
    pub proof fn lemma_view(&self)
        ensures
            self@.label == self.kind@,
            self@.children.len() == self.children@.len(),
            forall|i: int|
                0 <= i < self.children@.len() ==> #[trigger] self@.children[i]
                    == self.children@[i]@,
    {
        lemma_trees_of_first(self.children@, self.children@.len());
    }

    /// A node with no children yet.
    pub fn new(kind: AstNode) -> (node: Node)
        ensures
            node@ == Tree::leaf(kind@),
    {
        let node = Node { kind, children: Vec::new() };
        assert(node@.children =~= Seq::empty());
        node
    }
}

} // verus!
