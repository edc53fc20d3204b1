//! Trees as indented text, one node to a line, each level two spaces further in.

use crate::parsing::node::{AstNode, Label, Node, Tree};
use crate::parsing::rule::{RuleTree, RuleType, Trie};
use crate::text::{decimal_text, write_number};
use vstd::prelude::*;
use vstd::string::StringExecFns;

verus! {

/// A text between quotes, as `Debug` writes a `str`: with the characters that cannot
/// stand for themselves between quotes written as escapes.
pub uninterp spec fn quoted(text: Seq<char>) -> Seq<char>;

/// `Debug` for `str`, by way of `format!`.
#[verifier::external_body]
fn quote(text: &str) -> (r: String)
    ensures
        r@ == quoted(text@),
{
    format!("{:?}", text)
}

/// The indentation of a line `depth` levels in.
pub open spec fn indentation(depth: nat) -> Seq<char>
    decreases depth,
{
    if depth == 0 {
        Seq::empty()
    } else {
        indentation((depth - 1) as nat) + "  "@
    }
}

/// How a leaf that carries a name is written, given the name between quotes.
pub open spec fn name_leaf_text(quoted_name: Seq<char>) -> Seq<char> {
    "String("@ + quoted_name + ")"@
}

impl Label {
    /// How a label is written: its kind, and in brackets what it carries.
    pub open spec fn debug_text(self) -> Seq<char> {
        match self {
            Label::Int(value) => "Int("@ + decimal_text(value as nat) + ")"@,
            Label::Name(name) => name_leaf_text(quoted(name)),
            Label::Operator(kind) => "Operator("@ + kind.name_text() + ")"@,
            _ => self.kind().name_text(),
        }
    }
}

impl RuleType {
    /// How a symbol is written: what it is, and in brackets the kind that it asks for.
    pub open spec fn debug_text(self) -> Seq<char> {
        match self {
            RuleType::Root => "Root"@,
            RuleType::Token(kind) => "Token("@ + kind.name_text() + ")"@,
            RuleType::Node(kind) => "Node("@ + kind.name_text() + ")"@,
        }
    }

    /// Writes this symbol.
    pub fn describe(&self) -> (r: String)
        ensures
            r@ == self.debug_text(),
    {
        match self {
            RuleType::Root => String::from_str("Root"),
            RuleType::Token(kind) => {
                let mut out = String::from_str("Token(");
                out.append(kind.name());
                out.append(")");
                out
            },
            RuleType::Node(kind) => {
                let mut out = String::from_str("Node(");
                out.append(kind.name());
                out.append(")");
                out
            },
        }
    }
}

/// The lines of a syntax tree: the node after `prefix`, then its children, each two
/// spaces further in.
pub open spec fn tree_lines(tree: Tree, prefix: Seq<char>) -> Seq<char>
    decreases tree, 0nat,
{
    prefix + tree.label.debug_text() + "\n"@ + trees_lines(
        tree.children,
        tree.children.len(),
        prefix + "  "@,
    )
}

/// The lines of the first `n` of `trees`, one tree after the other.
pub open spec fn trees_lines(trees: Seq<Tree>, n: nat, prefix: Seq<char>) -> Seq<char>
    decreases trees, n,
{
    if n == 0 || n > trees.len() {
        Seq::empty()
    } else {
        trees_lines(trees, (n - 1) as nat, prefix) + tree_lines(trees[n - 1], prefix)
    }
}

/// The lines of a prefix tree of rules: the symbol after `prefix` and a dash, then its
/// children, each two spaces further in.
pub open spec fn trie_lines(trie: Trie, prefix: Seq<char>) -> Seq<char>
    decreases trie, 0nat,
{
    prefix + "- "@ + trie.symbol.debug_text() + "\n"@ + tries_lines(
        trie.children,
        trie.children.len(),
        prefix + "  "@,
    )
}

/// The lines of the first `n` of `tries`, one prefix tree after the other.
pub open spec fn tries_lines(tries: Seq<Trie>, n: nat, prefix: Seq<char>) -> Seq<char>
    decreases tries, n,
{
    if n == 0 || n > tries.len() {
        Seq::empty()
    } else {
        tries_lines(tries, (n - 1) as nat, prefix) + trie_lines(tries[n - 1], prefix)
    }
}

/// Writes a leaf that carries a name, given the name between quotes.
pub fn write_name_leaf(quoted_name: &str) -> (r: String)
    ensures
        r@ == name_leaf_text(quoted_name@),
{
    let mut out = String::from_str("String(");
    out.append(quoted_name);
    out.append(")");
    out
}

/// The indentation of a line `depth` levels in.
pub fn indent_by(depth: usize) -> (r: String)
    ensures
        r@ == indentation(depth as nat),
{
    let mut out = String::new();
    let mut i: usize = 0;
    while i < depth
        invariant
            i <= depth,
            out@ == indentation(i as nat),
        decreases depth - i,
    {
        out.append("  ");
        i = i + 1;
    }
    out
}

impl AstNode {
    /// Writes what this node is: its kind, and in brackets what it carries.
    pub fn describe(&self) -> (r: String)
        ensures
            r@ == self@.debug_text(),
    {
        match self {
            AstNode::Int(value) => {
                let mut out = String::from_str("Int(");
                out.append(write_number(*value).as_str());
                out.append(")");
                out
            },
            AstNode::String(name) => write_name_leaf(quote(name.as_str()).as_str()),
            AstNode::Operator(kind) => {
                let mut out = String::from_str("Operator(");
                out.append(kind.name());
                out.append(")");
                out
            },
            _ => String::from_str(self.get_kind().name()),
        }
    }
}

impl Node {
    /// Adds the lines of this tree to `out`, each after `prefix`.
    fn write_lines(&self, prefix: &str, out: &mut String)
        ensures
            final(out)@ == old(out)@ + tree_lines(self@, prefix@),
        decreases self,
    {
        proof {
            self.lemma_view();
        }
        let ghost start = out@;
        out.append(prefix);
        out.append(self.kind.describe().as_str());
        out.append("\n");
        let mut deeper = String::from_str(prefix);
        deeper.append("  ");
        let ghost head = prefix@ + self@.label.debug_text() + "\n"@;
        assert(out@ =~= start + head);
        let mut i: usize = 0;
        while i < self.children.len()
            invariant
                i <= self.children@.len(),
                self@.children.len() == self.children@.len(),
                forall|k: int|
                    0 <= k < self.children@.len() ==> #[trigger] self@.children[k]
                        == self.children@[k]@,
                deeper@ == prefix@ + "  "@,
                out@ == start + head + trees_lines(self@.children, i as nat, deeper@),
            decreases self.children@.len() - i,
        {
            let ghost so_far = out@;
            self.children[i].write_lines(deeper.as_str(), out);
            assert(out@ =~= start + head + trees_lines(
                self@.children,
                (i + 1) as nat,
                deeper@,
            ));
            i = i + 1;
        }
        assert(out@ =~= start + tree_lines(self@, prefix@));
    }

    /// Writes this tree as indented lines, the first of them `indent` levels in.
    pub fn pretty_print(&self, indent: usize) -> (r: String)
        ensures
            r@ == tree_lines(self@, indentation(indent as nat)),
    {
        let mut out = String::new();
        self.write_lines(indent_by(indent).as_str(), &mut out);
        assert(out@ =~= tree_lines(self@, indentation(indent as nat)));
        out
    }
}

impl RuleTree {
    /// Adds the lines of this prefix tree to `out`, each after `prefix`.
    fn write_lines(&self, prefix: &str, out: &mut String)
        ensures
            final(out)@ == old(out)@ + trie_lines(self@, prefix@),
        decreases self,
    {
        proof {
            self.lemma_view();
        }
        let ghost start = out@;
        out.append(prefix);
        out.append("- ");
        out.append(self.ruletype.describe().as_str());
        out.append("\n");
        let mut deeper = String::from_str(prefix);
        deeper.append("  ");
        let ghost head = prefix@ + "- "@ + self@.symbol.debug_text() + "\n"@;
        assert(out@ =~= start + head);
        let mut i: usize = 0;
        while i < self.children.len()
            invariant
                i <= self.children@.len(),
                self@.children.len() == self.children@.len(),
                forall|k: int|
                    0 <= k < self.children@.len() ==> #[trigger] self@.children[k]
                        == self.children@[k]@,
                deeper@ == prefix@ + "  "@,
                out@ == start + head + tries_lines(self@.children, i as nat, deeper@),
            decreases self.children@.len() - i,
        {
            self.children[i].write_lines(deeper.as_str(), out);
            assert(out@ =~= start + head + tries_lines(
                self@.children,
                (i + 1) as nat,
                deeper@,
            ));
            i = i + 1;
        }
        assert(out@ =~= start + trie_lines(self@, prefix@));
    }

    /// Writes this prefix tree as indented lines, the first of them `indent` levels in.
    pub fn pretty_print(&self, indent: usize) -> (r: String)
        ensures
            r@ == trie_lines(self@, indentation(indent as nat)),
    {
        let mut out = String::new();
        self.write_lines(indent_by(indent).as_str(), &mut out);
        assert(out@ =~= trie_lines(self@, indentation(indent as nat)));
        out
    }
}

} // verus!
