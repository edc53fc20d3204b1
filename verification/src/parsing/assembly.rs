//! From a tree to assembly text.
//!
//! The text is written node by node, children before what their parent does with them.
//! Nothing is written to the outside: the whole text is handed back, or a defect and no
//! text at all.

use crate::lexing::token::TokenKind;
use crate::parsing::error::StructuralDefect;
use crate::parsing::node::{AstNode, AstNodeKind, Label, Node, Tree};
use crate::text::{decimal_text, write_number};
use vstd::prelude::*;
use vstd::string::StringExecFns;

verus! {

/// The declaration of the global symbol `name` and its label.
pub open spec fn function_header(name: Seq<char>) -> Seq<char> {
    ".globl "@ + name + "\n"@ + name + ":\n"@
}

/// The load of the constant `value` into the primary register.
pub open spec fn load_constant(value: usize) -> Seq<char> {
    "movl  $"@ + decimal_text(value as nat) + ",%eax\n"@
}

/// The instructions that apply the unary operator `kind` to the primary register in place.
pub open spec fn operator_code(kind: TokenKind) -> Result<Seq<char>, StructuralDefect> {
    match kind {
        TokenKind::Negation => Ok("neg  %eax\n"@),
        TokenKind::LogicalNegation => Ok("cmpl   $0, %eax\nmovl   $0, %eax\nsete   %al\n"@),
        TokenKind::BitwiseComplement => Ok("not  %eax\n"@),
        _ => Err(StructuralDefect::UnknownOperator(kind)),
    }
}

/// The assembly text of a tree, node by node:
/// - a program is its functions, one after the other;
/// - a function is its header, named by its first child, and then its second child;
/// - a statement is its expression and then a return;
/// - an expression whose first child is an integer leaf loads that integer; any other
///   expression evaluates its last child first and then applies each child before it, in order,
///   which is how a chain of unary operators applies from the innermost outwards;
/// - a unary operator is the instructions of the operator that its first child holds;
/// - a leaf by itself is nothing.
pub open spec fn assembly(t: Tree) -> Result<Seq<char>, StructuralDefect>
    decreases t, 0nat,
{
    let children = t.children;
    match t.label {
        Label::Program => assembly_of_first(children, children.len()),
        Label::Function => if children.len() >= 2 && children[0].label is Name {
            match assembly(children[1]) {
                Ok(body) => Ok(function_header(children[0].label->Name_0) + body),
                Err(e) => Err(e),
            }
        } else {
            Err(StructuralDefect::MalformedNode(AstNodeKind::Function))
        },
        Label::Statement => if children.len() >= 1 {
            match assembly(children[0]) {
                Ok(value) => Ok(value + "ret\n"@),
                Err(e) => Err(e),
            }
        } else {
            Err(StructuralDefect::MalformedNode(AstNodeKind::Statement))
        },
        Label::Exp => if children.len() == 0 {
            Err(StructuralDefect::MalformedNode(AstNodeKind::Exp))
        } else if children[0].label is Int {
            Ok(load_constant(children[0].label->Int_0))
        } else {
            match assembly(children.last()) {
                Ok(inner) => match assembly_of_first(children, (children.len() - 1) as nat) {
                    Ok(outer) => Ok(inner + outer),
                    Err(e) => Err(e),
                },
                Err(e) => Err(e),
            }
        },
        Label::UnOp => if children.len() >= 1 && children[0].label is Operator {
            operator_code(children[0].label->Operator_0)
        } else {
            Err(StructuralDefect::MalformedNode(AstNodeKind::UnOp))
        },
        _ => Ok(Seq::empty()),
    }
}

/// The assembly text of the first `n` of `trees`, one after the other. The first defect
/// met, in that order, is the result.
pub open spec fn assembly_of_first(trees: Seq<Tree>, n: nat) -> Result<Seq<char>, StructuralDefect>
    decreases trees, n,
{
    if n == 0 || n > trees.len() {
        Ok(Seq::empty())
    } else {
        match assembly_of_first(trees, (n - 1) as nat) {
            Ok(front) => match assembly(trees[n - 1]) {
                Ok(code) => Ok(front + code),
                Err(e) => Err(e),
            },
            Err(e) => Err(e),
        }
    }
}

/// A result of code generation as a mathematical value.
pub open spec fn text_of(r: Result<String, StructuralDefect>) -> Result<Seq<char>, StructuralDefect> {
    match r {
        Ok(text) => Ok(text@),
        Err(e) => Err(e),
    }
}

/// The instructions of the unary operator `kind`.
fn operator_text(kind: TokenKind) -> (r: Result<&'static str, StructuralDefect>)
    ensures
        match r {
            Ok(text) => operator_code(kind) == Ok::<Seq<char>, StructuralDefect>(text@),
            Err(e) => operator_code(kind) == Err::<Seq<char>, StructuralDefect>(e),
        },
{
    match kind {
        TokenKind::Negation => Ok("neg  %eax\n"),
        TokenKind::LogicalNegation => Ok("cmpl   $0, %eax\nmovl   $0, %eax\nsete   %al\n"),
        TokenKind::BitwiseComplement => Ok("not  %eax\n"),
        _ => Err(StructuralDefect::UnknownOperator(kind)),
    }
}

impl Node {
    /// The assembly text of the first `n` children, one after the other.
    fn assemble_first(&self, n: usize) -> (r: Result<String, StructuralDefect>)
        requires
            n <= self.children@.len(),
        ensures
            text_of(r) == assembly_of_first(self@.children, n as nat),
        decreases self, 0nat,
    {
        let mut out = String::new();
        let mut i: usize = 0;
        while i < n
            invariant
                i <= n <= self.children@.len(),
                assembly_of_first(self@.children, i as nat) == Ok::<Seq<char>, StructuralDefect>(
                    out@,
                ),
            decreases n - i,
        {
            proof {
                self.lemma_view();
            }
            match self.children[i].generate_assembly() {
                Ok(code) => {
                    out.append(code.as_str());
                },
                Err(e) => {
                    proof {
                        lemma_defect_stays(self@.children, (i + 1) as nat, n as nat);
                    }
                    return Err(e);
                },
            }
            i = i + 1;
        }
        Ok(out)
    }

    /// Writes the assembly text of this tree: all of it, or a defect and no text at all.
    pub fn generate_assembly(&self) -> (r: Result<String, StructuralDefect>)
        ensures
            text_of(r) == assembly(self@),
        decreases self, 1nat,
    {
        let count: usize = self.children.len();
        proof {
            self.lemma_view();
        }
        match &self.kind {
            AstNode::Program => self.assemble_first(count),
            AstNode::Function => {
                if count < 2 {
                    return Err(StructuralDefect::MalformedNode(AstNodeKind::Function));
                }
                match &self.children[0].kind {
                    AstNode::String(name) => {
                        let body = self.children[1].generate_assembly()?;
                        let mut out = String::from_str(".globl ");
                        out.append(name.as_str());
                        out.append("\n");
                        out.append(name.as_str());
                        out.append(":\n");
                        out.append(body.as_str());
                        Ok(out)
                    },
                    _ => Err(StructuralDefect::MalformedNode(AstNodeKind::Function)),
                }
            },
            AstNode::Statement => {
                if count < 1 {
                    return Err(StructuralDefect::MalformedNode(AstNodeKind::Statement));
                }
                let mut out = self.children[0].generate_assembly()?;
                out.append("ret\n");
                Ok(out)
            },
            AstNode::Exp => {
                if count < 1 {
                    return Err(StructuralDefect::MalformedNode(AstNodeKind::Exp));
                }
                match &self.children[0].kind {
                    AstNode::Int(value) => {
                        let mut out = String::from_str("movl  $");
                        out.append(write_number(*value).as_str());
                        out.append(",%eax\n");
                        Ok(out)
                    },
                    _ => {
                        let mut out = self.children[count - 1].generate_assembly()?;
                        let outer = self.assemble_first(count - 1)?;
                        out.append(outer.as_str());
                        Ok(out)
                    },
                }
            },
            AstNode::UnOp => {
                if count < 1 {
                    return Err(StructuralDefect::MalformedNode(AstNodeKind::UnOp));
                }
                match &self.children[0].kind {
                    AstNode::Operator(kind) => {
                        let text = operator_text(*kind)?;
                        Ok(String::from_str(text))
                    },
                    _ => Err(StructuralDefect::MalformedNode(AstNodeKind::UnOp)),
                }
            },
            _ => Ok(String::new()),
        }
    }
}

/// Once a defect has been met among the first `k` trees, it is the result for any more of them.
proof fn lemma_defect_stays(trees: Seq<Tree>, k: nat, n: nat)
    requires
        k <= n <= trees.len(),
        assembly_of_first(trees, k) is Err,
    ensures
        assembly_of_first(trees, n) == assembly_of_first(trees, k),
    decreases n,
{
    if k < n {
        lemma_defect_stays(trees, k, (n - 1) as nat);
    }
}

} // verus!
