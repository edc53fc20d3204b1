//! Grammar rules: the symbols of an alternative, and the prefix tree that keeps the
//! alternatives of one kind of node.

use crate::lexing::token::{Token, TokenKind, TokenView};
use crate::parsing::error::Cause;
use crate::parsing::node::{AstNode, AstNodeKind, Label, Node, Tree};
use crate::queue::{peek, remove, token_views};
use queues::Queue;
use vstd::prelude::*;

verus! {

/// A symbol of a grammar rule.
#[derive(Debug, PartialEq, Eq, Clone, Copy, Structural)]
pub enum RuleType {
    /// The top of a prefix tree; it stands for no symbol.
    Root,
    /// A terminal: one token of this kind.
    Token(TokenKind),
    /// A nonterminal: a node of this kind, parsed by the rules of that kind.
    Node(AstNodeKind),
}

/// A prefix tree of alternatives. Each node below the root is one symbol; the alternatives
/// that share a prefix share the nodes of that prefix, and part where they first differ.
/// Children stand in the order in which their alternatives were declared.
#[derive(Debug, PartialEq, Eq)]
pub struct RuleTree {
    pub ruletype: RuleType,
    pub children: Vec<RuleTree>,
}

/// A [`RuleTree`] as a mathematical value.
pub struct Trie {
    pub symbol: RuleType,
    pub children: Seq<Trie>,
}

/// The prefix trees of the first `n` of `trees`, in order.
pub open spec fn tries_of_first(trees: Seq<RuleTree>, n: nat) -> Seq<Trie>
    decreases trees, n,
{
    if n == 0 || n > trees.len() {
        Seq::empty()
    } else {
        tries_of_first(trees, (n - 1) as nat).push(trie_of(trees[n - 1]))
    }
}

/// The prefix tree that a rule tree stands for.
pub open spec fn trie_of(tree: RuleTree) -> Trie
    decreases tree, 0nat,
{
    Trie {
        symbol: tree.ruletype,
        children: tries_of_first(tree.children@, tree.children@.len()),
    }
}

impl View for RuleTree {
    type V = Trie;

    open spec fn view(&self) -> Trie {
        trie_of(*self)
    }
}

/// The views of a list of rule trees, in order.
pub open spec fn tries_of(trees: Seq<RuleTree>) -> Seq<Trie> {
    tries_of_first(trees, trees.len())
}

/// The first `n` prefix trees of a list of rule trees are the views of its first `n` trees.
pub proof fn lemma_tries_of_first(trees: Seq<RuleTree>, n: nat)
    requires
        n <= trees.len(),
    ensures
        tries_of_first(trees, n).len() == n,
        forall|i: int| 0 <= i < n ==> #[trigger] tries_of_first(trees, n)[i] == trees[i]@,
    decreases n,
{
    if n > 0 {
        lemma_tries_of_first(trees, (n - 1) as nat);
    }
}

/// The index of the first of `tries`, at or after `from`, that stands for `symbol`;
/// the length of `tries` where there is none.
pub open spec fn search(tries: Seq<Trie>, symbol: RuleType, from: int) -> int
    decreases tries.len() - from,
{
    if from < 0 || from >= tries.len() {
        tries.len() as int
    } else if tries[from].symbol == symbol {
        from
    } else {
        search(tries, symbol, from + 1)
    }
}

impl Trie {
    /// The prefix tree of one node.
    pub open spec fn leaf(symbol: RuleType) -> Trie {
        Trie { symbol, children: Seq::empty() }
    }

    /// This prefix tree after the alternative `path` has been put into it. The walk follows
    /// the first child that stands for the next symbol of the path, for as long as there is
    /// one; from there on the rest of the path hangs below as a new last child.
    /// A path that is already there changes nothing.
    pub open spec fn inserted(self, path: Seq<RuleType>) -> Trie
        decreases path.len(),
    {
        if path.len() == 0 {
            self
        } else {
            let at = search(self.children, path[0], 0);
            if at < self.children.len() {
                Trie {
                    symbol: self.symbol,
                    children: self.children.update(at, self.children[at].inserted(path.skip(1))),
                }
            } else {
                Trie {
                    symbol: self.symbol,
                    children: self.children.push(Trie::leaf(path[0]).inserted(path.skip(1))),
                }
            }
        }
    }
}

impl RuleTree {
    /// The view of a rule tree is its symbol over the views of its children.
    pub proof fn lemma_view(&self)
        ensures
            self@.symbol == self.ruletype,
            self@.children == tries_of(self.children@),
            self@.children.len() == self.children@.len(),
            forall|i: int|
                0 <= i < self.children@.len() ==> #[trigger] self@.children[i]
                    == self.children@[i]@,
    {
        lemma_tries_of_first(self.children@, self.children@.len());
    }

    /// The top of an empty prefix tree.
    pub fn new_root() -> (tree: RuleTree)
        ensures
            tree@ == Trie::leaf(RuleType::Root),
    {
        RuleTree::new(RuleType::Root)
    }

    /// A prefix tree of the one node `ruletype`.
    pub fn new(ruletype: RuleType) -> (tree: RuleTree)
        ensures
            tree@ == Trie::leaf(ruletype),
    {
        let tree = RuleTree { ruletype, children: Vec::new() };
        proof {
            tree.lemma_view();
        }
        assert(tree@.children =~= Seq::empty());
        tree
    }

    /// The index of the first child that stands for `symbol`; the number of children where
    /// there is none.
    fn find_child(&self, symbol: RuleType) -> (at: usize)
        ensures
            at == search(self@.children, symbol, 0),
            at <= self.children@.len(),
    {
        proof {
            self.lemma_view();
        }
        let mut i: usize = 0;
        while i < self.children.len()
            invariant
                i <= self.children@.len(),
                self@.children.len() == self.children@.len(),
                forall|k: int|
                    0 <= k < self.children@.len() ==> #[trigger] self@.children[k]
                        == self.children@[k]@,
                search(self@.children, symbol, 0) == search(self@.children, symbol, i as int),
            decreases self.children@.len() - i,
        {
            proof {
                self.children@[i as int].lemma_view();
            }
            if self.children[i].ruletype == symbol {
                return i;
            }
            i = i + 1;
        }
        i
    }

    /// Puts the symbols of `path` from index `from` on into this prefix tree.
    fn insert_from(&mut self, path: &[RuleType], from: usize)
        requires
            from <= path@.len(),
        ensures
            final(self)@ == old(self)@.inserted(path@.skip(from as int)),
        decreases path@.len() - from,
    {
        if from >= path.len() {
            return;
        }
        let first: RuleType = path[from];
        let ghost rest = path@.skip(from as int).skip(1);
        assert(rest =~= path@.skip(from + 1));
        assert(path@.skip(from as int)[0] == first);
        let at: usize = self.find_child(first);
        proof {
            self.lemma_view();
        }
        let ghost before = self.children@;
        if at < self.children.len() {
            self.children[at].insert_from(path, from + 1);
            proof {
                self.lemma_view();
                assert(self@.children =~= old(self)@.children.update(
                    at as int,
                    old(self)@.children[at as int].inserted(rest),
                ));
            }
        } else {
            let mut child = RuleTree::new(first);
            child.insert_from(path, from + 1);
            self.children.push(child);
            proof {
                self.lemma_view();
                assert(self@.children =~= old(self)@.children.push(
                    Trie::leaf(first).inserted(rest),
                ));
            }
        }
    }

    /// Puts the alternative `rule_path` into this prefix tree: it shares the nodes of the
    /// longest prefix that is already there and branches off where it first differs.
    pub fn insert_path(&mut self, rule_path: &[RuleType])
        ensures
            final(self)@ == old(self)@.inserted(rule_path@),
    {
        assert(rule_path@.skip(0) =~= rule_path@);
        self.insert_from(rule_path, 0);
    }
}

/// The rules of one kind of node.
#[derive(Debug, PartialEq, Eq)]
pub struct Entry {
    pub kind: AstNodeKind,
    pub tree: RuleTree,
}

/// The grammar table: for each kind of node that has rules, the prefix tree of its
/// alternatives. A kind without rules is a leaf. The table is built once and then only read.
#[derive(Debug, PartialEq, Eq)]
pub struct Rules {
    entries: Vec<Entry>,
}

/// The prefix tree that the first entry for `kind` among the first `n` of `entries` holds.
pub open spec fn lookup(entries: Seq<Entry>, kind: AstNodeKind, n: nat) -> Option<Trie>
    decreases n,
{
    if n == 0 || n > entries.len() {
        None
    } else {
        match lookup(entries, kind, (n - 1) as nat) {
            Some(trie) => Some(trie),
            None => if entries[n - 1].kind == kind {
                Some(entries[n - 1].tree@)
            } else {
                None
            },
        }
    }
}

/// Among the first `n` entries, the first one of a kind is at `at` exactly when none
/// before it is of that kind.
proof fn lemma_lookup(entries: Seq<Entry>, kind: AstNodeKind, n: nat, at: int)
    requires
        0 <= at < n <= entries.len(),
        entries[at].kind == kind,
        forall|j: int| 0 <= j < at ==> entries[j].kind != kind,
    ensures
        lookup(entries, kind, n) == Some(entries[at].tree@),
    decreases n,
{
    if at < n - 1 {
        lemma_lookup(entries, kind, (n - 1) as nat, at);
    } else {
        lemma_lookup_none(entries, kind, at as nat);
    }
}

/// Among the first `n` entries there is none of a kind exactly when each is of another kind.
proof fn lemma_lookup_none(entries: Seq<Entry>, kind: AstNodeKind, n: nat)
    requires
        n <= entries.len(),
        forall|j: int| 0 <= j < n ==> entries[j].kind != kind,
    ensures
        lookup(entries, kind, n) is None,
    decreases n,
{
    if n > 0 {
        lemma_lookup_none(entries, kind, (n - 1) as nat);
    }
}

impl View for Rules {
    type V = Map<AstNodeKind, Trie>;

    closed spec fn view(&self) -> Map<AstNodeKind, Trie> {
        Map::new(
            |kind: AstNodeKind| lookup(self.entries@, kind, self.entries@.len()) is Some,
            |kind: AstNodeKind| lookup(self.entries@, kind, self.entries@.len())->0,
        )
    }
}

impl Rules {
    /// A table without rules: every kind is a leaf.
    pub fn new() -> (rules: Rules)
        ensures
            rules@ == Map::<AstNodeKind, Trie>::empty(),
    {
        let rules = Rules { entries: Vec::new() };
        assert(rules@ =~= Map::<AstNodeKind, Trie>::empty());
        rules
    }

    /// The index of the first entry for `kind`; the number of entries where there is none.
    fn find(&self, kind: AstNodeKind) -> (at: usize)
        ensures
            at <= self.entries@.len(),
            at < self.entries@.len() ==> self.entries@[at as int].kind == kind,
            forall|j: int| 0 <= j < at ==> self.entries@[j].kind != kind,
    {
        let mut i: usize = 0;
        while i < self.entries.len()
            invariant
                i <= self.entries@.len(),
                forall|j: int| 0 <= j < i ==> self.entries@[j].kind != kind,
            decreases self.entries@.len() - i,
        {
            if self.entries[i].kind == kind {
                return i;
            }
            i = i + 1;
        }
        i
    }

    /// The prefix tree of `kind`, if that kind has rules.
    pub fn get(&self, kind: AstNodeKind) -> (r: Option<&RuleTree>)
        ensures
            match r {
                Some(tree) => self@.contains_key(kind) && self@[kind] == tree@,
                None => !self@.contains_key(kind),
            },
    {
        let at: usize = self.find(kind);
        if at < self.entries.len() {
            proof {
                lemma_lookup(self.entries@, kind, self.entries@.len(), at as int);
            }
            Some(&self.entries[at].tree)
        } else {
            proof {
                lemma_lookup_none(self.entries@, kind, self.entries@.len());
            }
            None
        }
    }

    /// Gives `kind` the rules `tree`, in place of the rules it had, if any.
    pub fn insert(&mut self, kind: AstNodeKind, tree: RuleTree)
        ensures
            final(self)@ == old(self)@.insert(kind, tree@),
    {
        let at: usize = self.find(kind);
        let ghost before = self.entries@;
        let ghost trie = tree@;
        if at < self.entries.len() {
            self.entries.set(at, Entry { kind, tree });
        } else {
            self.entries.push(Entry { kind, tree });
        }
        let ghost after = self.entries@;
        proof {
            assert forall|other: AstNodeKind|
                lookup(after, other, after.len()) == if other == kind {
                    Some(trie)
                } else {
                    lookup(before, other, before.len())
                } by {
                lemma_lookup(after, kind, after.len(), at as int);
                if other != kind {
                    lemma_lookup_same(before, after, other, before.len());
                    if after.len() > before.len() {
                        assert(lookup(after, other, after.len()) == lookup(
                            after,
                            other,
                            before.len(),
                        ));
                    }
                }
            }
            assert(self@ =~= old(self)@.insert(kind, trie));
        }
    }
}

/// Two lists of entries that differ only in entries of other kinds hold the same rules
/// for a kind.
proof fn lemma_lookup_same(a: Seq<Entry>, b: Seq<Entry>, kind: AstNodeKind, n: nat)
    requires
        n <= a.len(),
        n <= b.len(),
        forall|j: int|
            0 <= j < n ==> a[j] == b[j] || (#[trigger] a[j].kind != kind && b[j].kind != kind),
    ensures
        lookup(a, kind, n) == lookup(b, kind, n),
    decreases n,
{
    if n > 0 {
        lemma_lookup_same(a, b, kind, (n - 1) as nat);
    }
}

/// The alternatives of each kind of node of the language, in the order in which they are
/// declared, which is the order in which the parser tries them:
/// - a unary operator is a negation, a bitwise complement or a logical negation;
/// - an expression is an integer literal, or a unary operator and an expression;
/// - a statement is `return`, an expression and a semicolon;
/// - a function is `int`, an identifier, `(`, `)`, `{`, a statement and `}`;
/// - a program is a function.
/// The leaf kinds have no alternatives.
pub open spec fn alternatives(kind: AstNodeKind) -> Seq<Seq<RuleType>> {
    match kind {
        AstNodeKind::UnOp => seq![
            seq![RuleType::Token(TokenKind::Negation)],
            seq![RuleType::Token(TokenKind::BitwiseComplement)],
            seq![RuleType::Token(TokenKind::LogicalNegation)],
        ],
        AstNodeKind::Exp => seq![
            seq![RuleType::Token(TokenKind::IntegerLiteral)],
            seq![RuleType::Node(AstNodeKind::UnOp), RuleType::Node(AstNodeKind::Exp)],
        ],
        AstNodeKind::Statement => seq![
            seq![
                RuleType::Token(TokenKind::ReturnKeyword),
                RuleType::Node(AstNodeKind::Exp),
                RuleType::Token(TokenKind::Semicolon),
            ],
        ],
        AstNodeKind::Function => seq![
            seq![
                RuleType::Token(TokenKind::Int),
                RuleType::Token(TokenKind::Identifier),
                RuleType::Token(TokenKind::OpenParen),
                RuleType::Token(TokenKind::CloseParen),
                RuleType::Token(TokenKind::OpenBrace),
                RuleType::Node(AstNodeKind::Statement),
                RuleType::Token(TokenKind::CloseBrace),
            ],
        ],
        AstNodeKind::Program => seq![seq![RuleType::Node(AstNodeKind::Function)]],
        _ => Seq::empty(),
    }
}

/// The prefix tree of the first `n` of `paths`, put in one after the other under a root.
pub open spec fn trie_of_paths(paths: Seq<Seq<RuleType>>, n: nat) -> Trie
    decreases n,
{
    if n == 0 || n > paths.len() {
        Trie::leaf(RuleType::Root)
    } else {
        trie_of_paths(paths, (n - 1) as nat).inserted(paths[n - 1])
    }
}

/// The grammar table of the language: each kind that has alternatives, with their prefix tree.
pub open spec fn grammar() -> Map<AstNodeKind, Trie> {
    Map::new(
        |kind: AstNodeKind| alternatives(kind).len() > 0,
        |kind: AstNodeKind| trie_of_paths(alternatives(kind), alternatives(kind).len()),
    )
}

/// The symbol sequences of a list of alternatives.
pub open spec fn paths_of(alternatives: Seq<Vec<RuleType>>) -> Seq<Seq<RuleType>> {
    alternatives.map_values(|path: Vec<RuleType>| path@)
}

/// Builds the prefix tree of a list of alternatives, put in one after the other.
pub fn build_tree(alternatives: &Vec<Vec<RuleType>>) -> (tree: RuleTree)
    ensures
        tree@ == trie_of_paths(paths_of(alternatives@), alternatives@.len()),
{
    let mut root = RuleTree::new_root();
    let mut i: usize = 0;
    while i < alternatives.len()
        invariant
            i <= alternatives@.len(),
            root@ == trie_of_paths(paths_of(alternatives@), i as nat),
        decreases alternatives@.len() - i,
    {
        root.insert_path(alternatives[i].as_slice());
        i = i + 1;
    }
    root
}

/// Builds the grammar table of the language.
pub fn ast_rules() -> (rules: Rules)
    ensures
        rules@ == grammar(),
{
    let unary: Vec<Vec<RuleType>> = vec![
        vec![RuleType::Token(TokenKind::Negation)],
        vec![RuleType::Token(TokenKind::BitwiseComplement)],
        vec![RuleType::Token(TokenKind::LogicalNegation)],
    ];
    let exp: Vec<Vec<RuleType>> = vec![
        vec![RuleType::Token(TokenKind::IntegerLiteral)],
        vec![RuleType::Node(AstNodeKind::UnOp), RuleType::Node(AstNodeKind::Exp)],
    ];
    let statement: Vec<Vec<RuleType>> = vec![
        vec![
            RuleType::Token(TokenKind::ReturnKeyword),
            RuleType::Node(AstNodeKind::Exp),
            RuleType::Token(TokenKind::Semicolon),
        ],
    ];
    let function: Vec<Vec<RuleType>> = vec![
        vec![
            RuleType::Token(TokenKind::Int),
            RuleType::Token(TokenKind::Identifier),
            RuleType::Token(TokenKind::OpenParen),
            RuleType::Token(TokenKind::CloseParen),
            RuleType::Token(TokenKind::OpenBrace),
            RuleType::Node(AstNodeKind::Statement),
            RuleType::Token(TokenKind::CloseBrace),
        ],
    ];
    let program: Vec<Vec<RuleType>> = vec![vec![RuleType::Node(AstNodeKind::Function)]];
    proof {
        assert(paths_of(unary@) =~~= alternatives(AstNodeKind::UnOp));
        assert(paths_of(exp@) =~~= alternatives(AstNodeKind::Exp));
        assert(paths_of(statement@) =~~= alternatives(AstNodeKind::Statement));
        assert(paths_of(function@) =~~= alternatives(AstNodeKind::Function));
        assert(paths_of(program@) =~~= alternatives(AstNodeKind::Program));
    }
    let mut rules = Rules::new();
    rules.insert(AstNodeKind::UnOp, build_tree(&unary));
    rules.insert(AstNodeKind::Exp, build_tree(&exp));
    rules.insert(AstNodeKind::Statement, build_tree(&statement));
    rules.insert(AstNodeKind::Function, build_tree(&function));
    rules.insert(AstNodeKind::Program, build_tree(&program));
    assert(rules@ =~= grammar());
    rules
}

/// What became of one grammar symbol that was tried against the tokens: the node that it
/// made, if it made one, or why it did not take the next token; and the tokens that are left.
pub struct Step {
    pub result: Result<Option<Tree>, Cause>,
    pub rest: Seq<TokenView>,
}

/// The leaf that a token becomes once it has been taken. Literals and identifiers become
/// leaves that carry what the token carried, unary operators become operator leaves, and
/// the other tokens, which only hold a program together, become nothing. An error token
/// is no part of any program.
pub open spec fn leaf_of(token: TokenView) -> Result<Option<Tree>, Cause> {
    match token.kind {
        TokenKind::StringLiteral | TokenKind::Identifier => Ok(
            Some(Tree::leaf(Label::Name(token.text()))),
        ),
        TokenKind::IntegerLiteral => Ok(Some(Tree::leaf(Label::Int(token.value())))),
        TokenKind::LogicalNegation | TokenKind::Negation | TokenKind::BitwiseComplement => Ok(
            Some(Tree::leaf(Label::Operator(token.kind))),
        ),
        TokenKind::Error => Err(Cause::ErrorToken),
        _ => Ok(None),
    }
}

/// Tries one grammar symbol against the tokens.
/// - A terminal looks at the next token. If it is of the terminal's kind it is taken out and
///   becomes what [`leaf_of`] says. If not, it stays where it is, and so does every token.
/// - A nonterminal makes a fresh node of its kind and takes no token.
/// - The root does nothing.
pub open spec fn consume(symbol: RuleType, tokens: Seq<TokenView>) -> Step {
    match symbol {
        RuleType::Token(kind) => if tokens.len() == 0 {
            Step { result: Err(Cause::EndOfInput { expected: kind }), rest: tokens }
        } else if tokens[0].kind == kind {
            Step { result: leaf_of(tokens[0]), rest: tokens.skip(1) }
        } else {
            Step {
                result: Err(Cause::UnexpectedToken { expected: kind, found: tokens[0].kind }),
                rest: tokens,
            }
        },
        RuleType::Node(kind) => Step {
            result: Ok(Some(Tree::leaf(kind.fresh_label()))),
            rest: tokens,
        },
        RuleType::Root => Step { result: Ok(None), rest: tokens },
    }
}

/// What a symbol made, as a mathematical value.
pub open spec fn made(r: Result<Option<Node>, Cause>) -> Result<Option<Tree>, Cause> {
    match r {
        Ok(Some(node)) => Ok(Some(node@)),
        Ok(None) => Ok(None),
        Err(cause) => Err(cause),
    }
}

/// Makes the leaf that a token becomes once it has been taken.
pub fn consume_token(token: Token) -> (r: Result<Option<Node>, Cause>)
    ensures
        made(r) == leaf_of(token@),
{
    match token {
        Token::StringLiteral(s) => Ok(Some(Node::new(AstNode::String(s)))),
        Token::Identifier(s) => Ok(Some(Node::new(AstNode::String(s)))),
        Token::IntegerLiteral(i) => Ok(Some(Node::new(AstNode::Int(i)))),
        Token::LogicalNegation => Ok(
            Some(Node::new(AstNode::Operator(TokenKind::LogicalNegation))),
        ),
        Token::Negation => Ok(Some(Node::new(AstNode::Operator(TokenKind::Negation)))),
        Token::BitwiseComplement => Ok(
            Some(Node::new(AstNode::Operator(TokenKind::BitwiseComplement))),
        ),
        Token::Error(_) => Err(Cause::ErrorToken),
        _ => Ok(None),
    }
}

impl RuleType {
    /// Tries this symbol against the tokens: see [`consume`].
    pub fn try_consume(&self, tokens: &mut Queue<Token>) -> (r: Result<Option<Node>, Cause>)
        ensures
            made(r) == consume(*self, token_views(*old(tokens))).result,
            token_views(*final(tokens)) == consume(*self, token_views(*old(tokens))).rest,
    {
        match self {
            RuleType::Token(kind) => {
                match peek(tokens) {
                    None => Err(Cause::EndOfInput { expected: *kind }),
                    Some(token) => {
                        let found = token.kind();
                        if found == *kind {
                            let ghost before = token_views(*tokens);
                            let _ = remove(tokens);
                            assert(token_views(*tokens) =~= before.skip(1));
                            consume_token(token)
                        } else {
                            Err(Cause::UnexpectedToken { expected: *kind, found })
                        }
                    },
                }
            },
            RuleType::Node(kind) => Ok(Some(Node::new(kind.get_type()))),
            RuleType::Root => Ok(None),
        }
    }
}

} // verus!
