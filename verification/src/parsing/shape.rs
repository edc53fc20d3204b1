//! The shape of the grammar table of the language: the prefix tree of each kind, spelled
//! out, and what holds of the table as a whole.

use crate::lexing::token::TokenKind;
use crate::parsing::node::AstNodeKind;
use crate::parsing::rule::{alternatives, grammar, search, trie_of_paths, RuleType, Trie};
use vstd::prelude::*;

verus! {

/// The prefix tree of one alternative: each symbol below the one before it.
pub open spec fn chain(path: Seq<RuleType>) -> Seq<Trie>
    decreases path.len(),
{
    if path.len() == 0 {
        Seq::empty()
    } else {
        seq![Trie { symbol: path[0], children: chain(path.skip(1)) }]
    }
}

/// Putting a path into a prefix tree of one node hangs the path below it.
proof fn lemma_inserted_into_leaf(symbol: RuleType, path: Seq<RuleType>)
    ensures
        Trie::leaf(symbol).inserted(path) == (Trie { symbol, children: chain(path) }),
    decreases path.len(),
{
    if path.len() > 0 {
        lemma_inserted_into_leaf(path[0], path.skip(1));
        assert(search(Seq::<Trie>::empty(), path[0], 0) == 0);
        assert(Seq::<Trie>::empty().push(Trie { symbol: path[0], children: chain(path.skip(1)) })
            =~= chain(path));
    } else {
        assert(chain(path) =~= Seq::<Trie>::empty());
    }
}

/// A search among prefix trees that stand for other symbols finds nothing.
proof fn lemma_search_absent(tries: Seq<Trie>, symbol: RuleType, from: int)
    requires
        0 <= from <= tries.len(),
        forall|i: int| from <= i < tries.len() ==> (#[trigger] tries[i]).symbol != symbol,
    ensures
        search(tries, symbol, from) == tries.len(),
    decreases tries.len() - from,
{
    if from < tries.len() {
        lemma_search_absent(tries, symbol, from + 1);
    }
}

/// A path that begins with a symbol that no child stands for hangs below as a new last
/// child.
proof fn lemma_inserted_apart(trie: Trie, path: Seq<RuleType>)
    requires
        path.len() > 0,
        forall|i: int|
            0 <= i < trie.children.len() ==> (#[trigger] trie.children[i]).symbol != path[0],
    ensures
        trie.inserted(path) == (Trie {
            symbol: trie.symbol,
            children: trie.children + chain(path),
        }),
{
    lemma_search_absent(trie.children, path[0], 0);
    lemma_inserted_into_leaf(path[0], path.skip(1));
    assert(trie.children.push(Trie { symbol: path[0], children: chain(path.skip(1)) })
        =~= trie.children + chain(path));
}

/// The rules of a kind with one alternative are that alternative, symbol below symbol.
pub proof fn lemma_single_rule(kind: AstNodeKind)
    requires
        alternatives(kind).len() == 1,
        alternatives(kind)[0].len() > 0,
    ensures
        grammar().contains_key(kind),
        grammar()[kind].children == chain(alternatives(kind)[0]),
{
    let paths = alternatives(kind);
    assert(trie_of_paths(paths, 1) == trie_of_paths(paths, 0).inserted(paths[0]));
    lemma_inserted_apart(Trie::leaf(RuleType::Root), paths[0]);
    assert(Seq::<Trie>::empty() + chain(paths[0]) =~= chain(paths[0]));
}

/// The rules of a unary operator: three branches, one for each operator.
pub proof fn lemma_unary_rules()
    ensures
        grammar().contains_key(AstNodeKind::UnOp),
        grammar()[AstNodeKind::UnOp].children == seq![
            Trie::leaf(RuleType::Token(TokenKind::Negation)),
            Trie::leaf(RuleType::Token(TokenKind::BitwiseComplement)),
            Trie::leaf(RuleType::Token(TokenKind::LogicalNegation)),
        ],
{
    let paths = alternatives(AstNodeKind::UnOp);
    let t1 = trie_of_paths(paths, 1);
    let t2 = trie_of_paths(paths, 2);
    let t3 = trie_of_paths(paths, 3);
    assert(t1 == trie_of_paths(paths, 0).inserted(paths[0]));
    assert(t2 == t1.inserted(paths[1]));
    assert(t3 == t2.inserted(paths[2]));
    lemma_inserted_apart(Trie::leaf(RuleType::Root), paths[0]);
    lemma_chain_of_one(paths[0]);
    assert(t1.children =~= seq![Trie::leaf(paths[0][0])]);
    lemma_inserted_apart(t1, paths[1]);
    lemma_chain_of_one(paths[1]);
    assert(t2.children =~= seq![Trie::leaf(paths[0][0]), Trie::leaf(paths[1][0])]);
    lemma_inserted_apart(t2, paths[2]);
    lemma_chain_of_one(paths[2]);
    assert(t3.children =~= seq![
        Trie::leaf(paths[0][0]),
        Trie::leaf(paths[1][0]),
        Trie::leaf(paths[2][0]),
    ]);
}

/// The prefix tree of an alternative of one symbol is one node.
proof fn lemma_chain_of_one(path: Seq<RuleType>)
    requires
        path.len() == 1,
    ensures
        chain(path) == seq![Trie::leaf(path[0])],
{
    assert(chain(path.skip(1)) =~= Seq::<Trie>::empty());
}

/// The rules of an expression: an integer literal, or a unary operator and then an
/// expression.
pub proof fn lemma_expression_rules()
    ensures
        grammar().contains_key(AstNodeKind::Exp),
        grammar()[AstNodeKind::Exp].children == seq![
            Trie::leaf(RuleType::Token(TokenKind::IntegerLiteral)),
            Trie {
                symbol: RuleType::Node(AstNodeKind::UnOp),
                children: seq![Trie::leaf(RuleType::Node(AstNodeKind::Exp))],
            },
        ],
{
    let paths = alternatives(AstNodeKind::Exp);
    let t1 = trie_of_paths(paths, 1);
    let t2 = trie_of_paths(paths, 2);
    assert(t1 == trie_of_paths(paths, 0).inserted(paths[0]));
    assert(t2 == t1.inserted(paths[1]));
    lemma_inserted_apart(Trie::leaf(RuleType::Root), paths[0]);
    lemma_chain_of_one(paths[0]);
    assert(t1.children =~= seq![Trie::leaf(paths[0][0])]);
    lemma_inserted_apart(t1, paths[1]);
    lemma_chain_of_one(paths[1].skip(1));
    assert(paths[1].skip(1)[0] == RuleType::Node(AstNodeKind::Exp));
    assert(t2.children =~= seq![
        Trie::leaf(paths[0][0]),
        Trie {
            symbol: RuleType::Node(AstNodeKind::UnOp),
            children: seq![Trie::leaf(RuleType::Node(AstNodeKind::Exp))],
        },
    ]);
}

/// Whether a nonterminal of `kind` stands anywhere in a prefix tree.
pub open spec fn mentions(trie: Trie, kind: AstNodeKind) -> bool
    decreases trie, 0nat,
{
    trie.symbol == RuleType::Node(kind) || mentions_among(
        trie.children,
        trie.children.len(),
        kind,
    )
}

/// Whether a nonterminal of `kind` stands anywhere in the first `n` of `tries`.
pub open spec fn mentions_among(tries: Seq<Trie>, n: nat, kind: AstNodeKind) -> bool
    decreases tries, n,
{
    if n == 0 || n > tries.len() {
        false
    } else {
        mentions_among(tries, (n - 1) as nat, kind) || mentions(tries[n - 1], kind)
    }
}

/// Whether every nonterminal that stands in the rules of a table has rules in that table.
pub open spec fn is_closed(rules: Map<AstNodeKind, Trie>) -> bool {
    forall|of: AstNodeKind, kind: AstNodeKind|
        rules.contains_key(of) && #[trigger] mentions(rules[of], kind) ==> rules.contains_key(
            kind,
        )
}

/// The nonterminals of one alternative are those among its symbols.
proof fn lemma_mentions_in_chain(path: Seq<RuleType>, kind: AstNodeKind)
    requires
        mentions_among(chain(path), chain(path).len(), kind),
    ensures
        exists|i: int| 0 <= i < path.len() && path[i] == RuleType::Node(kind),
    decreases path.len(),
{
    if path.len() > 0 {
        let only = chain(path)[0];
        assert(mentions_among(chain(path), 0, kind) == false);
        assert(mentions(only, kind));
        if only.symbol == RuleType::Node(kind) {
            assert(path[0] == RuleType::Node(kind));
        } else {
            lemma_mentions_in_chain(path.skip(1), kind);
            let i = choose|i: int|
                0 <= i < path.skip(1).len() && path.skip(1)[i] == RuleType::Node(kind);
            assert(path[i + 1] == RuleType::Node(kind));
        }
    }
}

/// Putting alternatives in leaves the top of a prefix tree as it is.
proof fn lemma_root_stays(paths: Seq<Seq<RuleType>>, n: nat)
    ensures
        trie_of_paths(paths, n).symbol == RuleType::Root,
    decreases n,
{
    if n > 0 && n <= paths.len() {
        lemma_root_stays(paths, (n - 1) as nat);
    }
}

/// A prefix tree of one terminal holds no nonterminal.
proof fn lemma_terminal_leaf(token: TokenKind, kind: AstNodeKind)
    ensures
        !mentions(Trie::leaf(RuleType::Token(token)), kind),
{
    assert(!mentions_among(Seq::<Trie>::empty(), 0, kind));
}

/// No rule of the language asks for a kind of node that has no rules: the nonterminals
/// are functions, statements, expressions and unary operators, and each of them has rules.
pub proof fn lemma_grammar_is_closed()
    ensures
        is_closed(grammar()),
{
    let rules = grammar();
    assert forall|of: AstNodeKind, kind: AstNodeKind|
        rules.contains_key(of) && #[trigger] mentions(rules[of], kind) implies rules.contains_key(
        kind,
    ) by {
        let trie = rules[of];
        lemma_root_stays(alternatives(of), alternatives(of).len());
        match of {
            AstNodeKind::UnOp => {
                lemma_unary_rules();
                let tries = trie.children;
                lemma_terminal_leaf(TokenKind::Negation, kind);
                lemma_terminal_leaf(TokenKind::BitwiseComplement, kind);
                lemma_terminal_leaf(TokenKind::LogicalNegation, kind);
                assert(!mentions_among(tries, 0, kind));
                assert(!mentions_among(tries, 1, kind));
                assert(!mentions_among(tries, 2, kind));
                assert(!mentions_among(tries, 3, kind));
            },
            AstNodeKind::Exp => {
                lemma_expression_rules();
                let tries = trie.children;
                lemma_terminal_leaf(TokenKind::IntegerLiteral, kind);
                assert(!mentions_among(tries, 0, kind));
                assert(!mentions_among(tries, 1, kind));
                assert(mentions(tries[1], kind));
                let below = tries[1].children;
                assert(!mentions_among(below, 0, kind));
                assert(!mentions_among(below[0].children, 0, kind));
                assert(mentions(below[0], kind) == (kind == AstNodeKind::Exp));
                assert(mentions_among(below, 1, kind) == mentions(below[0], kind));
                assert(kind == AstNodeKind::UnOp || kind == AstNodeKind::Exp);
            },
            _ => {
                let path = alternatives(of)[0];
                lemma_single_rule(of);
                assert(mentions_among(chain(path), chain(path).len(), kind));
                lemma_mentions_in_chain(path, kind);
                let i = choose|i: int| 0 <= i < path.len() && path[i] == RuleType::Node(kind);
                if of == AstNodeKind::Statement {
                    assert(i == 1);
                } else if of == AstNodeKind::Function {
                    assert(i == 5);
                } else {
                    assert(i == 0);
                }
            },
        }
    }
}

} // verus!
