//! From tokens to a tree: the descent that the grammar table drives.

use crate::lexing::token::{Token, TokenView};
use crate::parsing::error::{Cause, ParseError};
use crate::parsing::node::{AstNodeKind, Node, Tree};
use crate::parsing::rule::{consume, lemma_tries_of_first, tries_of, RuleTree, Rules, Trie};
use crate::queue::{size, token_views};
use queues::Queue;
use vstd::prelude::*;

verus! {

/// How many nodes may be under way, one within the other, without any of them having read
/// a token, beyond the outermost of them. There are eight kinds of node, so a deeper nest
/// holds one kind twice at the same token, and would go on nesting for ever.
pub const IDLE_DEPTH: usize = 7;

/// The bounds within which a node may be parsed that opens within another: how many
/// tokens there were when the count of idle nodes began, and how many more may open.
pub struct Bounds {
    pub mark: nat,
    pub budget: nat,
}

/// The bounds for a node that opens where `left` tokens are left, within a node whose
/// bounds are `mark` and `budget`. Where a token has been read since the count began, it
/// begins anew. Where none has, one node less may open, and none where none was left.
pub open spec fn nesting(left: nat, mark: nat, budget: nat) -> Option<Bounds> {
    if left < mark {
        Some(Bounds { mark: left, budget: IDLE_DEPTH as nat })
    } else if budget > 0 {
        Some(Bounds { mark, budget: (budget - 1) as nat })
    } else {
        None
    }
}

/// How a parse ended: the tree or the error, and the tokens that are left.
pub struct Outcome {
    pub result: Result<Tree, ParseError>,
    pub rest: Seq<TokenView>,
}

/// Parses the tokens into `node` by the rules of its kind. A kind without rules is a leaf:
/// the node is done as it is.
///
/// `parent` is the kind of the node that this one is parsed for. `mark` and `budget` bound
/// the nesting: `budget` nodes may still open within this one before a token is read, and
/// `mark` is how many tokens there were when that count began.
pub open spec fn descend(
    rules: Map<AstNodeKind, Trie>,
    node: Tree,
    tokens: Seq<TokenView>,
    parent: Option<AstNodeKind>,
    mark: nat,
    budget: nat,
) -> Outcome
    decreases mark, budget, 1nat, Seq::<Trie>::empty(), 0nat,
{
    if rules.contains_key(node.label.kind()) {
        walk(
            rules,
            node,
            tokens,
            rules[node.label.kind()].children,
            0,
            None,
            parent,
            mark,
            budget,
        )
    } else {
        Outcome { result: Ok(node), rest: tokens }
    }
}

/// Parses the tokens into `node` along one of `branches`, the symbols that may come next,
/// tried in order from index `from` on. `last` is why the branch before `from` failed.
///
/// The first branch whose symbol takes is the one: what it made is parsed in turn and
/// becomes the next child of `node`, and the walk goes on below that branch, which holds
/// the rest of the same alternatives. No other branch is tried after that, whatever
/// follows. Where no symbol takes, the parse fails at `node`, for the reason that the last
/// branch gave. Where there is no branch, an alternative has come to its end and the node
/// is done. Where the rules would open one node within another without end, the parse
/// fails at `node` as soon as that is certain.
pub open spec fn walk(
    rules: Map<AstNodeKind, Trie>,
    node: Tree,
    tokens: Seq<TokenView>,
    branches: Seq<Trie>,
    from: nat,
    last: Option<Cause>,
    parent: Option<AstNodeKind>,
    mark: nat,
    budget: nat,
) -> Outcome
    decreases mark, budget, 0nat, branches, branches.len() - from,
{
    let context = node.label.kind();
    if from >= branches.len() {
        match last {
            None => Outcome { result: Ok(node), rest: tokens },
            Some(cause) => Outcome {
                result: Err(ParseError { context, parent, cause }),
                rest: tokens,
            },
        }
    } else {
        let branch = branches[from as int];
        let step = consume(branch.symbol, tokens);
        match step.result {
            Err(cause) => walk(
                rules,
                node,
                step.rest,
                branches,
                from + 1,
                Some(cause),
                parent,
                mark,
                budget,
            ),
            Ok(None) => walk(
                rules,
                node,
                step.rest,
                branch.children,
                0,
                None,
                parent,
                mark,
                budget,
            ),
            Ok(Some(child)) => {
                let below = match nesting(step.rest.len(), mark, budget) {
                    Some(bounds) => descend(
                        rules,
                        child,
                        step.rest,
                        Some(context),
                        bounds.mark,
                        bounds.budget,
                    ),
                    None => Outcome {
                        result: Err(
                            ParseError { context, parent, cause: Cause::EndlessExpansion },
                        ),
                        rest: step.rest,
                    },
                };
                match below.result {
                    Err(e) => below,
                    Ok(tree) => walk(
                        rules,
                        node.with_child(tree),
                        below.rest,
                        branch.children,
                        0,
                        None,
                        parent,
                        mark,
                        budget,
                    ),
                }
            },
        }
    }
}

/// The parse of `tokens` into `node` by `rules`, begun afresh.
pub open spec fn parsed(
    rules: Map<AstNodeKind, Trie>,
    node: Tree,
    tokens: Seq<TokenView>,
) -> Outcome {
    descend(rules, node, tokens, None, tokens.len(), IDLE_DEPTH as nat)
}

/// The end of a parse as a mathematical value.
pub open spec fn outcome(r: Result<Node, ParseError>, tokens: Queue<Token>) -> Outcome {
    Outcome {
        result: match r {
            Ok(node) => Ok(node@),
            Err(e) => Err(e),
        },
        rest: token_views(tokens),
    }
}

/// The bounds for a node that opens where `left` tokens are left: see [`nesting`].
fn bounds_within(left: usize, mark: usize, budget: usize) -> (r: Option<(usize, usize)>)
    ensures
        match r {
            Some((inner_mark, inner_budget)) => nesting(left as nat, mark as nat, budget as nat)
                == Some(Bounds { mark: inner_mark as nat, budget: inner_budget as nat }),
            None => nesting(left as nat, mark as nat, budget as nat) is None,
        },
{
    if left < mark {
        Some((left, IDLE_DEPTH))
    } else if budget > 0 {
        Some((mark, budget - 1))
    } else {
        None
    }
}

impl Node {
    /// Parses the tokens into this node by the rules of its kind, and hands the node back
    /// with the children that it got. The tokens that were read are gone from the queue,
    /// also where the parse fails; a failed parse hands back no tree.
    pub fn parse(self, tokens: &mut Queue<Token>, rules: &Rules) -> (r: Result<Node, ParseError>)
        ensures
            outcome(r, *final(tokens)) == parsed(rules@, self@, token_views(*old(tokens))),
    {
        let mark: usize = size(tokens);
        self.parse_within(tokens, rules, None, mark, IDLE_DEPTH)
    }

    /// Parses the tokens into this node by the rules of its kind, within the given bounds.
    fn parse_within(
        self,
        tokens: &mut Queue<Token>,
        rules: &Rules,
        parent: Option<AstNodeKind>,
        mark: usize,
        budget: usize,
    ) -> (r: Result<Node, ParseError>)
        ensures
            outcome(r, *final(tokens)) == descend(
                rules@,
                self@,
                token_views(*old(tokens)),
                parent,
                mark as nat,
                budget as nat,
            ),
        decreases mark, budget, 1nat, Seq::<Trie>::empty(), 0nat,
    {
        proof {
            self.lemma_view();
        }
        match rules.get(self.kind.get_kind()) {
            Some(tree) => {
                proof {
                    tree.lemma_view();
                }
                self.parse_branches(tokens, &tree.children, rules, parent, mark, budget)
            },
            None => Ok(self),
        }
    }

    /// Parses the tokens into this node along one of `branches`.
    fn parse_branches(
        self,
        tokens: &mut Queue<Token>,
        branches: &Vec<RuleTree>,
        rules: &Rules,
        parent: Option<AstNodeKind>,
        mark: usize,
        budget: usize,
    ) -> (r: Result<Node, ParseError>)
        ensures
            outcome(r, *final(tokens)) == walk(
                rules@,
                self@,
                token_views(*old(tokens)),
                tries_of(branches@),
                0,
                None,
                parent,
                mark as nat,
                budget as nat,
            ),
        decreases mark, budget, 0nat, tries_of(branches@), 0nat,
    {
        let ghost goal = walk(
            rules@,
            self@,
            token_views(*old(tokens)),
            tries_of(branches@),
            0,
            None,
            parent,
            mark as nat,
            budget as nat,
        );
        proof {
            lemma_tries_of_first(branches@, branches@.len() as nat);
        }
        let mut node = self;
        let mut last: Option<Cause> = None;
        let mut i: usize = 0;
        while i < branches.len()
            invariant
                i <= branches@.len(),
                goal == walk(
                    rules@,
                    self@,
                    token_views(*old(tokens)),
                    tries_of(branches@),
                    0,
                    None,
                    parent,
                    mark as nat,
                    budget as nat,
                ),
                tries_of(branches@).len() == branches@.len(),
                forall|k: int|
                    0 <= k < branches@.len() ==> #[trigger] tries_of(branches@)[k]
                        == branches@[k]@,
                goal == walk(
                    rules@,
                    node@,
                    token_views(*tokens),
                    tries_of(branches@),
                    i as nat,
                    last,
                    parent,
                    mark as nat,
                    budget as nat,
                ),
            decreases branches@.len() - i,
        {
            let branch: &RuleTree = &branches[i];
            let context = node.kind.get_kind();
            proof {
                branch.lemma_view();
                node.lemma_view();
            }
            match branch.ruletype.try_consume(tokens) {
                Err(cause) => {
                    last = Some(cause);
                },
                Ok(None) => {
                    return node.parse_branches(
                        tokens,
                        &branch.children,
                        rules,
                        parent,
                        mark,
                        budget,
                    );
                },
                Ok(Some(child)) => {
                    let below = match bounds_within(size(tokens), mark, budget) {
                        Some((inner_mark, inner_budget)) => child.parse_within(
                            tokens,
                            rules,
                            Some(context),
                            inner_mark,
                            inner_budget,
                        ),
                        None => Err(
                            ParseError { context, parent, cause: Cause::EndlessExpansion },
                        ),
                    };
                    match below {
                        Err(e) => {
                            return Err(e);
                        },
                        Ok(tree) => {
                            let ghost before = node@;
                            node.children.push(tree);
                            proof {
                                node.lemma_view();
                                assert(node@.children =~= before.children.push(tree@));
                            }
                            return node.parse_branches(
                                tokens,
                                &branch.children,
                                rules,
                                parent,
                                mark,
                                budget,
                            );
                        },
                    }
                },
            }
            i = i + 1;
        }
        match last {
            None => Ok(node),
            Some(cause) => Err(ParseError { context: node.kind.get_kind(), parent, cause }),
        }
    }
}

} // verus!
