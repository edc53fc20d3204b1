//! What holds of prefix trees when alternatives are put into them.

use crate::parsing::rule::{search, trie_of_paths, RuleType, Trie};
use vstd::prelude::*;

verus! {

/// Whether `path` can be walked from the top of `trie` downwards, symbol by symbol:
/// whether it is an alternative of the tree or the beginning of one.
pub open spec fn holds(trie: Trie, path: Seq<RuleType>) -> bool
    decreases path.len(),
{
    path.len() == 0 || exists|i: int|
        0 <= i < trie.children.len() && (#[trigger] trie.children[i]).symbol == path[0] && holds(
            trie.children[i],
            path.skip(1),
        )
}

/// Whether no two children of a node stand for the same symbol, anywhere in the tree:
/// whether the tree branches only where alternatives differ.
pub open spec fn parted(trie: Trie) -> bool
    decreases trie, 0nat,
{
    &&& forall|i: int, j: int|
        0 <= i < j < trie.children.len() ==> (#[trigger] trie.children[i]).symbol != (
        #[trigger] trie.children[j]).symbol
    &&& parted_among(trie.children, trie.children.len())
}

/// Whether each of the first `n` of `tries` branches only where alternatives differ.
pub open spec fn parted_among(tries: Seq<Trie>, n: nat) -> bool
    decreases tries, n,
{
    if n == 0 || n > tries.len() {
        true
    } else {
        parted_among(tries, (n - 1) as nat) && parted(tries[n - 1])
    }
}

/// What a search finds stands for the symbol, and nothing before it does.
pub proof fn lemma_search(tries: Seq<Trie>, symbol: RuleType, from: int)
    requires
        0 <= from <= tries.len(),
    ensures
        from <= search(tries, symbol, from) <= tries.len(),
        search(tries, symbol, from) < tries.len() ==> tries[search(tries, symbol, from)].symbol
            == symbol,
        forall|i: int|
            from <= i < search(tries, symbol, from) ==> (#[trigger] tries[i]).symbol != symbol,
    decreases tries.len() - from,
{
    if from < tries.len() && tries[from].symbol != symbol {
        lemma_search(tries, symbol, from + 1);
    }
}

/// Each of the first `n` trees branches only where alternatives differ exactly when
/// every one of them does.
proof fn lemma_parted_among(tries: Seq<Trie>, n: nat)
    requires
        n <= tries.len(),
    ensures
        parted_among(tries, n) <==> forall|i: int| 0 <= i < n ==> parted(#[trigger] tries[i]),
    decreases n,
{
    if n > 0 {
        lemma_parted_among(tries, (n - 1) as nat);
    }
}

/// Putting an alternative in keeps the children that there are, in their order, and
/// adds one at the end at most.
pub proof fn lemma_inserted_keeps_order(trie: Trie, path: Seq<RuleType>)
    ensures
        trie.inserted(path).symbol == trie.symbol,
        trie.children.len() <= trie.inserted(path).children.len() <= trie.children.len() + 1,
        forall|i: int|
            0 <= i < trie.children.len() ==> (#[trigger] trie.inserted(path).children[i]).symbol
                == trie.children[i].symbol,
    decreases path.len(),
{
    if path.len() > 0 {
        lemma_search(trie.children, path[0], 0);
        let at = search(trie.children, path[0], 0);
        if at < trie.children.len() {
            lemma_inserted_keeps_order(trie.children[at], path.skip(1));
        }
    }
}

/// After an alternative has been put in, the tree holds it and every beginning of it.
pub proof fn lemma_inserted_holds(trie: Trie, path: Seq<RuleType>, part: Seq<RuleType>)
    requires
        part.is_prefix_of(path),
    ensures
        holds(trie.inserted(path), part),
    decreases path.len(),
{
    if part.len() > 0 {
        let after = trie.inserted(path);
        lemma_search(trie.children, path[0], 0);
        let at = search(trie.children, path[0], 0);
        assert(part[0] == path[0]);
        assert(part.skip(1).is_prefix_of(path.skip(1))) by {
            assert(part.skip(1) =~= path.skip(1).subrange(0, part.len() - 1));
        }
        if at < trie.children.len() {
            lemma_inserted_holds(trie.children[at], path.skip(1), part.skip(1));
            lemma_inserted_keeps_order(trie.children[at], path.skip(1));
            assert(after.children[at].symbol == part[0]);
        } else {
            lemma_inserted_holds(Trie::leaf(path[0]), path.skip(1), part.skip(1));
            lemma_inserted_keeps_order(Trie::leaf(path[0]), path.skip(1));
            assert(after.children[at].symbol == part[0]);
        }
    }
}

/// Putting an alternative in takes nothing away: what the tree held it still holds.
pub proof fn lemma_inserted_keeps(trie: Trie, path: Seq<RuleType>, other: Seq<RuleType>)
    requires
        holds(trie, other),
    ensures
        holds(trie.inserted(path), other),
    decreases path.len(),
{
    if path.len() > 0 && other.len() > 0 {
        let after = trie.inserted(path);
        lemma_search(trie.children, path[0], 0);
        let at = search(trie.children, path[0], 0);
        let i = choose|i: int|
            0 <= i < trie.children.len() && (#[trigger] trie.children[i]).symbol == other[0]
                && holds(trie.children[i], other.skip(1));
        if i == at {
            lemma_inserted_keeps(trie.children[at], path.skip(1), other.skip(1));
            lemma_inserted_keeps_order(trie.children[at], path.skip(1));
        }
        assert(after.children[i].symbol == other[0]);
        assert(holds(after.children[i], other.skip(1)));
    }
}

/// Putting an alternative in adds nothing but the alternative: what the tree holds after,
/// it held before, or it is a beginning of the alternative.
pub proof fn lemma_inserted_adds_only(trie: Trie, path: Seq<RuleType>, other: Seq<RuleType>)
    requires
        holds(trie.inserted(path), other),
    ensures
        holds(trie, other) || other.is_prefix_of(path),
    decreases path.len(),
{
    if path.len() > 0 && other.len() > 0 {
        let after = trie.inserted(path);
        lemma_search(trie.children, path[0], 0);
        let at = search(trie.children, path[0], 0);
        let i = choose|i: int|
            0 <= i < after.children.len() && (#[trigger] after.children[i]).symbol == other[0]
                && holds(after.children[i], other.skip(1));
        if i == at {
            let below = if at < trie.children.len() {
                trie.children[at]
            } else {
                Trie::leaf(path[0])
            };
            lemma_inserted_keeps_order(below, path.skip(1));
            lemma_inserted_adds_only(below, path.skip(1), other.skip(1));
            if other.skip(1).is_prefix_of(path.skip(1)) {
                assert(other =~= path.subrange(0, other.len() as int)) by {
                    assert forall|k: int| 0 <= k < other.len() implies other[k] == path[k] by {
                        if k > 0 {
                            assert(other.skip(1)[k - 1] == path.skip(1).subrange(
                                0,
                                other.len() - 1,
                            )[k - 1]);
                        }
                    }
                }
            } else if at < trie.children.len() {
                assert(trie.children[at].symbol == other[0]);
            } else {
                assert(holds(Trie::leaf(path[0]), other.skip(1)));
                assert(other.skip(1).len() == 0);
            }
        } else {
            assert(trie.children[i].symbol == other[0]);
            assert(holds(trie.children[i], other.skip(1)));
        }
    } else if other.len() > 0 {
        assert(trie.inserted(path) == trie);
    }
}

/// A tree that branches only where alternatives differ still does after an alternative
/// has been put in: the alternative shares the nodes of the longest beginning that is
/// there, and branches off where it first differs.
pub proof fn lemma_inserted_stays_parted(trie: Trie, path: Seq<RuleType>)
    requires
        parted(trie),
    ensures
        parted(trie.inserted(path)),
    decreases path.len(),
{
    if path.len() > 0 {
        let after = trie.inserted(path);
        lemma_search(trie.children, path[0], 0);
        let at = search(trie.children, path[0], 0);
        lemma_parted_among(trie.children, trie.children.len());
        lemma_parted_among(after.children, after.children.len());
        let below = if at < trie.children.len() {
            trie.children[at]
        } else {
            Trie::leaf(path[0])
        };
        assert(parted(below)) by {
            if at >= trie.children.len() {
                assert(parted_among(Seq::<Trie>::empty(), 0));
            }
        }
        lemma_inserted_stays_parted(below, path.skip(1));
        lemma_inserted_keeps_order(below, path.skip(1));
        assert forall|i: int| 0 <= i < after.children.len() implies parted(
            #[trigger] after.children[i],
        ) by {
            if i != at {
                assert(after.children[i] == trie.children[i]);
            }
        }
        assert forall|i: int, j: int| 0 <= i < j < after.children.len() implies (
        #[trigger] after.children[i]).symbol != (#[trigger] after.children[j]).symbol by {
            if i < trie.children.len() {
                assert(after.children[i].symbol == trie.children[i].symbol);
            }
            if j < trie.children.len() {
                assert(after.children[j].symbol == trie.children[j].symbol);
            }
        }
    }
}

/// Putting in an alternative that is there changes nothing.
pub proof fn lemma_inserted_twice(trie: Trie, path: Seq<RuleType>)
    ensures
        trie.inserted(path).inserted(path) == trie.inserted(path),
    decreases path.len(),
{
    if path.len() > 0 {
        let after = trie.inserted(path);
        lemma_search(trie.children, path[0], 0);
        let at = search(trie.children, path[0], 0);
        let below = if at < trie.children.len() {
            trie.children[at]
        } else {
            Trie::leaf(path[0])
        };
        lemma_inserted_twice(below, path.skip(1));
        lemma_inserted_keeps_order(below, path.skip(1));
        assert(after.children[at] == below.inserted(path.skip(1)));
        assert forall|i: int| 0 <= i < at implies (#[trigger] after.children[i]).symbol
            != path[0] by {
            assert(after.children[i] == trie.children[i]);
        }
        lemma_search_is(after.children, path[0], 0, at);
        assert(after.inserted(path).children =~= after.children);
    }
}

/// A search finds the first tree that stands for the symbol.
proof fn lemma_search_is(tries: Seq<Trie>, symbol: RuleType, from: int, at: int)
    requires
        0 <= from <= at < tries.len(),
        tries[at].symbol == symbol,
        forall|i: int| from <= i < at ==> (#[trigger] tries[i]).symbol != symbol,
    ensures
        search(tries, symbol, from) == at,
    decreases at - from,
{
    if from < at {
        lemma_search_is(tries, symbol, from + 1, at);
    }
}

/// A prefix tree that was built by putting alternatives in, one after the other,
/// branches only where alternatives differ: from each node one symbol leads one way.
pub proof fn lemma_built_parted(paths: Seq<Seq<RuleType>>, n: nat)
    ensures
        parted(trie_of_paths(paths, n)),
    decreases n,
{
    if n == 0 || n > paths.len() {
        assert(parted_among(Seq::<Trie>::empty(), 0));
    } else {
        lemma_built_parted(paths, (n - 1) as nat);
        lemma_inserted_stays_parted(trie_of_paths(paths, (n - 1) as nat), paths[n - 1]);
    }
}

/// A prefix tree that was built by putting alternatives in holds each of them.
pub proof fn lemma_built_holds(paths: Seq<Seq<RuleType>>, n: nat, k: int)
    requires
        0 <= k < n <= paths.len(),
    ensures
        holds(trie_of_paths(paths, n), paths[k]),
    decreases n,
{
    let before = trie_of_paths(paths, (n - 1) as nat);
    if k == n - 1 {
        lemma_inserted_holds(before, paths[k], paths[k]);
    } else {
        lemma_built_holds(paths, (n - 1) as nat, k);
        lemma_inserted_keeps(before, paths[n - 1], paths[k]);
    }
}

} // verus!
