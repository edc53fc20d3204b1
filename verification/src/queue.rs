//! The queue that carries tokens from the lexer to the parser: `queues::Queue`, first in,
//! first out. Nothing here is proved: each contract says what the source of the queue
//! shows.

use crate::lexing::token::{Token, TokenView};
use queues::{IsQueue, Queue};
use vstd::prelude::*;

verus! {

/// `queues::Queue`, made known so that it can stand in signatures. Nothing is known of
/// what is inside one but what the functions below say.
#[verifier::external_type_specification]
#[verifier::external_body]
#[verifier::reject_recursive_types(T)]
pub struct ExQueue<T: Clone>(Queue<T>);

/// The tokens that a queue holds, oldest first.
pub uninterp spec fn queue_items(q: Queue<Token>) -> Seq<Token>;

/// The tokens that a queue holds, oldest first, as mathematical values.
pub open spec fn token_views(q: Queue<Token>) -> Seq<TokenView> {
    queue_items(q).map_values(|t: Token| t@)
}

/// `Queue::new`: a queue that holds nothing.
#[verifier::external_body]
pub(crate) fn new_queue() -> (q: Queue<Token>)
    ensures
        queue_items(q) == Seq::<Token>::empty(),
{
    Queue::new()
}

/// `Queue::add`: the token becomes the newest of the queue. A `Queue` has no limit, so
/// adding never fails and hands nothing back.
#[verifier::external_body]
pub(crate) fn add(q: &mut Queue<Token>, token: Token)
    ensures
        queue_items(*final(q)) == queue_items(*old(q)).push(token),
{
    let _ = q.add(token);
}

/// `Queue::peek`: a copy of the oldest token, if there is one. The queue stays as it is.
/// The copy is a clone, and the clone of a token is the same token.
#[verifier::external_body]
pub(crate) fn peek(q: &Queue<Token>) -> (r: Option<Token>)
    ensures
        r == if queue_items(*q).len() > 0 {
            Some(queue_items(*q)[0])
        } else {
            None
        },
{
    q.peek().ok()
}

/// `Queue::remove`: takes the oldest token out, if there is one.
#[verifier::external_body]
pub(crate) fn remove(q: &mut Queue<Token>) -> (r: Option<Token>)
    ensures
        r == if queue_items(*old(q)).len() > 0 {
            Some(queue_items(*old(q))[0])
        } else {
            None
        },
        queue_items(*final(q)) == if queue_items(*old(q)).len() > 0 {
            queue_items(*old(q)).skip(1)
        } else {
            queue_items(*old(q))
        },
{
    q.remove().ok()
}

/// `Queue::size`: how many tokens the queue holds.
#[verifier::external_body]
pub(crate) fn size(q: &Queue<Token>) -> (n: usize)
    ensures
        n == queue_items(*q).len(),
{
    q.size()
}

} // verus!
