//! The window of recent trades that order status is answered from: a ring
//! that holds the last hundred trades reported to it.

use crate::transaction::Transaction;
use circular_buffer::CircularBuffer;
use vstd::prelude::*;

verus! {

/// How many trades the window holds.
pub const RECENT_CAPACITY: usize = 100;

/// `circular_buffer::CircularBuffer`, a ring of fixed capacity.
#[verifier::external_type_specification]
#[verifier::external_body]
#[verifier::reject_recursive_types(T)]
pub struct ExCircularBuffer<const N: usize, T>(CircularBuffer<N, T>);

/// The trades that a window holds, oldest first.
pub uninterp spec fn recent_contents(window: CircularBuffer<100, Transaction>) -> Seq<Transaction>;

/// A window after one more trade: the trade comes last, and the oldest one
/// leaves where the window was full.
pub open spec fn ring_push(held: Seq<Transaction>, trade: Transaction) -> Seq<Transaction> {
    if held.len() >= RECENT_CAPACITY {
        held.skip(1).push(trade)
    } else {
        held.push(trade)
    }
}

/// A window after some more trades, pushed one after the other.
pub open spec fn ring_extend(held: Seq<Transaction>, trades: Seq<Transaction>) -> Seq<Transaction>
    decreases trades.len(),
{
    if trades.len() == 0 {
        held
    } else {
        ring_push(ring_extend(held, trades.drop_last()), trades.last())
    }
}

/// `CircularBuffer::new`: an empty ring.
#[verifier::external_body]
pub(crate) fn recent_new() -> (window: CircularBuffer<100, Transaction>)
    ensures
        recent_contents(window) == Seq::<Transaction>::empty(),
{
    CircularBuffer::new()
}

/// `CircularBuffer::push_back`: appends the trade at the back; where the
/// ring already holds as many elements as its capacity, the element at the
/// front is overwritten, so that the second oldest becomes the oldest.
#[verifier::external_body]
pub(crate) fn recent_push(window: &mut CircularBuffer<100, Transaction>, trade: Transaction)
    ensures
        recent_contents(*final(window)) == ring_push(recent_contents(*old(window)), trade),
{
    window.push_back(trade);
}

/// `CircularBuffer::to_vec`: the elements of the ring from front to back,
/// copied into a vector; the ring is left as it is.
#[verifier::external_body]
pub(crate) fn recent_to_vec(window: &CircularBuffer<100, Transaction>) -> (held: Vec<Transaction>)
    ensures
        held@ == recent_contents(*window),
{
    window.to_vec()
}

/// The last `count` elements of a sequence, or all of it where it has no
/// more.
pub open spec fn tail(trades: Seq<Transaction>, count: int) -> Seq<Transaction> {
    if trades.len() <= count {
        trades
    } else {
        trades.skip(trades.len() - count)
    }
}

/// A window that is extended holds the last hundred of what it held and
/// what was pushed, in that order.
pub proof fn lemma_ring_extend_is_tail(held: Seq<Transaction>, trades: Seq<Transaction>)
    requires
        held.len() <= RECENT_CAPACITY,
    ensures
        ring_extend(held, trades) == tail(held + trades, RECENT_CAPACITY as int),
        ring_extend(held, trades).len() <= RECENT_CAPACITY,
    decreases trades.len(),
{
    if trades.len() == 0 {
        assert(held + trades =~= held);
    } else {
        let before = trades.drop_last();
        lemma_ring_extend_is_tail(held, before);
        assert((held + before).push(trades.last()) =~= held + trades);
        assert(ring_extend(held, trades) =~= tail(held + trades, RECENT_CAPACITY as int));
    }
}

} // verus!
