//! The order book of one instrument: two priority queues, the ledger of
//! executed trades and the last traded price.
//!
//! Each queue is kept in ascending priority, so the order that is matched
//! next is the last one. An order enters below every resting order of the
//! same rank, which makes equal orders leave in the order they came.

use crate::order::outranks_on;
use crate::order::Order;
use crate::order::OrderDetails;
use crate::order::OrderType;
use crate::order::OrderVariant;
use crate::order::Stock;
use crate::price::Price;
use crate::time::MTime;
use crate::transaction::Fill;
use crate::transaction::Transaction;
use vstd::prelude::*;

verus! {

/// What matching reads and changes: both queues in ascending priority and
/// the last traded price.
pub struct Quotes {
    pub bids: Seq<Order>,
    pub asks: Seq<Order>,
    pub price: Price,
}

/// No order precedes one that lies nearer the top.
pub open spec fn sorted_on(side: OrderType, queue: Seq<Order>) -> bool {
    forall|i: int, j: int|
        0 <= i < j < queue.len() ==> !outranks_on(side, #[trigger] queue[i], #[trigger] queue[j])
}

/// Every order is of this side and has quantity left.
pub open spec fn resting_on(side: OrderType, queue: Seq<Order>) -> bool {
    forall|i: int|
        0 <= i < queue.len() ==> (#[trigger] queue[i]).order_type == side && queue[i].details.amount
            > 0
}

/// Where an order enters a queue: above the orders it precedes, below the
/// first one it does not.
pub open spec fn slot(queue: Seq<Order>, side: OrderType, order: Order) -> int
    decreases queue.len(),
{
    if queue.len() == 0 || !outranks_on(side, order, queue.first()) {
        0
    } else {
        1 + slot(queue.drop_first(), side, order)
    }
}

/// The queues after an order came to rest on its side; the price stays.
pub open spec fn rest_order(q: Quotes, order: Order) -> Quotes {
    match order.order_type {
        OrderType::Buy => Quotes {
            bids: q.bids.insert(slot(q.bids, OrderType::Buy, order), order),
            asks: q.asks,
            price: q.price,
        },
        OrderType::Sell => Quotes {
            bids: q.bids,
            asks: q.asks.insert(slot(q.asks, OrderType::Sell, order), order),
            price: q.price,
        },
    }
}

/// Both queues without the orders that are past their lifetime at `now`.
pub open spec fn swept_quotes(q: Quotes, now: i64) -> Quotes {
    Quotes { bids: swept(q.bids, now), asks: swept(q.asks, now), price: q.price }
}

/// Whether a bid and an ask may trade: always when one of them is a market
/// order, else when the bid's limit is at least the ask's.
pub open spec fn crosses(bid: Order, ask: Order) -> bool {
    match (bid.variant, ask.variant) {
        (OrderVariant::Limit { price: b }, OrderVariant::Limit { price: a }) => b.key >= a.key,
        _ => true,
    }
}

/// The price at which a bid and an ask trade: the ask's limit between two
/// limit orders, the limit where one is a market order, and the last traded
/// price between two market orders.
pub open spec fn trade_price(bid: Order, ask: Order, last: Price) -> Price {
    match (bid.variant, ask.variant) {
        (OrderVariant::Limit { .. }, OrderVariant::Limit { price }) => price,
        (OrderVariant::Market, OrderVariant::Limit { price }) => price,
        (OrderVariant::Limit { price }, OrderVariant::Market) => price,
        (OrderVariant::Market, OrderVariant::Market) => last,
    }
}

/// The quantity that a bid and an ask trade: the smaller remainder.
pub open spec fn trade_volume(bid: Order, ask: Order) -> u64 {
    if bid.details.amount <= ask.details.amount {
        bid.details.amount
    } else {
        ask.details.amount
    }
}

/// An order with `volume` taken off its remaining quantity.
pub open spec fn reduced(order: Order, volume: u64) -> Order {
    Order {
        id: order.id,
        order_type: order.order_type,
        variant: order.variant,
        details: OrderDetails {
            time: order.details.time,
            stock: order.details.stock,
            amount: (order.details.amount - volume) as u64,
            lifetime_nanos: order.details.lifetime_nanos,
        },
    }
}

/// A queue after its top order traded `volume`: the order stays on top with
/// what is left, or leaves when nothing is.
pub open spec fn after_fill(queue: Seq<Order>, volume: u64) -> Seq<Order>
    recommends
        queue.len() > 0,
{
    if queue.last().details.amount > volume {
        queue.drop_last().push(reduced(queue.last(), volume))
    } else {
        queue.drop_last()
    }
}

/// Whether the two top orders exist and may trade.
pub open spec fn can_trade(q: Quotes) -> bool {
    q.bids.len() > 0 && q.asks.len() > 0 && crosses(q.bids.last(), q.asks.last())
}

/// What the trade between the two top orders settles.
pub open spec fn step_fill(q: Quotes) -> Fill
    recommends
        can_trade(q),
{
    Fill {
        buy_id: q.bids.last().id,
        sell_id: q.asks.last().id,
        price: trade_price(q.bids.last(), q.asks.last(), q.price),
        volume: trade_volume(q.bids.last(), q.asks.last()),
    }
}

/// The queues and the price after the two top orders traded.
pub open spec fn step(q: Quotes) -> Quotes
    recommends
        can_trade(q),
{
    Quotes {
        bids: after_fill(q.bids, trade_volume(q.bids.last(), q.asks.last())),
        asks: after_fill(q.asks, trade_volume(q.bids.last(), q.asks.last())),
        price: trade_price(q.bids.last(), q.asks.last(), q.price),
    }
}

/// The queues and the price after up to `n` trades between top orders,
/// stopping at the first pair that may not trade.
pub open spec fn settle(q: Quotes, n: nat) -> Quotes
    decreases n,
{
    if n == 0 {
        q
    } else {
        let before = settle(q, (n - 1) as nat);
        if can_trade(before) {
            step(before)
        } else {
            before
        }
    }
}

/// What those trades settle, first trade first.
pub open spec fn settle_fills(q: Quotes, n: nat) -> Seq<Fill>
    decreases n,
{
    if n == 0 {
        Seq::empty()
    } else {
        let before = settle(q, (n - 1) as nat);
        if can_trade(before) {
            settle_fills(q, (n - 1) as nat).push(step_fill(before))
        } else {
            settle_fills(q, (n - 1) as nat)
        }
    }
}

/// Whether the later queues, price and ledger are the earlier ones after
/// `trades` trades of a matching pass: the top orders traded that often and
/// could each time, which takes no more trades than orders rest; the ledger
/// has grown by one record for each trade, in order, which says what the
/// trade settled and carries no id of its own.
pub open spec fn pass_of(
    before: Quotes,
    ledger: Seq<Transaction>,
    after: Quotes,
    grown: Seq<Transaction>,
    trades: nat,
) -> bool {
    &&& after == settle(before, trades)
    &&& forall|k: nat| k < trades ==> can_trade(#[trigger] settle(before, k))
    &&& trades <= before.bids.len() + before.asks.len()
    &&& grown.len() == ledger.len() + trades
    &&& grown.take(ledger.len() as int) == ledger
    &&& forall|i: int|
        0 <= i < trades ==> (#[trigger] grown[ledger.len() + i]).fill() == settle_fills(
            before,
            trades,
        )[i] && grown[ledger.len() + i].transaction_id.is_none()
}

/// The record of a fill made at `now`.
pub open spec fn stamped(fill: Fill, now: i64) -> Transaction {
    Transaction {
        transaction_id: None,
        buy_id: fill.buy_id,
        sell_id: fill.sell_id,
        price: fill.price,
        volume: fill.volume,
        timestamp: now,
    }
}

/// Whether an order is still within its lifetime at `now`. An order without
/// a lifetime always is.
pub open spec fn alive(order: Order, now: i64) -> bool {
    match order.details.lifetime_nanos {
        Some(lifetime) => lifetime + order.details.time > now,
        None => true,
    }
}

/// A queue without the orders that are past their lifetime at `now`.
pub open spec fn swept(queue: Seq<Order>, now: i64) -> Seq<Order> {
    queue.filter(|o: Order| alive(o, now))
}

/// What holds of a queue before and after a sweep, whatever the instant of
/// the sweep, and also where nothing was swept: every order without a
/// lifetime is still there, and no order is there that was not.
pub open spec fn spared(before: Seq<Order>, after: Seq<Order>) -> bool {
    &&& forall|i: int|
        0 <= i < before.len() && (#[trigger] before[i]).details.lifetime_nanos.is_none()
            ==> after.contains(before[i])
    &&& forall|order: Order| #[trigger] after.contains(order) ==> before.contains(order)
}

/// Whether some order in the queue carries the id.
pub open spec fn holds_id(queue: Seq<Order>, id: u64) -> bool {
    exists|i: int| 0 <= i < queue.len() && (#[trigger] queue[i]).id == Some(id)
}

/// The position that `slot` gives is the one below which the order
/// precedes everything and at which it no longer does.
pub proof fn lemma_slot(queue: Seq<Order>, side: OrderType, order: Order, p: int)
    requires
        0 <= p <= queue.len(),
        forall|i: int| 0 <= i < p ==> outranks_on(side, order, #[trigger] queue[i]),
        p < queue.len() ==> !outranks_on(side, order, queue[p]),
    ensures
        slot(queue, side, order) == p,
    decreases p,
{
    if p > 0 {
        let rest = queue.drop_first();
        assert forall|i: int| 0 <= i < p - 1 implies outranks_on(side, order, #[trigger] rest[i]) by {
            assert(rest[i] == queue[i + 1]);
        }
        if p - 1 < rest.len() {
            assert(rest[p - 1] == queue[p]);
        }
        lemma_slot(rest, side, order, p - 1);
    }
}

/// A trade takes at least one order off the book.
pub proof fn lemma_step_shrinks(q: Quotes)
    requires
        can_trade(q),
    ensures
        step(q).bids.len() + step(q).asks.len() < q.bids.len() + q.asks.len(),
        step(q).bids.len() <= q.bids.len(),
        step(q).asks.len() <= q.asks.len(),
{
}

/// A trade leaves both queues sorted and resting.
pub proof fn lemma_step_keeps_order(q: Quotes)
    requires
        can_trade(q),
        sorted_on(OrderType::Buy, q.bids),
        sorted_on(OrderType::Sell, q.asks),
        resting_on(OrderType::Buy, q.bids),
        resting_on(OrderType::Sell, q.asks),
    ensures
        sorted_on(OrderType::Buy, step(q).bids),
        sorted_on(OrderType::Sell, step(q).asks),
        resting_on(OrderType::Buy, step(q).bids),
        resting_on(OrderType::Sell, step(q).asks),
{
    let volume = trade_volume(q.bids.last(), q.asks.last());
    lemma_after_fill_keeps_order(OrderType::Buy, q.bids, volume);
    lemma_after_fill_keeps_order(OrderType::Sell, q.asks, volume);
}

/// Taking quantity off the top order, or removing it, leaves a queue sorted
/// and resting.
pub proof fn lemma_after_fill_keeps_order(side: OrderType, queue: Seq<Order>, volume: u64)
    requires
        queue.len() > 0,
        sorted_on(side, queue),
        resting_on(side, queue),
    ensures
        sorted_on(side, after_fill(queue, volume)),
        resting_on(side, after_fill(queue, volume)),
{
    let after = after_fill(queue, volume);
    let n = queue.len() - 1;
    assert forall|i: int, j: int| 0 <= i < j < after.len() implies !outranks_on(
        side,
        #[trigger] after[i],
        #[trigger] after[j],
    ) by {
        assert(after[i] == queue[i]);
        if j < n {
            assert(after[j] == queue[j]);
        } else {
            assert(after[j] == reduced(queue[n], volume));
            assert(!outranks_on(side, queue[i], queue[n]));
        }
    }
    assert forall|i: int| 0 <= i < after.len() implies (#[trigger] after[i]).order_type == side
        && after[i].details.amount > 0 by {
        if i < n {
            assert(after[i] == queue[i]);
        } else {
            assert(after[i] == reduced(queue[n], volume));
            assert(queue[n].order_type == side);
        }
    }
}

/// In a sorted queue a market order lies nearer the top than every limit
/// order, whenever either was submitted.
pub proof fn lemma_market_above_limits(side: OrderType, queue: Seq<Order>, m: int, l: int)
    requires
        sorted_on(side, queue),
        0 <= m < queue.len(),
        0 <= l < queue.len(),
        queue[m].variant == OrderVariant::Market,
        queue[l].variant != OrderVariant::Market,
    ensures
        l < m,
{
    if m < l {
        assert(!outranks_on(side, queue[m], queue[l]));
    }
}

/// In a sorted queue, of two limit orders at one price the one submitted
/// earlier lies nearer the top, so matching reaches them in the order of
/// their submission.
pub proof fn lemma_earlier_above_later(side: OrderType, queue: Seq<Order>, e: int, l: int)
    requires
        sorted_on(side, queue),
        0 <= e < queue.len(),
        0 <= l < queue.len(),
        queue[e].variant != OrderVariant::Market,
        queue[e].variant == queue[l].variant,
        queue[e].details.time < queue[l].details.time,
    ensures
        l < e,
{
    if e < l {
        assert(!outranks_on(side, queue[e], queue[l]));
    }
}

/// In a sorted queue no order precedes the top one: the order that a match
/// takes is one of highest priority.
pub proof fn lemma_top_is_first(side: OrderType, queue: Seq<Order>, i: int)
    requires
        sorted_on(side, queue),
        0 <= i < queue.len(),
    ensures
        !outranks_on(side, queue[i], queue.last()),
{
    if i < queue.len() - 1 {
        assert(!outranks_on(side, queue[i], queue[queue.len() - 1]));
    }
}

/// Enters an order into a queue at its slot.
fn enqueue(queue: &mut Vec<Order>, side: OrderType, order: Order)
    requires
        sorted_on(side, old(queue)@),
        resting_on(side, old(queue)@),
        order.order_type == side,
        order.details.amount > 0,
    ensures
        final(queue)@ == old(queue)@.insert(slot(old(queue)@, side, order), order),
        0 <= slot(old(queue)@, side, order) <= old(queue)@.len(),
        sorted_on(side, final(queue)@),
        resting_on(side, final(queue)@),
{
    let n = queue.len();
    let mut p: usize = 0;
    while p < n && outranks_exec(side, &order, &queue[p])
        invariant
            n == queue.len(),
            queue@ == old(queue)@,
            0 <= p <= n,
            forall|i: int| 0 <= i < p ==> outranks_on(side, order, #[trigger] queue@[i]),
        decreases n - p,
    {
        p += 1;
    }
    proof {
        lemma_slot(queue@, side, order, p as int);
        let before = queue@;
        let after = before.insert(p as int, order);
        assert forall|i: int, j: int| 0 <= i < j < after.len() implies !outranks_on(
            side,
            #[trigger] after[i],
            #[trigger] after[j],
        ) by {
            if j < p {
                assert(after[i] == before[i] && after[j] == before[j]);
            } else if j == p {
                assert(after[i] == before[i]);
                assert(outranks_on(side, order, before[i]));
            } else if i < p {
                assert(after[i] == before[i] && after[j] == before[j - 1]);
            } else if i == p {
                assert(after[j] == before[j - 1]);
                assert(!outranks_on(side, order, before[p as int]));
                if j - 1 > p {
                    assert(!outranks_on(side, before[p as int], before[j - 1]));
                }
            } else {
                assert(after[i] == before[i - 1] && after[j] == before[j - 1]);
            }
        }
        assert forall|i: int| 0 <= i < after.len() implies (#[trigger] after[i]).order_type == side
            && after[i].details.amount > 0 by {
            if i < p {
                assert(after[i] == before[i]);
            } else if i > p {
                assert(after[i] == before[i - 1]);
            }
        }
    }
    queue.insert(p, order);
}

/// Whether `a` precedes `b` on `side`.
fn outranks_exec(side: OrderType, a: &Order, b: &Order) -> (r: bool)
    ensures
        r == outranks_on(side, *a, *b),
{
    match (a.variant, b.variant) {
        (OrderVariant::Market, OrderVariant::Limit { .. }) => true,
        (OrderVariant::Limit { .. }, OrderVariant::Market) => false,
        (OrderVariant::Market, OrderVariant::Market) => a.details.time < b.details.time,
        (OrderVariant::Limit { price: pa }, OrderVariant::Limit { price: pb }) => {
            let better = match side {
                OrderType::Buy => pa.key > pb.key,
                OrderType::Sell => pa.key < pb.key,
            };
            better || (pa.key == pb.key && a.details.time < b.details.time)
        },
    }
}

/// Whether an order is still within its lifetime at `now`.
fn alive_exec(order: &Order, now: i64) -> (r: bool)
    ensures
        r == alive(*order, now),
{
    match order.details.lifetime_nanos {
        Some(lifetime) => {
            let expiry: i128 = lifetime as i128 + order.details.time as i128;
            expiry > now as i128
        },
        None => true,
    }
}

/// Removes from a queue the orders that are past their lifetime at `now`,
/// keeping the others in place.
fn sweep(queue: &mut Vec<Order>, side: OrderType, now: i64)
    requires
        sorted_on(side, old(queue)@),
        resting_on(side, old(queue)@),
    ensures
        final(queue)@ == swept(old(queue)@, now),
        sorted_on(side, final(queue)@),
        resting_on(side, final(queue)@),
{
    let ghost keep = |o: Order| alive(o, now);
    let n = queue.len();
    let mut kept: Vec<Order> = Vec::new();
    let mut i: usize = 0;
    proof {
        reveal(Seq::filter);
        assert(queue@.take(0) =~= Seq::<Order>::empty());
    }
    while i < n
        invariant
            n == queue.len(),
            queue@ == old(queue)@,
            0 <= i <= n,
            sorted_on(side, queue@),
            resting_on(side, queue@),
            keep == (|o: Order| alive(o, now)),
            kept@ == queue@.take(i as int).filter(keep),
            sorted_on(side, kept@),
            resting_on(side, kept@),
            forall|k: int, m: int|
                0 <= k < kept@.len() && i <= m < n ==> !outranks_on(
                    side,
                    #[trigger] kept@[k],
                    #[trigger] queue@[m],
                ),
        decreases n - i,
    {
        let order = queue[i];
        let ghost before = kept@;
        proof {
            reveal(Seq::filter);
            assert(queue@.take(i + 1).drop_last() =~= queue@.take(i as int));
            assert(queue@.take(i + 1).last() == order);
        }
        if alive_exec(&order, now) {
            kept.push(order);
            proof {
                assert forall|a: int, b: int| 0 <= a < b < kept@.len() implies !outranks_on(
                    side,
                    #[trigger] kept@[a],
                    #[trigger] kept@[b],
                ) by {
                    if b < before.len() {
                        assert(kept@[a] == before[a] && kept@[b] == before[b]);
                    } else {
                        assert(kept@[a] == before[a]);
                        assert(kept@[b] == queue@[i as int]);
                    }
                }
                assert forall|k: int, m: int|
                    0 <= k < kept@.len() && i + 1 <= m < n implies !outranks_on(
                    side,
                    #[trigger] kept@[k],
                    #[trigger] queue@[m],
                ) by {
                    if k < before.len() {
                        assert(kept@[k] == before[k]);
                    } else {
                        assert(kept@[k] == queue@[i as int]);
                    }
                }
                assert forall|k: int| 0 <= k < kept@.len() implies (#[trigger] kept@[k]).order_type
                    == side && kept@[k].details.amount > 0 by {
                    if k < before.len() {
                        assert(kept@[k] == before[k]);
                    } else {
                        assert(kept@[k] == queue@[i as int]);
                    }
                }
            }
        }
        i += 1;
    }
    proof {
        assert(queue@.take(n as int) =~= queue@);
    }
    *queue = kept;
}

/// Whether some order in the queue carries the id.
fn scan_for_id(queue: &Vec<Order>, id: u64) -> (found: bool)
    ensures
        found == holds_id(queue@, id),
{
    let n = queue.len();
    let mut i: usize = 0;
    while i < n
        invariant
            n == queue.len(),
            0 <= i <= n,
            forall|k: int| 0 <= k < i ==> (#[trigger] queue@[k]).id != Some(id),
        decreases n - i,
    {
        match queue[i].id {
            Some(found) => {
                if found == id {
                    return true;
                }
            },
            None => {},
        }
        i += 1;
    }
    false
}

/// The order book of one instrument.
pub struct OrderBook {
    /// The trades made and not yet drained, oldest first.
    pub transaction_record: Vec<Transaction>,
    /// The price of the last trade, 0.0 before the first.
    pub price: Price,
    /// The instrument this book is for.
    pub stock: Stock,
    /// The resting buy orders in ascending priority.
    pub bid: Vec<Order>,
    /// The resting sell orders in ascending priority.
    pub ask: Vec<Order>,
}

impl OrderBook {
    /// The resting buy orders in ascending priority: the last is matched
    /// first.
    pub open spec fn bids(&self) -> Seq<Order> {
        self.bid@
    }

    /// The resting sell orders in ascending priority: the last is matched
    /// first.
    pub open spec fn asks(&self) -> Seq<Order> {
        self.ask@
    }

    /// The instrument this book is for.
    pub open spec fn instrument(&self) -> Stock {
        self.stock
    }

    /// Both queues and the last traded price.
    pub open spec fn quotes(&self) -> Quotes {
        Quotes { bids: self.bids(), asks: self.asks(), price: self.price }
    }

    /// Both queues are sorted by priority, and every resting order is on
    /// its own side with quantity left.
    pub open spec fn wf(&self) -> bool {
        &&& sorted_on(OrderType::Buy, self.bids())
        &&& sorted_on(OrderType::Sell, self.asks())
        &&& resting_on(OrderType::Buy, self.bids())
        &&& resting_on(OrderType::Sell, self.asks())
    }

    /// An empty book that has never traded.
    pub fn new(stock: Stock) -> (book: OrderBook)
        ensures
            book.wf(),
            book.bids() == Seq::<Order>::empty(),
            book.asks() == Seq::<Order>::empty(),
            book.transaction_record@ == Seq::<Transaction>::empty(),
            book.price == (Price { key: crate::price::SIGN_BIT }),
            book.instrument() == stock,
    {
        OrderBook {
            transaction_record: Vec::new(),
            price: Price::zero(),
            stock,
            bid: Vec::new(),
            ask: Vec::new(),
        }
    }

    /// Rests an order on its side of the book, above the orders it precedes
    /// and below all others. Nothing is matched.
    pub fn process_order(&mut self, order: Order)
        requires
            old(self).wf(),
            order.details.amount > 0,
        ensures
            final(self).wf(),
            final(self).quotes() == rest_order(old(self).quotes(), order),
            order.order_type == OrderType::Buy ==> final(self).bids() == old(self).bids().insert(
                slot(old(self).bids(), OrderType::Buy, order),
                order,
            ) && final(self).asks() == old(self).asks(),
            order.order_type == OrderType::Sell ==> final(self).asks() == old(self).asks().insert(
                slot(old(self).asks(), OrderType::Sell, order),
                order,
            ) && final(self).bids() == old(self).bids(),
            final(self).price == old(self).price,
            final(self).transaction_record == old(self).transaction_record,
            final(self).instrument() == old(self).instrument(),
    {
        match order.order_type {
            OrderType::Buy => enqueue(&mut self.bid, OrderType::Buy, order),
            OrderType::Sell => enqueue(&mut self.ask, OrderType::Sell, order),
        }
    }

    /// Whether the two top orders exist and may trade.
    pub fn can_match(&self) -> (r: bool)
        ensures
            r == can_trade(self.quotes()),
    {
        let nb = self.bid.len();
        let na = self.ask.len();
        if nb == 0 || na == 0 {
            return false;
        }
        match (self.bid[nb - 1].variant, self.ask[na - 1].variant) {
            (OrderVariant::Limit { price: b }, OrderVariant::Limit { price: a }) => b.key >= a.key,
            _ => true,
        }
    }

    /// Trades the two top orders against each other at `now`, if they
    /// exist and may trade: the smaller remainder changes hands at the
    /// trade price, the order left with quantity stays on top of its queue,
    /// an exhausted one leaves, the price becomes the trade price and the
    /// trade is appended to the ledger. Otherwise nothing changes.
    pub fn match_top(&mut self, now: i64) -> (traded: bool)
        requires
            old(self).wf(),
        ensures
            final(self).wf(),
            traded == can_trade(old(self).quotes()),
            traded ==> final(self).quotes() == step(old(self).quotes()),
            traded ==> final(self).transaction_record@ == old(self).transaction_record@.push(
                stamped(step_fill(old(self).quotes()), now),
            ),
            !traded ==> final(self).quotes() == old(self).quotes(),
            !traded ==> final(self).transaction_record@ == old(self).transaction_record@,
            final(self).instrument() == old(self).instrument(),
    {
        if !self.can_match() {
            return false;
        }
        proof {
            lemma_step_keeps_order(self.quotes());
        }
        let nb = self.bid.len();
        let na = self.ask.len();
        let buy = self.bid[nb - 1];
        let sell = self.ask[na - 1];
        let price = match (buy.variant, sell.variant) {
            (OrderVariant::Limit { .. }, OrderVariant::Limit { price }) => price,
            (OrderVariant::Market, OrderVariant::Limit { price }) => price,
            (OrderVariant::Limit { price }, OrderVariant::Market) => price,
            (OrderVariant::Market, OrderVariant::Market) => self.price,
        };
        let volume = if buy.details.amount <= sell.details.amount {
            buy.details.amount
        } else {
            sell.details.amount
        };
        self.bid.pop();
        if buy.details.amount > volume {
            self.bid.push(
                Order {
                    id: buy.id,
                    order_type: buy.order_type,
                    variant: buy.variant,
                    details: OrderDetails {
                        time: buy.details.time,
                        stock: buy.details.stock,
                        amount: buy.details.amount - volume,
                        lifetime_nanos: buy.details.lifetime_nanos,
                    },
                },
            );
        }
        self.ask.pop();
        if sell.details.amount > volume {
            self.ask.push(
                Order {
                    id: sell.id,
                    order_type: sell.order_type,
                    variant: sell.variant,
                    details: OrderDetails {
                        time: sell.details.time,
                        stock: sell.details.stock,
                        amount: sell.details.amount - volume,
                        lifetime_nanos: sell.details.lifetime_nanos,
                    },
                },
            );
        }
        self.price = price;
        self.transaction_record.push(
            Transaction {
                transaction_id: None,
                buy_id: buy.id,
                sell_id: sell.id,
                price,
                volume,
                timestamp: now,
            },
        );
        proof {
            assert(self.bid@ =~= step(old(self).quotes()).bids);
            assert(self.ask@ =~= step(old(self).quotes()).asks);
        }
        true
    }

    /// A matching pass at the instant `at`, or, where none is given, with
    /// the clock read for each trade; the pass then ends early where the
    /// clock cannot be read. Returns the number of trades and whether the
    /// pass ran until the book no longer crossed.
    fn pass(&mut self, clock: &MTime, at: Option<i64>) -> (made: (usize, bool))
        requires
            old(self).wf(),
        ensures
            final(self).wf(),
            pass_of(
                old(self).quotes(),
                old(self).transaction_record@,
                final(self).quotes(),
                final(self).transaction_record@,
                made.0 as nat,
            ),
            made.1 ==> !can_trade(final(self).quotes()),
            !can_trade(old(self).quotes()) ==> made.1,
            at.is_some() ==> made.1 && forall|i: int|
                old(self).transaction_record@.len() <= i < final(self).transaction_record@.len()
                    ==> (#[trigger] final(self).transaction_record@[i]).timestamp == at.unwrap(),
            final(self).instrument() == old(self).instrument(),
    {
        let ghost start = self.quotes();
        let ghost ledger = self.transaction_record@;
        let mut trades: usize = 0;
        proof {
            assert(self.transaction_record@.take(ledger.len() as int) =~= ledger);
        }
        while self.can_match()
            invariant
                self.wf(),
                start == old(self).quotes(),
                ledger == old(self).transaction_record@,
                self.quotes() == settle(start, trades as nat),
                forall|k: nat| k < trades ==> can_trade(#[trigger] settle(start, k)),
                trades + self.bids().len() + self.asks().len() <= start.bids.len()
                    + start.asks.len(),
                self.transaction_record@.len() == ledger.len() + trades,
                self.transaction_record@.take(ledger.len() as int) == ledger,
                settle_fills(start, trades as nat).len() == trades,
                forall|i: int|
                    0 <= i < trades ==> (#[trigger] self.transaction_record@[ledger.len()
                        + i]).fill() == settle_fills(start, trades as nat)[i]
                        && self.transaction_record@[ledger.len() + i].transaction_id.is_none(),
                at.is_some() ==> forall|i: int|
                    ledger.len() <= i < self.transaction_record@.len()
                        ==> (#[trigger] self.transaction_record@[i]).timestamp == at.unwrap(),
                self.instrument() == old(self).instrument(),
            decreases self.bids().len() + self.asks().len(),
        {
            let now = match at {
                Some(now) => now,
                None => match clock.now() {
                    Some(now) => now,
                    None => {
                        proof {
                            if trades > 0 {
                                assert(can_trade(settle(start, 0)));
                            }
                        }
                        return (trades, false);
                    },
                },
            };
            let ghost before = self.quotes();
            let ghost record = self.transaction_record@;
            proof {
                lemma_step_shrinks(before);
            }
            self.match_top(now);
            let grown = self.transaction_record.len();
            proof {
                let after = self.transaction_record@;
                assert(grown == ledger.len() + trades + 1);
                assert(after.take(ledger.len() as int) =~= record.take(ledger.len() as int));
                assert(settle_fills(start, (trades + 1) as nat) == settle_fills(
                    start,
                    trades as nat,
                ).push(step_fill(before)));
                assert forall|i: int| 0 <= i < trades + 1 implies (#[trigger] after[ledger.len()
                    + i]).fill() == settle_fills(start, (trades + 1) as nat)[i] && after[ledger.len()
                    + i].transaction_id.is_none() by {
                    if i < trades {
                        assert(after[ledger.len() + i] == record[ledger.len() + i]);
                    }
                }
                if at.is_some() {
                    assert forall|i: int| ledger.len() <= i < after.len() implies (
                    #[trigger] after[i]).timestamp == at.unwrap() by {
                        if i < record.len() {
                            assert(after[i] == record[i]);
                        }
                    }
                }
            }
            trades += 1;
        }
        (trades, true)
    }

    /// One matching pass: trades the top orders against each other until
    /// one queue is empty or the top bid is below the top ask, reading the
    /// clock for each trade. The pass also ends where the clock cannot be
    /// read. Returns the number of trades made and whether the pass ran to
    /// its end, which it does for certain where the book does not cross.
    pub fn match_pass(&mut self, clock: &MTime) -> (made: (usize, bool))
        requires
            old(self).wf(),
        ensures
            final(self).wf(),
            pass_of(
                old(self).quotes(),
                old(self).transaction_record@,
                final(self).quotes(),
                final(self).transaction_record@,
                made.0 as nat,
            ),
            made.1 ==> !can_trade(final(self).quotes()),
            !can_trade(old(self).quotes()) ==> made.1 && made.0 == 0,
            final(self).instrument() == old(self).instrument(),
    {
        let made = self.pass(clock, None);
        proof {
            if made.0 > 0 {
                assert(can_trade(settle(old(self).quotes(), 0)));
            }
        }
        made
    }

    /// One matching pass: trades the top orders against each other until
    /// one queue is empty or the top bid is below the top ask, reading the
    /// clock for each trade. The pass also ends where the clock cannot be
    /// read. Returns the number of trades made.
    pub fn find_trade(&mut self, clock: &MTime) -> (trades: usize)
        requires
            old(self).wf(),
        ensures
            final(self).wf(),
            pass_of(
                old(self).quotes(),
                old(self).transaction_record@,
                final(self).quotes(),
                final(self).transaction_record@,
                trades as nat,
            ),
            final(self).instrument() == old(self).instrument(),
    {
        self.match_pass(clock).0
    }

    /// One matching pass at the instant `now`: trades the top orders
    /// against each other until one queue is empty or the top bid is below
    /// the top ask, and stamps every trade with `now`. Returns the number
    /// of trades made.
    pub fn find_trade_at(&mut self, now: i64) -> (trades: usize)
        requires
            old(self).wf(),
        ensures
            final(self).wf(),
            pass_of(
                old(self).quotes(),
                old(self).transaction_record@,
                final(self).quotes(),
                final(self).transaction_record@,
                trades as nat,
            ),
            !can_trade(final(self).quotes()),
            forall|i: int|
                old(self).transaction_record@.len() <= i < final(self).transaction_record@.len()
                    ==> (#[trigger] final(self).transaction_record@[i]).timestamp == now,
            final(self).instrument() == old(self).instrument(),
    {
        let clock = MTime::new(0);
        self.pass(&clock, Some(now)).0
    }

    /// Removes from both queues the orders whose lifetime has run out at
    /// `now`. Orders without a lifetime stay, and so does the order of the
    /// others.
    pub fn clean_book_at(&mut self, now: i64)
        requires
            old(self).wf(),
        ensures
            final(self).wf(),
            final(self).quotes() == swept_quotes(old(self).quotes(), now),
            final(self).bids() == swept(old(self).bids(), now),
            final(self).asks() == swept(old(self).asks(), now),
            final(self).price == old(self).price,
            final(self).transaction_record == old(self).transaction_record,
            final(self).instrument() == old(self).instrument(),
    {
        sweep(&mut self.bid, OrderType::Buy, now);
        sweep(&mut self.ask, OrderType::Sell, now);
    }

    /// Removes the orders whose lifetime has run out at the market time
    /// that the clock gives now. Where the clock cannot be read nothing is
    /// removed, and the result is `false`.
    pub fn clean_book(&mut self, clock: &MTime) -> (done: bool)
        requires
            old(self).wf(),
        ensures
            final(self).wf(),
            done ==> exists|now: i64|
                final(self).quotes() == #[trigger] swept_quotes(old(self).quotes(), now),
            !done ==> final(self).bids() == old(self).bids() && final(self).asks() == old(
                self,
            ).asks(),
            spared(old(self).bids(), final(self).bids()),
            spared(old(self).asks(), final(self).asks()),
            final(self).price == old(self).price,
            final(self).transaction_record == old(self).transaction_record,
            final(self).instrument() == old(self).instrument(),
    {
        match clock.now() {
            Some(now) => {
                self.clean_book_at(now);
                proof {
                    lemma_sweep_spares(old(self).bids(), now);
                    lemma_sweep_spares(old(self).asks(), now);
                }
                true
            },
            None => {
                proof {
                    lemma_untouched_is_spared(self.bids());
                    lemma_untouched_is_spared(self.asks());
                }
                false
            },
        }
    }

    /// Whether a resting sell order carries the id.
    pub fn is_pending_ask(&self, id: u64) -> (pending: bool)
        ensures
            pending == holds_id(self.asks(), id),
    {
        scan_for_id(&self.ask, id)
    }

    /// Whether a resting buy order carries the id.
    pub fn is_pending_bid(&self, id: u64) -> (pending: bool)
        ensures
            pending == holds_id(self.bids(), id),
    {
        scan_for_id(&self.bid, id)
    }

    /// The resting buy orders in ascending priority.
    pub fn get_bids_for_testing(&self) -> (queue: &Vec<Order>)
        ensures
            queue@ == self.bids(),
    {
        &self.bid
    }

    /// The resting sell orders in ascending priority.
    pub fn get_asks_for_testing(&self) -> (queue: &Vec<Order>)
        ensures
            queue@ == self.asks(),
    {
        &self.ask
    }

    /// The buy order that is matched next, if any rests.
    pub fn peek_bid(&self) -> (top: Option<Order>)
        ensures
            top == if self.bids().len() > 0 {
                Some(self.bids().last())
            } else {
                None
            },
    {
        let n = self.bid.len();
        if n > 0 {
            Some(self.bid[n - 1])
        } else {
            None
        }
    }

    /// The sell order that is matched next, if any rests.
    pub fn peek_ask(&self) -> (top: Option<Order>)
        ensures
            top == if self.asks().len() > 0 {
                Some(self.asks().last())
            } else {
                None
            },
    {
        let n = self.ask.len();
        if n > 0 {
            Some(self.ask[n - 1])
        } else {
            None
        }
    }

    /// The instrument this book is for.
    pub fn stock(&self) -> (stock: Stock)
        ensures
            stock == self.instrument(),
    {
        self.stock
    }
}

/// A sweep keeps every order that is within its lifetime, and so every
/// order without one.
pub proof fn lemma_sweep_keeps_the_living(queue: Seq<Order>, now: i64, i: int)
    requires
        0 <= i < queue.len(),
        alive(queue[i], now),
    ensures
        swept(queue, now).contains(queue[i]),
        queue[i].details.lifetime_nanos.is_none() ==> alive(queue[i], now),
{
    queue.lemma_filter_contains(|o: Order| alive(o, now), i);
}

/// A sweep leaves only orders that rested before and are within their
/// lifetime: what it removes is past expiry.
pub proof fn lemma_sweep_removes_only_expired(queue: Seq<Order>, now: i64, order: Order)
    requires
        swept(queue, now).contains(order),
    ensures
        queue.contains(order),
        alive(order, now),
{
    let keep = |o: Order| alive(o, now);
    queue.lemma_filter_contains_rev(keep, order);
    let i = choose|i: int| 0 <= i < queue.filter(keep).len() && queue.filter(keep)[i] == order;
    queue.lemma_filter_pred(keep, i);
}

/// Where the top bid is below the top ask, no bid anywhere in a
/// well-ordered book reaches any ask: a pass that stops at the top pair
/// leaves no pair behind that could trade.
pub proof fn lemma_no_deeper_cross(q: Quotes, b: int, a: int)
    requires
        sorted_on(OrderType::Buy, q.bids),
        sorted_on(OrderType::Sell, q.asks),
        q.bids.len() > 0,
        q.asks.len() > 0,
        !crosses(q.bids.last(), q.asks.last()),
        0 <= b < q.bids.len(),
        0 <= a < q.asks.len(),
    ensures
        !crosses(q.bids[b], q.asks[a]),
{
    lemma_top_is_first(OrderType::Buy, q.bids, b);
    lemma_top_is_first(OrderType::Sell, q.asks, a);
}

/// The quantity that rests in a queue.
pub open spec fn resting_amount(queue: Seq<Order>) -> int
    decreases queue.len(),
{
    if queue.len() == 0 {
        0
    } else {
        resting_amount(queue.drop_last()) + queue.last().details.amount
    }
}

/// A trade takes its volume off each side and nothing more: what rests on
/// a side afterwards is what rested before less the volume traded, whether
/// the top order was filled in part or in full.
pub proof fn lemma_step_accounting(q: Quotes)
    requires
        can_trade(q),
    ensures
        resting_amount(step(q).bids) == resting_amount(q.bids) - step_fill(q).volume,
        resting_amount(step(q).asks) == resting_amount(q.asks) - step_fill(q).volume,
        step_fill(q).volume <= q.bids.last().details.amount,
        step_fill(q).volume <= q.asks.last().details.amount,
{
    let volume = trade_volume(q.bids.last(), q.asks.last());
    lemma_after_fill_accounting(q.bids, volume);
    lemma_after_fill_accounting(q.asks, volume);
}

/// Filling the top order of a queue takes the volume off what rests in it.
pub proof fn lemma_after_fill_accounting(queue: Seq<Order>, volume: u64)
    requires
        queue.len() > 0,
        volume <= queue.last().details.amount,
    ensures
        resting_amount(after_fill(queue, volume)) == resting_amount(queue) - volume,
{
    if queue.last().details.amount > volume {
        let after = queue.drop_last().push(reduced(queue.last(), volume));
        assert(after.drop_last() =~= queue.drop_last());
        assert(after.last() == reduced(queue.last(), volume));
    }
}

/// A sweep at any instant spares every order without a lifetime and brings
/// no order into the queue.
pub proof fn lemma_sweep_spares(queue: Seq<Order>, now: i64)
    ensures
        spared(queue, swept(queue, now)),
{
    assert forall|i: int|
        0 <= i < queue.len() && (#[trigger] queue[i]).details.lifetime_nanos.is_none() implies swept(
        queue,
        now,
    ).contains(queue[i]) by {
        lemma_sweep_keeps_the_living(queue, now, i);
    }
    assert forall|order: Order| #[trigger] swept(queue, now).contains(order) implies queue.contains(
        order,
    ) by {
        lemma_sweep_removes_only_expired(queue, now, order);
    }
}

/// A queue that was left alone has spared all its orders.
pub proof fn lemma_untouched_is_spared(queue: Seq<Order>)
    ensures
        spared(queue, queue),
{
    assert forall|i: int| 0 <= i < queue.len() implies queue.contains(#[trigger] queue[i]) by {
        assert(queue[i] == queue[i]);
    }
}

/// The queue of one side.
pub open spec fn side_of(q: Quotes, side: OrderType) -> Seq<Order> {
    match side {
        OrderType::Buy => q.bids,
        OrderType::Sell => q.asks,
    }
}

/// Trades touch the top orders alone: after any number of trades each queue
/// is no longer than before, and every order below its top is the order
/// that was there, untouched.
pub proof fn lemma_settle_below_top(q: Quotes, n: nat, side: OrderType)
    ensures
        side_of(settle(q, n), side).len() <= side_of(q, side).len(),
        forall|i: int|
            0 <= i < side_of(settle(q, n), side).len() - 1 ==> #[trigger] side_of(
                settle(q, n),
                side,
            )[i] == side_of(q, side)[i],
    decreases n,
{
    if n > 0 {
        let before = settle(q, (n - 1) as nat);
        lemma_settle_below_top(q, (n - 1) as nat, side);
        if can_trade(before) {
            let after = step(before);
            assert forall|i: int| 0 <= i < side_of(after, side).len() - 1 implies #[trigger] side_of(
                after,
                side,
            )[i] == side_of(q, side)[i] by {
                assert(side_of(after, side)[i] == side_of(before, side)[i]);
                assert(side_of(before, side)[i] == side_of(q, side)[i]);
            }
        }
    }
}

/// Each trade of a pass settles the two orders that are on top when it is
/// made: it carries their ids.
pub proof fn lemma_fills_are_of_tops(q: Quotes, n: nat, k: nat)
    requires
        k < n,
        forall|j: nat| j < n ==> can_trade(#[trigger] settle(q, j)),
    ensures
        settle_fills(q, n).len() == n,
        settle_fills(q, n)[k as int] == step_fill(settle(q, k)),
        settle_fills(q, n)[k as int].buy_id == settle(q, k).bids.last().id,
        settle_fills(q, n)[k as int].sell_id == settle(q, k).asks.last().id,
    decreases n,
{
    let before = settle(q, (n - 1) as nat);
    assert(can_trade(before));
    if n > 1 {
        lemma_fills_are_of_tops(q, (n - 1) as nat, if k < n - 1 { k } else { 0 });
    }
    assert(settle_fills(q, n) == settle_fills(q, (n - 1) as nat).push(step_fill(before)));
}

/// Time priority in a pass: of two limit orders at one price on one side
/// the earlier lies nearer the top, and for as long as it has not left the
/// book the later one rests as it was, however many trades are made. A pass
/// fills the top order alone, so it fills such orders in the order of their
/// submission.
pub proof fn lemma_time_priority_in_pass(q: Quotes, n: nat, side: OrderType, e: int, l: int)
    requires
        sorted_on(side, side_of(q, side)),
        0 <= e < side_of(q, side).len(),
        0 <= l < side_of(q, side).len(),
        side_of(q, side)[e].variant != OrderVariant::Market,
        side_of(q, side)[e].variant == side_of(q, side)[l].variant,
        side_of(q, side)[e].details.time < side_of(q, side)[l].details.time,
    ensures
        l < e,
        side_of(settle(q, n), side).len() > e ==> side_of(settle(q, n), side)[l] == side_of(
            q,
            side,
        )[l],
{
    lemma_earlier_above_later(side, side_of(q, side), e, l);
    lemma_settle_below_top(q, n, side);
}

} // verus!
