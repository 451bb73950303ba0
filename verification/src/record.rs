//! What the market keeps for one instrument: its order book, its bars and
//! the window of recent trades.

use crate::book::holds_id;
use crate::book::OrderBook;
use crate::book::Quotes;
use crate::history::chronological;
use crate::history::compressed;
use crate::history::ingested;
use crate::history::second_of;
use crate::history::HistoryBuffer;
use crate::history::Levels;
use crate::history::ObStat;
use crate::order::OrderType;
use crate::order::Stock;
use crate::price::Price;
use crate::price::SIGN_BIT;
use crate::recent::recent_contents;
use crate::recent::recent_new;
use crate::recent::recent_push;
use crate::recent::recent_to_vec;
use crate::recent::ring_extend;
use crate::recent::RECENT_CAPACITY;
use crate::time::MTime;
use crate::transaction::Transaction;
use circular_buffer::CircularBuffer;
use vstd::prelude::*;

verus! {

/// Book, bars and recent trades of one instrument.
pub struct StockRecord {
    pub order_book: OrderBook,
    pub history: HistoryBuffer,
    pub recent_transactions: CircularBuffer<100, Transaction>,
}

/// A record as plain values: the queues and the last price, the ledger, the
/// instrument, the bars and the recent trades.
pub struct RecordView {
    pub quotes: Quotes,
    pub ledger: Seq<Transaction>,
    pub stock: Stock,
    pub bars: Levels,
    pub recent: Seq<Transaction>,
}

/// Whether a trade carries the id of one of its orders.
pub open spec fn carries_id(trade: Transaction) -> bool {
    trade.buy_id.is_some() || trade.sell_id.is_some()
}

/// Whether a trade filled the order with this id on this side.
pub open spec fn fills_order(trade: Transaction, id: u64, side: OrderType) -> bool {
    match side {
        OrderType::Buy => trade.buy_id == Some(id),
        OrderType::Sell => trade.sell_id == Some(id),
    }
}

/// The prices at which the recent trades filled an order, oldest first.
pub open spec fn fill_prices(recent: Seq<Transaction>, id: u64, side: OrderType) -> Seq<Price> {
    recent.filter(|t: Transaction| fills_order(t, id, side)).map_values(|t: Transaction| t.price)
}

/// How many trades lie before the first one that falls in the second.
pub open spec fn first_in_second(ledger: Seq<Transaction>, second: u64) -> int
    decreases ledger.len(),
{
    if ledger.len() == 0 || second_of(ledger.first()) == second {
        0
    } else {
        1 + first_in_second(ledger.drop_first(), second)
    }
}

/// How many trades at the head of a ledger belong to seconds that are
/// over: those before the first trade that falls in the second of the last
/// trade. That second may still get trades, so its trades stay.
pub open spec fn whole_seconds(ledger: Seq<Transaction>) -> int {
    if ledger.len() == 0 {
        0
    } else {
        first_in_second(ledger, second_of(ledger.last()))
    }
}

/// A record after a report: the trades of the whole seconds have left the
/// ledger, those of them that carry an id have entered the window of recent
/// trades, all of them are ingested into the bars, and the bars are
/// compressed.
pub open spec fn reported(v: RecordView) -> RecordView {
    RecordView {
        recent: ring_extend(
            v.recent,
            v.ledger.take(whole_seconds(v.ledger)).filter(|t: Transaction| carries_id(t)),
        ),
        ledger: v.ledger.skip(whole_seconds(v.ledger)),
        bars: compressed(ingested(v.bars, v.ledger.take(whole_seconds(v.ledger)))),
        ..v
    }
}

/// The record of an instrument that was just listed.
pub open spec fn fresh_record(stock: Stock) -> RecordView {
    RecordView {
        quotes: Quotes {
            bids: Seq::empty(),
            asks: Seq::empty(),
            price: Price { key: SIGN_BIT },
        },
        ledger: Seq::empty(),
        stock,
        bars: Levels {
            live: seq![Seq::empty(), Seq::empty(), Seq::empty(), Seq::empty()],
            historic: seq![Seq::empty(), Seq::empty(), Seq::empty(), Seq::empty()],
        },
        recent: Seq::empty(),
    }
}

/// The position that `first_in_second` gives is the one before which no
/// trade falls in the second and at which the trade does.
pub proof fn lemma_first_in_second(ledger: Seq<Transaction>, second: u64, p: int)
    requires
        0 <= p <= ledger.len(),
        forall|i: int| 0 <= i < p ==> second_of(#[trigger] ledger[i]) != second,
        p < ledger.len() ==> second_of(ledger[p]) == second,
    ensures
        first_in_second(ledger, second) == p,
    decreases p,
{
    if p > 0 {
        let rest = ledger.drop_first();
        assert forall|i: int| 0 <= i < p - 1 implies second_of(#[trigger] rest[i]) != second by {
            assert(rest[i] == ledger[i + 1]);
        }
        if p - 1 < rest.len() {
            assert(rest[p - 1] == ledger[p]);
        }
        lemma_first_in_second(rest, second, p - 1);
    }
}

/// `first_in_second` gives a position in the ledger, no trade before it
/// falls in the second, and the trade at it, if any, does.
pub proof fn lemma_first_in_second_bounds(ledger: Seq<Transaction>, second: u64)
    ensures
        0 <= first_in_second(ledger, second) <= ledger.len(),
        forall|i: int|
            0 <= i < first_in_second(ledger, second) ==> second_of(#[trigger] ledger[i]) != second,
        first_in_second(ledger, second) < ledger.len() ==> second_of(
            ledger[first_in_second(ledger, second)],
        ) == second,
    decreases ledger.len(),
{
    if ledger.len() > 0 && second_of(ledger.first()) != second {
        let rest = ledger.drop_first();
        lemma_first_in_second_bounds(rest, second);
        let p = first_in_second(rest, second);
        assert forall|i: int| 0 <= i < p + 1 implies second_of(#[trigger] ledger[i]) != second by {
            if i > 0 {
                assert(ledger[i] == rest[i - 1]);
            }
        }
        if p < rest.len() {
            assert(rest[p] == ledger[p + 1]);
        }
    }
}

/// In a ledger in the order of time the drain parts the trades by their
/// second: what leaves are the trades of the seconds before that of the
/// last trade, and what stays are the trades of that second. No trade is
/// lost and none is taken twice.
pub proof fn lemma_drain_parts_by_second(ledger: Seq<Transaction>)
    requires
        chronological(ledger),
        ledger.len() > 0,
    ensures
        0 <= whole_seconds(ledger) < ledger.len(),
        forall|i: int|
            0 <= i < whole_seconds(ledger) ==> second_of(#[trigger] ledger[i]) < second_of(
                ledger.last(),
            ),
        forall|i: int|
            whole_seconds(ledger) <= i < ledger.len() ==> second_of(#[trigger] ledger[i])
                == second_of(ledger.last()),
        ledger.take(whole_seconds(ledger)) + ledger.skip(whole_seconds(ledger)) == ledger,
{
    let second = second_of(ledger.last());
    let p = whole_seconds(ledger);
    let n = ledger.len() - 1;
    lemma_first_in_second_bounds(ledger, second);
    assert(p <= n) by {
        if p > n {
            assert(second_of(ledger[n]) != second);
        }
    }
    assert forall|i: int| 0 <= i < p implies second_of(#[trigger] ledger[i]) < second by {
        assert(ledger[i].timestamp <= ledger[n].timestamp);
        assert(ledger[i].timestamp >= 0);
    }
    assert forall|i: int| p <= i < ledger.len() implies second_of(#[trigger] ledger[i])
        == second by {
        assert(ledger[p].timestamp >= 0);
        if p < i {
            assert(ledger[p].timestamp <= ledger[i].timestamp);
        }
        if i < n {
            assert(ledger[i].timestamp <= ledger[n].timestamp);
        }
    }
    assert(ledger.take(p) + ledger.skip(p) =~= ledger);
}

/// Takes off the head of a ledger the trades of the seconds that are over
/// and returns them in order: all trades before the first one that falls
/// in the second of the last trade. An empty ledger gives none, and the
/// last trade always stays.
pub fn drain_whole_seconds(ledger: &mut Vec<Transaction>) -> (drained: Vec<Transaction>)
    ensures
        drained@ == old(ledger)@.take(whole_seconds(old(ledger)@)),
        final(ledger)@ == old(ledger)@.skip(whole_seconds(old(ledger)@)),
        0 <= whole_seconds(old(ledger)@) <= old(ledger)@.len(),
        old(ledger)@.len() > 0 ==> whole_seconds(old(ledger)@) < old(ledger)@.len(),
{
    let n = ledger.len();
    if n == 0 {
        proof {
            assert(ledger@.take(0) =~= ledger@);
            assert(ledger@.skip(0) =~= ledger@);
        }
        return Vec::new();
    }
    let open = MTime::which_second(ledger[n - 1].timestamp);
    let mut index: usize = 0;
    while index < n && MTime::which_second(ledger[index].timestamp) != open
        invariant
            n == ledger.len(),
            ledger@ == old(ledger)@,
            0 <= index <= n,
            open == second_of(ledger@[n - 1]),
            forall|k: int| 0 <= k < index ==> second_of(#[trigger] ledger@[k]) != open,
        decreases n - index,
    {
        index += 1;
    }
    proof {
        lemma_first_in_second(ledger@, open, index as int);
    }
    let mut drained = ledger.split_off(index);
    std::mem::swap(ledger, &mut drained);
    proof {
        assert(drained@ =~= old(ledger)@.take(index as int));
        assert(ledger@ =~= old(ledger)@.skip(index as int));
    }
    drained
}

impl View for StockRecord {
    type V = RecordView;

    open spec fn view(&self) -> RecordView {
        RecordView {
            quotes: self.order_book.quotes(),
            ledger: self.order_book.transaction_record@,
            stock: self.order_book.stock,
            bars: self.history@,
            recent: recent_contents(self.recent_transactions),
        }
    }
}

impl StockRecord {
    /// The book is well formed, the history has its four levels, and the
    /// window holds no more than its capacity.
    pub open spec fn wf(&self) -> bool {
        &&& self.order_book.wf()
        &&& self.history.wf()
        &&& recent_contents(self.recent_transactions).len() <= RECENT_CAPACITY
    }

    /// The record of an instrument that was just listed: nothing rests,
    /// nothing has traded.
    pub fn new(stock: Stock) -> (record: StockRecord)
        ensures
            record.wf(),
            record@ == fresh_record(stock),
    {
        let record = StockRecord {
            order_book: OrderBook::new(stock),
            history: HistoryBuffer::new(),
            recent_transactions: recent_new(),
        };
        proof {
            assert(record@.bars.live =~= fresh_record(stock).bars.live) by {
                assert forall|level: int| 0 <= level < 4 implies record@.bars.live[level]
                    == Seq::<ObStat>::empty() by {
                    assert(record@.bars.live[level] == record.history.live(level));
                }
            }
            assert(record@.bars.historic =~= fresh_record(stock).bars.historic) by {
                assert forall|level: int| 0 <= level < 4 implies record@.bars.historic[level]
                    == Seq::<ObStat>::empty() by {
                    assert(record@.bars.historic[level] == record.history.historic(level));
                }
            }
        }
        record
    }

    /// Reports the trades of the seconds that are over: they leave the
    /// ledger, those that carry an order id enter the window of recent
    /// trades, oldest first, all are ingested into the bars, and the bars
    /// are compressed. Returns the trades that left the ledger.
    pub fn report_transactions(&mut self) -> (drained: Vec<Transaction>)
        requires
            old(self).wf(),
        ensures
            final(self).wf(),
            final(self)@ == reported(old(self)@),
            drained@ == old(self)@.ledger.take(whole_seconds(old(self)@.ledger)),
    {
        let drained = drain_whole_seconds(&mut self.order_book.transaction_record);
        self.remember(&drained);
        self.history.process_transactions(&drained);
        self.history.compress();
        drained
    }

    /// Pushes the trades that carry an order id into the window of recent
    /// trades, oldest first.
    fn remember(&mut self, trades: &Vec<Transaction>)
        requires
            recent_contents(old(self).recent_transactions).len() <= RECENT_CAPACITY,
        ensures
            recent_contents(final(self).recent_transactions) == ring_extend(
                recent_contents(old(self).recent_transactions),
                trades@.filter(|t: Transaction| carries_id(t)),
            ),
            recent_contents(final(self).recent_transactions).len() <= RECENT_CAPACITY,
            final(self).order_book == old(self).order_book,
            final(self).history == old(self).history,
    {
        let ghost tagged = |t: Transaction| carries_id(t);
        let n = trades.len();
        let mut i: usize = 0;
        proof {
            reveal(Seq::filter);
            assert(trades@.take(0) =~= Seq::<Transaction>::empty());
        }
        while i < n
            invariant
                n == trades.len(),
                0 <= i <= n,
                self.order_book == old(self).order_book,
                self.history == old(self).history,
                tagged == (|t: Transaction| carries_id(t)),
                recent_contents(self.recent_transactions).len() <= RECENT_CAPACITY,
                recent_contents(self.recent_transactions) == ring_extend(
                    recent_contents(old(self).recent_transactions),
                    trades@.take(i as int).filter(tagged),
                ),
            decreases n - i,
        {
            let trade = trades[i];
            proof {
                reveal(Seq::filter);
                assert(trades@.take(i + 1).drop_last() =~= trades@.take(i as int));
                assert(trades@.take(i + 1).last() == trade);
            }
            if trade.buy_id.is_some() || trade.sell_id.is_some() {
                proof {
                    let kept = trades@.take(i as int).filter(tagged);
                    assert(kept.push(trade).drop_last() =~= kept);
                }
                recent_push(&mut self.recent_transactions, trade);
            }
            i += 1;
        }
        proof {
            assert(trades@.take(n as int) =~= trades@);
        }
    }

    /// The prices at which the recent trades filled the order with this id
    /// on this side, oldest first.
    pub fn search_transaction_buffer(&self, id: u64, order_type: OrderType) -> (prices: Vec<Price>)
        ensures
            prices@ == fill_prices(self@.recent, id, order_type),
    {
        let ghost wanted = |t: Transaction| fills_order(t, id, order_type);
        let ghost price_of = |t: Transaction| t.price;
        let held = recent_to_vec(&self.recent_transactions);
        let n = held.len();
        let mut prices: Vec<Price> = Vec::new();
        let mut i: usize = 0;
        proof {
            reveal(Seq::filter);
            assert(held@.take(0) =~= Seq::<Transaction>::empty());
            assert(held@.take(0).filter(wanted).map_values(price_of) =~= Seq::<Price>::empty());
        }
        while i < n
            invariant
                n == held.len(),
                0 <= i <= n,
                wanted == (|t: Transaction| fills_order(t, id, order_type)),
                price_of == (|t: Transaction| t.price),
                prices@ == held@.take(i as int).filter(wanted).map_values(price_of),
            decreases n - i,
        {
            let trade = held[i];
            proof {
                reveal(Seq::filter);
                assert(held@.take(i + 1).drop_last() =~= held@.take(i as int));
                assert(held@.take(i + 1).last() == trade);
            }
            let hit = match order_type {
                OrderType::Buy => match trade.buy_id {
                    Some(found) => found == id,
                    None => false,
                },
                OrderType::Sell => match trade.sell_id {
                    Some(found) => found == id,
                    None => false,
                },
            };
            if hit {
                proof {
                    let kept = held@.take(i as int).filter(wanted);
                    assert(kept.push(trade).map_values(price_of) =~= kept.map_values(
                        price_of,
                    ).push(trade.price));
                }
                prices.push(trade.price);
            }
            i += 1;
        }
        proof {
            assert(held@.take(n as int) =~= held@);
        }
        prices
    }

    /// Whether an order with this id rests on this side of the book.
    pub fn search_orderbook(&self, id: u64, order_type: OrderType) -> (resting: bool)
        ensures
            resting == match order_type {
                OrderType::Buy => holds_id(self@.quotes.bids, id),
                OrderType::Sell => holds_id(self@.quotes.asks, id),
            },
    {
        match order_type {
            OrderType::Buy => self.order_book.is_pending_bid(id),
            OrderType::Sell => self.order_book.is_pending_ask(id),
        }
    }
}

} // verus!
