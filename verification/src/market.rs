//! The market: the registry of listed instruments and the operations on
//! them.
//!
//! Every operation names its instrument. An instrument that was never
//! listed is answered with `MarketError::LookupFailure` and nothing changes.
//! Operations that stamp what they do with market time come in two forms:
//! one that is given the instant, and one that reads the market's clock and
//! changes nothing where the clock cannot be read.

use crate::book::can_trade;
use crate::book::pass_of;
use crate::book::holds_id;
use crate::book::rest_order;
use crate::book::swept_quotes;
use crate::globals::granularity_index;
use crate::globals::spec_granularity_index;
use crate::globals::GRANULARITY;
use crate::history::ingested;
use crate::history::ObStat;
use crate::order::Order;
use crate::order::OrderDetails;
use crate::order::OrderType;
use crate::order::OrderVariant;
use crate::order::Stock;
use crate::price::Price;
use crate::record::drain_whole_seconds;
use crate::record::fill_prices;
use crate::record::fresh_record;
use crate::record::reported;
use crate::record::whole_seconds;
use crate::record::RecordView;
use crate::record::StockRecord;
use crate::registry::registry_contents;
use crate::registry::registry_get;
use crate::registry::registry_get_mut;
use crate::registry::registry_insert;
use crate::registry::registry_new;
use crate::registry::Registry;
use crate::time::MTime;
use crate::transaction::Transaction;
use vstd::prelude::*;

verus! {

/// Why an operation could not be carried out.
#[derive(Clone, Copy, Debug, PartialEq, Eq)]
pub enum MarketError {
    /// The instrument was never listed.
    LookupFailure,
    /// The clock could not be read as market time.
    ClockUnavailable,
}

/// What is known of an order from the recent trades and the book.
#[derive(Debug, PartialEq, Eq)]
pub enum OrderStatus {
    /// Nothing has filled yet and the order rests.
    Pending,
    /// Part has filled and the rest of the order rests.
    PartiallyFilled,
    /// The order has filled and left the book; `prices` are the prices of
    /// its fills, oldest first.
    Executed { prices: Vec<Price> },
    /// No fill is among the recent trades and nothing rests.
    Unknown,
}

/// The registry of listed instruments and the market's clock.
pub struct Market {
    pub clock: MTime,
    pub stock_book: Registry,
}

/// How many bars a history query gives at most when it is asked for more
/// than there are.
pub const HISTORY_WINDOW: usize = 14;

/// The order that a submission at `now` creates: a limit order where a
/// price is given, a market order where none is.
pub open spec fn new_order(
    stock: Stock,
    amount: u64,
    order_type: OrderType,
    price: Option<Price>,
    lifetime: Option<i64>,
    id: Option<u64>,
    now: i64,
) -> Order {
    Order {
        id,
        order_type,
        variant: match price {
            Some(p) => OrderVariant::Limit { price: p },
            None => OrderVariant::Market,
        },
        details: OrderDetails { time: now, stock, amount, lifetime_nanos: lifetime },
    }
}

/// A record after an order came to rest in its book.
pub open spec fn placed(v: RecordView, order: Order) -> RecordView {
    RecordView { quotes: rest_order(v.quotes, order), ..v }
}

/// A record after its book was swept at `now`.
pub open spec fn cleaned(v: RecordView, now: i64) -> RecordView {
    RecordView { quotes: swept_quotes(v.quotes, now), ..v }
}

/// Whether `after` is `before` after `trades` trades of a matching pass:
/// queues, price and ledger are those of the pass, and the rest of the
/// record is as it was.
pub open spec fn matched(before: RecordView, after: RecordView, trades: nat) -> bool {
    &&& pass_of(before.quotes, before.ledger, after.quotes, after.ledger, trades)
    &&& after.stock == before.stock
    &&& after.bars == before.bars
    &&& after.recent == before.recent
}

/// A record after the trades of its whole seconds were taken off the
/// ledger and ingested into the bars.
pub open spec fn digested(v: RecordView) -> RecordView {
    RecordView {
        ledger: v.ledger.skip(whole_seconds(v.ledger)),
        bars: ingested(v.bars, v.ledger.take(whole_seconds(v.ledger))),
        ..v
    }
}


/// The bars that a history query gives: the last `count` where that many
/// are there, and else, where fewer are there than were asked for, the last
/// fourteen, or all where there are fewer than fourteen.
pub open spec fn history_window(bars: Seq<ObStat>, count: int) -> Seq<ObStat> {
    if count <= bars.len() {
        bars.skip(bars.len() - count)
    } else if bars.len() <= HISTORY_WINDOW {
        bars
    } else {
        bars.skip(bars.len() - HISTORY_WINDOW)
    }
}

/// Whether a status is the one that the fills and the book give: executed
/// with the prices of the fills where there are fills and nothing rests,
/// partially filled where there are fills and the order rests, pending
/// where it rests without fills, unknown where there is neither.
pub open spec fn status_matches(status: OrderStatus, fills: Seq<Price>, resting: bool) -> bool {
    match status {
        OrderStatus::Executed { prices } => fills.len() > 0 && !resting && prices@ == fills,
        OrderStatus::PartiallyFilled => fills.len() > 0 && resting,
        OrderStatus::Pending => fills.len() == 0 && resting,
        OrderStatus::Unknown => fills.len() == 0 && !resting,
    }
}

impl OrderStatus {
    /// The status that the prices of an order's fills and its presence in
    /// the book give.
    pub fn from_evidence(prices: Vec<Price>, resting: bool) -> (status: OrderStatus)
        ensures
            status_matches(status, prices@, resting),
    {
        if prices.len() > 0 {
            if resting {
                OrderStatus::PartiallyFilled
            } else {
                OrderStatus::Executed { prices }
            }
        } else if resting {
            OrderStatus::Pending
        } else {
            OrderStatus::Unknown
        }
    }
}

impl Market {
    /// The records of the listed instruments, by instrument number.
    pub open spec fn records(&self) -> Map<u64, StockRecord> {
        registry_contents(self.stock_book)
    }

    /// Whether the instrument is listed.
    pub open spec fn listed(&self, stock: Stock) -> bool {
        self.records().contains_key(stock.spec_code())
    }

    /// The record of a listed instrument.
    pub open spec fn record(&self, stock: Stock) -> RecordView {
        self.records()[stock.spec_code()]@
    }

    /// Every record is well formed.
    pub open spec fn wf(&self) -> bool {
        forall|code: u64|
            self.records().contains_key(code) ==> (#[trigger] self.records()[code]).wf()
    }

    /// A market without instruments whose market time starts at the epoch
    /// of `clock`.
    pub fn new(clock: MTime) -> (market: Market)
        ensures
            market.wf(),
            market.clock == clock,
            market.records() == Map::<u64, StockRecord>::empty(),
    {
        Market { clock, stock_book: registry_new() }
    }

    /// A market without instruments whose market time starts now, or `None`
    /// where the wall clock cannot be read.
    pub fn open() -> (market: Option<Market>)
        ensures
            market.is_some() ==> market.unwrap().wf() && market.unwrap().records() == Map::<
                u64,
                StockRecord,
            >::empty(),
    {
        match MTime::start() {
            Some(clock) => Some(Market::new(clock)),
            None => None,
        }
    }

    /// The record of an instrument, or `None` where it is not listed.
    pub fn get(&self, stock: Stock) -> (record: Option<&StockRecord>)
        ensures
            record.is_some() == self.listed(stock),
            record.is_some() ==> record.unwrap()@ == self.record(stock) && (self.wf()
                ==> record.unwrap().wf()),
    {
        registry_get(&self.stock_book, stock.code())
    }

    /// Whether the instrument is listed.
    pub fn is_listed(&self, stock: Stock) -> (listed: bool)
        ensures
            listed == self.listed(stock),
    {
        registry_get(&self.stock_book, stock.code()).is_some()
    }
}

/// Whether nothing differs between two states of a market.
pub open spec fn untouched(before: Market, after: Market) -> bool {
    after.clock == before.clock && after.records() == before.records()
}

/// Whether two states of a market differ at most in the record of one
/// instrument, which is listed in the later one.
pub open spec fn same_elsewhere(before: Market, after: Market, stock: Stock) -> bool {
    &&& after.clock == before.clock
    &&& after.listed(stock)
    &&& after.records() == before.records().insert(
        stock.spec_code(),
        after.records()[stock.spec_code()],
    )
}

/// An operation on a listed instrument lists nothing and delists nothing.
pub proof fn lemma_listing_kept(before: Market, after: Market, stock: Stock, other: Stock)
    requires
        before.listed(stock),
        same_elsewhere(before, after, stock),
    ensures
        after.listed(other) == before.listed(other),
        other != stock ==> after.records()[other.spec_code()] == before.records()[other.spec_code()],
{
}

/// What a submission at `now` does: nothing for an amount of zero, nothing
/// but the error for an instrument that is not listed, and else the order
/// rests in the instrument's book.
pub open spec fn place_outcome(
    before: Market,
    after: Market,
    stock: Stock,
    amount: u64,
    order_type: OrderType,
    price: Option<Price>,
    lifetime: Option<i64>,
    id: Option<u64>,
    now: i64,
    result: Result<(), MarketError>,
) -> bool {
    if amount == 0 {
        result.is_ok() && untouched(before, after)
    } else if !before.listed(stock) {
        result == Err::<(), MarketError>(MarketError::LookupFailure) && untouched(before, after)
    } else {
        &&& result.is_ok()
        &&& same_elsewhere(before, after, stock)
        &&& after.record(stock) == placed(
            before.record(stock),
            new_order(stock, amount, order_type, price, lifetime, id, now),
        )
    }
}

/// What a listing at `now` does: the instrument gets a fresh record in
/// place of any it had, and the offered amount, if any, rests in it as a
/// limit sell order without lifetime.
pub open spec fn listing_outcome(
    before: Market,
    after: Market,
    stock: Stock,
    amount: u64,
    price: Price,
    id: Option<u64>,
    now: i64,
) -> bool {
    &&& same_elsewhere(before, after, stock)
    &&& after.record(stock) == if amount == 0 {
        fresh_record(stock)
    } else {
        placed(
            fresh_record(stock),
            new_order(stock, amount, OrderType::Sell, Some(price), None, id, now),
        )
    }
}

/// Submits an order at market time `now`. A price makes it a limit order,
/// no price a market order. An amount of zero is ignored without a word.
pub fn place_order_at(
    market: &mut Market,
    stock: Stock,
    amount: u64,
    order_type: OrderType,
    price: Option<Price>,
    lifetime: Option<i64>,
    id: Option<u64>,
    now: i64,
) -> (result: Result<(), MarketError>)
    requires
        old(market).wf(),
    ensures
        final(market).wf(),
        place_outcome(
            *old(market),
            *final(market),
            stock,
            amount,
            order_type,
            price,
            lifetime,
            id,
            now,
            result,
        ),
{
    if amount == 0 {
        return Ok(());
    }
    let order = Order {
        id,
        order_type,
        variant: match price {
            Some(p) => OrderVariant::Limit { price: p },
            None => OrderVariant::Market,
        },
        details: OrderDetails { time: now, stock, amount, lifetime_nanos: lifetime },
    };
    let code = stock.code();
    let ghost before = *market;
    proof {
        lemma_record_wf(before, code);
    }
    let result = match registry_get_mut(&mut market.stock_book, code) {
        Some(record) => {
            record.order_book.process_order(order);
            Ok(())
        },
        None => Err(MarketError::LookupFailure),
    };
    proof {
        lemma_wf_kept(before, *market, code);
    }
    result
}

/// A record of a well-formed market is well formed.
pub proof fn lemma_record_wf(market: Market, code: u64)
    requires
        market.wf(),
    ensures
        market.records().contains_key(code) ==> market.records()[code].wf(),
{
}

/// A market stays well formed where all records but one stay and that one
/// is well formed.
pub proof fn lemma_wf_kept(before: Market, after: Market, code: u64)
    requires
        before.wf(),
        after.records() == before.records() || (after.records() == before.records().insert(
            code,
            after.records()[code],
        ) && after.records()[code].wf()),
    ensures
        after.wf(),
{
    assert forall|c: u64| after.records().contains_key(c) implies (#[trigger] after.records()[c]).wf() by {
        if c != code {
            assert(before.records().contains_key(c));
            assert(before.records()[c].wf());
        } else if after.records() == before.records() {
            assert(before.records()[c].wf());
        }
    }
}

/// Submits an order at the market time that the clock gives now. An
/// amount of zero is ignored before the clock is read.
pub fn place_order(
    market: &mut Market,
    stock: Stock,
    amount: u64,
    order_type: OrderType,
    price: Option<Price>,
    lifetime: Option<i64>,
    id: Option<u64>,
) -> (result: Result<(), MarketError>)
    requires
        old(market).wf(),
    ensures
        final(market).wf(),
        amount == 0 ==> result.is_ok() && untouched(*old(market), *final(market)),
        (result == Err::<(), MarketError>(MarketError::ClockUnavailable) && untouched(
            *old(market),
            *final(market),
        )) || exists|now: i64|
            place_outcome(
                *old(market),
                *final(market),
                stock,
                amount,
                order_type,
                price,
                lifetime,
                id,
                now,
                result,
            ),
{
    if amount == 0 {
        proof {
            assert(place_outcome(
                *old(market),
                *market,
                stock,
                amount,
                order_type,
                price,
                lifetime,
                id,
                0,
                Ok(()),
            ));
        }
        return Ok(());
    }
    match market.clock.now() {
        Some(now) => place_order_at(market, stock, amount, order_type, price, lifetime, id, now),
        None => Err(MarketError::ClockUnavailable),
    }
}

/// Gives the instrument a fresh record in place of any it had.
fn list_fresh(market: &mut Market, stock: Stock)
    requires
        old(market).wf(),
    ensures
        final(market).wf(),
        same_elsewhere(*old(market), *final(market), stock),
        final(market).record(stock) == fresh_record(stock),
{
    let ghost before = *market;
    registry_insert(&mut market.stock_book, stock.code(), StockRecord::new(stock));
    proof {
        lemma_wf_kept(before, *market, stock.spec_code());
    }
}

/// Lists an instrument at market time `now`: it gets a fresh record in
/// place of any it had, and `amount` is offered at `price` as a limit sell
/// order without lifetime that carries `id`. An amount of zero lists the
/// instrument without an offer.
pub fn ipo_at(
    market: &mut Market,
    stock: Stock,
    amount: u64,
    price: Price,
    id: Option<u64>,
    now: i64,
)
    requires
        old(market).wf(),
    ensures
        final(market).wf(),
        listing_outcome(*old(market), *final(market), stock, amount, price, id, now),
{
    list_fresh(market, stock);
    let ghost listed = *market;
    let _ = place_order_at(market, stock, amount, OrderType::Sell, Some(price), None, id, now);
    proof {
        assert(market.records() =~= old(market).records().insert(
            stock.spec_code(),
            market.records()[stock.spec_code()],
        ));
    }
}

/// Lists an instrument at the market time that the clock gives now. Where
/// the clock cannot be read the instrument is listed without the offer.
pub fn ipo(market: &mut Market, stock: Stock, amount: u64, price: Price, id: Option<u64>) -> (result:
    Result<(), MarketError>)
    requires
        old(market).wf(),
    ensures
        final(market).wf(),
        result.is_ok() ==> exists|now: i64|
            listing_outcome(*old(market), *final(market), stock, amount, price, id, now),
        result.is_err() ==> result == Err::<(), MarketError>(MarketError::ClockUnavailable)
            && amount > 0 && same_elsewhere(*old(market), *final(market), stock) && final(market).record(stock) == fresh_record(stock),
{
    if amount == 0 {
        list_fresh(market, stock);
        proof {
            assert(listing_outcome(*old(market), *market, stock, amount, price, id, 0));
        }
        return Ok(());
    }
    match market.clock.now() {
        Some(now) => {
            ipo_at(market, stock, amount, price, id, now);
            Ok(())
        },
        None => {
            list_fresh(market, stock);
            Err(MarketError::ClockUnavailable)
        },
    }
}

/// Submits a buy order: a limit order where a price is given, a market
/// order where none is.
pub fn buy(
    market: &mut Market,
    stock: Stock,
    amount: u64,
    price: Option<Price>,
    lifetime: Option<i64>,
    id: Option<u64>,
) -> (result: Result<(), MarketError>)
    requires
        old(market).wf(),
    ensures
        final(market).wf(),
        amount == 0 ==> result.is_ok() && untouched(*old(market), *final(market)),
        (result == Err::<(), MarketError>(MarketError::ClockUnavailable) && untouched(
            *old(market),
            *final(market),
        )) || exists|now: i64|
            place_outcome(
                *old(market),
                *final(market),
                stock,
                amount,
                OrderType::Buy,
                price,
                lifetime,
                id,
                now,
                result,
            ),
{
    place_order(market, stock, amount, OrderType::Buy, price, lifetime, id)
}

/// Submits a sell order: a limit order where a price is given, a market
/// order where none is.
pub fn sell(
    market: &mut Market,
    stock: Stock,
    amount: u64,
    price: Option<Price>,
    lifetime: Option<i64>,
    id: Option<u64>,
) -> (result: Result<(), MarketError>)
    requires
        old(market).wf(),
    ensures
        final(market).wf(),
        amount == 0 ==> result.is_ok() && untouched(*old(market), *final(market)),
        (result == Err::<(), MarketError>(MarketError::ClockUnavailable) && untouched(
            *old(market),
            *final(market),
        )) || exists|now: i64|
            place_outcome(
                *old(market),
                *final(market),
                stock,
                amount,
                OrderType::Sell,
                price,
                lifetime,
                id,
                now,
                result,
            ),
{
    place_order(market, stock, amount, OrderType::Sell, price, lifetime, id)
}

/// What a sweep at `now` does: nothing but the error for an instrument
/// that is not listed, and else the orders past their lifetime leave the
/// instrument's book.
pub open spec fn clean_outcome(
    before: Market,
    after: Market,
    stock: Stock,
    now: i64,
    result: Result<(), MarketError>,
) -> bool {
    if !before.listed(stock) {
        result == Err::<(), MarketError>(MarketError::LookupFailure) && untouched(before, after)
    } else {
        &&& result.is_ok()
        &&& same_elsewhere(before, after, stock)
        &&& after.record(stock) == cleaned(before.record(stock), now)
    }
}

/// Removes from the instrument's book the orders whose lifetime has run
/// out at market time `now`.
pub fn clean_books_at(market: &mut Market, stock: Stock, now: i64) -> (result: Result<
    (),
    MarketError,
>)
    requires
        old(market).wf(),
    ensures
        final(market).wf(),
        clean_outcome(*old(market), *final(market), stock, now, result),
{
    let code = stock.code();
    let ghost before = *market;
    proof {
        lemma_record_wf(before, code);
    }
    let result = match registry_get_mut(&mut market.stock_book, code) {
        Some(record) => {
            record.order_book.clean_book_at(now);
            Ok(())
        },
        None => Err(MarketError::LookupFailure),
    };
    proof {
        lemma_wf_kept(before, *market, code);
    }
    result
}

/// Removes from the instrument's book the orders whose lifetime has run
/// out at the market time that the clock gives now.
pub fn clean_books(market: &mut Market, stock: Stock) -> (result: Result<(), MarketError>)
    requires
        old(market).wf(),
    ensures
        final(market).wf(),
        (result == Err::<(), MarketError>(MarketError::ClockUnavailable) && old(market).listed(
            stock,
        ) && untouched(*old(market), *final(market))) || exists|now: i64|
            clean_outcome(*old(market), *final(market), stock, now, result),
{
    if !market.is_listed(stock) {
        proof {
            assert(clean_outcome(
                *old(market),
                *market,
                stock,
                0,
                Err(MarketError::LookupFailure),
            ));
        }
        return Err(MarketError::LookupFailure);
    }
    match market.clock.now() {
        Some(now) => clean_books_at(market, stock, now),
        None => Err(MarketError::ClockUnavailable),
    }
}

/// Runs one matching pass on the instrument's book and returns the number
/// of trades made. The pass ends before the book is settled where the clock
/// cannot be read for a trade.
pub fn find_trades(market: &mut Market, stock: Stock) -> (result: Result<usize, MarketError>)
    requires
        old(market).wf(),
    ensures
        final(market).wf(),
        !old(market).listed(stock) ==> result == Err::<usize, MarketError>(
            MarketError::LookupFailure,
        ) && untouched(*old(market), *final(market)),
        old(market).listed(stock) ==> result.is_ok() && same_elsewhere(
            *old(market),
            *final(market),
            stock,
        ) && matched(
            old(market).record(stock),
            final(market).record(stock),
            result.unwrap() as nat,
        ),
{
    let code = stock.code();
    let clock = market.clock;
    let ghost before = *market;
    proof {
        lemma_record_wf(before, code);
    }
    let result = match registry_get_mut(&mut market.stock_book, code) {
        Some(record) => {
            let trades = record.order_book.find_trade(&clock);
            Ok(trades)
        },
        None => Err(MarketError::LookupFailure),
    };
    proof {
        lemma_wf_kept(before, *market, code);
    }
    result
}

/// Runs one matching pass on the instrument's book at market time `now`
/// and returns the number of trades made. The pass ends when the book no
/// longer crosses.
pub fn find_trades_at(market: &mut Market, stock: Stock, now: i64) -> (result: Result<
    usize,
    MarketError,
>)
    requires
        old(market).wf(),
    ensures
        final(market).wf(),
        !old(market).listed(stock) ==> result == Err::<usize, MarketError>(
            MarketError::LookupFailure,
        ) && untouched(*old(market), *final(market)),
        old(market).listed(stock) ==> result.is_ok() && same_elsewhere(
            *old(market),
            *final(market),
            stock,
        ) && matched(
            old(market).record(stock),
            final(market).record(stock),
            result.unwrap() as nat,
        ) && !can_trade(final(market).record(stock).quotes) && forall|i: int|
            old(market).record(stock).ledger.len() <= i < final(market).record(stock).ledger.len()
                ==> (#[trigger] final(market).record(stock).ledger[i]).timestamp == now,
{
    let code = stock.code();
    let ghost before = *market;
    proof {
        lemma_record_wf(before, code);
    }
    let result = match registry_get_mut(&mut market.stock_book, code) {
        Some(record) => {
            let trades = record.order_book.find_trade_at(now);
            Ok(trades)
        },
        None => Err(MarketError::LookupFailure),
    };
    proof {
        lemma_wf_kept(before, *market, code);
    }
    result
}

/// Takes the trades of the whole seconds off the instrument's ledger and
/// ingests them into its bars.
pub fn compress_histories(market: &mut Market, stock: Stock) -> (result: Result<(), MarketError>)
    requires
        old(market).wf(),
    ensures
        final(market).wf(),
        !old(market).listed(stock) ==> result == Err::<(), MarketError>(
            MarketError::LookupFailure,
        ) && untouched(*old(market), *final(market)),
        old(market).listed(stock) ==> result.is_ok() && same_elsewhere(
            *old(market),
            *final(market),
            stock,
        ) && final(market).record(stock) == digested(old(market).record(stock)),
{
    let code = stock.code();
    let ghost before = *market;
    proof {
        lemma_record_wf(before, code);
    }
    let result = match registry_get_mut(&mut market.stock_book, code) {
        Some(record) => {
            let drained = drain_whole_seconds(&mut record.order_book.transaction_record);
            record.history.process_transactions(&drained);
            Ok(())
        },
        None => Err(MarketError::LookupFailure),
    };
    proof {
        lemma_wf_kept(before, *market, code);
    }
    result
}

/// Reports the instrument's trades: the trades of the whole seconds leave
/// the ledger; those that carry an order id enter the window of recent
/// trades, all are ingested into the bars, and the bars are compressed.
/// Returns the trades that left the ledger.
pub fn report_transactions(market: &mut Market, stock: Stock) -> (result: Result<
    Vec<Transaction>,
    MarketError,
>)
    requires
        old(market).wf(),
    ensures
        final(market).wf(),
        !old(market).listed(stock) ==> result == Err::<Vec<Transaction>, MarketError>(
            MarketError::LookupFailure,
        ) && untouched(*old(market), *final(market)),
        old(market).listed(stock) ==> result.is_ok() && same_elsewhere(
            *old(market),
            *final(market),
            stock,
        ) && final(market).record(stock) == reported(old(market).record(stock))
            && result.unwrap()@ == old(market).record(stock).ledger.take(
            whole_seconds(old(market).record(stock).ledger),
        ),
{
    let code = stock.code();
    let ghost before = *market;
    proof {
        lemma_record_wf(before, code);
    }
    let result = match registry_get_mut(&mut market.stock_book, code) {
        Some(record) => Ok(record.report_transactions()),
        None => Err(MarketError::LookupFailure),
    };
    proof {
        lemma_wf_kept(before, *market, code);
    }
    result
}

/// What is known of the order with this id on this side: whether fills of
/// it are among the instrument's recent trades, and whether it still rests
/// in the book.
pub fn get_order_status(market: &Market, stock: Stock, id: u64, order_type: OrderType) -> (result:
    Result<OrderStatus, MarketError>)
    ensures
        !market.listed(stock) ==> result == Err::<OrderStatus, MarketError>(
            MarketError::LookupFailure,
        ),
        market.listed(stock) ==> result.is_ok() && status_matches(
            result.unwrap(),
            fill_prices(market.record(stock).recent, id, order_type),
            match order_type {
                OrderType::Buy => holds_id(market.record(stock).quotes.bids, id),
                OrderType::Sell => holds_id(market.record(stock).quotes.asks, id),
            },
        ),
{
    match registry_get(&market.stock_book, stock.code()) {
        Some(record) => {
            let prices = record.search_transaction_buffer(id, order_type);
            let resting = record.search_orderbook(id, order_type);
            Ok(OrderStatus::from_evidence(prices, resting))
        },
        None => Err(MarketError::LookupFailure),
    }
}

/// The price of the instrument's last trade, 0.0 where it has not traded.
pub fn get_price(market: &Market, stock: Stock) -> (result: Result<Price, MarketError>)
    ensures
        !market.listed(stock) ==> result == Err::<Price, MarketError>(MarketError::LookupFailure),
        market.listed(stock) ==> result == Ok::<Price, MarketError>(
            market.record(stock).quotes.price,
        ),
{
    match registry_get(&market.stock_book, stock.code()) {
        Some(record) => Ok(record.order_book.price),
        None => Err(MarketError::LookupFailure),
    }
}

/// The last bars of a sequence as a history query gives them.
pub fn window_of(bars: &Vec<ObStat>, count: usize) -> (window: Vec<ObStat>)
    ensures
        window@ == history_window(bars@, count as int),
{
    let n = bars.len();
    let start: usize = if count <= n {
        n - count
    } else if n <= HISTORY_WINDOW {
        0
    } else {
        n - HISTORY_WINDOW
    };
    let mut window: Vec<ObStat> = Vec::new();
    let mut i: usize = start;
    while i < n
        invariant
            n == bars.len(),
            start <= i <= n,
            window@ == bars@.subrange(start as int, i as int),
        decreases n - i,
    {
        window.push(bars[i]);
        proof {
            assert(window@ =~= bars@.subrange(start as int, i + 1));
        }
        i += 1;
    }
    proof {
        assert(bars@.subrange(0, n as int) =~= bars@);
        assert(bars@.subrange(start as int, n as int) =~= bars@.skip(start as int));
    }
    window
}

/// The historic bars of the instrument at a resolution: the last `count`,
/// and where fewer are there than were asked for, the last fourteen at
/// most.
pub fn get_stock_history(market: &Market, stock: Stock, granularity: GRANULARITY, count: usize) -> (result:
    Result<Vec<ObStat>, MarketError>)
    requires
        market.wf(),
        granularity != GRANULARITY::INSTANT,
    ensures
        !market.listed(stock) ==> result == Err::<Vec<ObStat>, MarketError>(
            MarketError::LookupFailure,
        ),
        market.listed(stock) ==> result.is_ok() && result.unwrap()@ == history_window(
            market.record(stock).bars.historic[spec_granularity_index(granularity)],
            count as int,
        ),
{
    proof {
        lemma_record_wf(*market, stock.spec_code());
    }
    match registry_get(&market.stock_book, stock.code()) {
        Some(record) => {
            let index = granularity_index(granularity);
            proof {
                assert(record@.bars.historic[index as int] == record.history.historic(index as int));
            }
            Ok(window_of(&record.history._historic_data[index], count))
        },
        None => Err(MarketError::LookupFailure),
    }
}

} // verus!
