//! Orders and the price-time priority between them.

use crate::price::Price;
use std::cmp::Ordering;
use vstd::prelude::*;
use vstd::std_specs::cmp::PartialEqSpecImpl;
use vstd::std_specs::cmp::PartialOrdSpecImpl;

verus! {

/// A listed instrument.
#[derive(Clone, Copy, Debug, PartialEq, Eq, Hash, Structural)]
pub enum Stock {
    AAPL,
    GOOGL,
    MSFT,
}

impl Stock {
    /// The number under which the registry files this instrument.
    pub open spec fn spec_code(self) -> u64 {
        match self {
            Stock::AAPL => 0,
            Stock::GOOGL => 1,
            Stock::MSFT => 2,
        }
    }

    /// The number under which the registry files this instrument; distinct
    /// instruments have distinct numbers.
    pub fn code(self) -> (c: u64)
        ensures
            c == self.spec_code(),
    {
        match self {
            Stock::AAPL => 0,
            Stock::GOOGL => 1,
            Stock::MSFT => 2,
        }
    }
}

/// The side of the book an order rests on.
#[derive(Clone, Copy, Debug, PartialEq, Eq, Structural)]
pub enum OrderType {
    Buy,
    Sell,
}

/// Whether an order takes any price or is bounded by one.
#[derive(Clone, Copy, Debug, PartialEq, Eq, Structural)]
pub enum OrderVariant {
    Market,
    Limit { price: Price },
}

/// Submission time in nanoseconds of market time, instrument, remaining
/// quantity and optional lifetime in nanoseconds.
#[derive(Clone, Copy, Debug)]
pub struct OrderDetails {
    pub time: i64,
    pub stock: Stock,
    pub amount: u64,
    pub lifetime_nanos: Option<i64>,
}

/// A resting order. Only `details.amount` changes after submission.
#[derive(Clone, Copy, Debug)]
pub struct Order {
    pub id: Option<u64>,
    pub order_type: OrderType,
    pub variant: OrderVariant,
    pub details: OrderDetails,
}

/// Whether `a` is a strictly more favourable limit price than `b` on `side`:
/// higher for a buyer, lower for a seller.
pub open spec fn better_price(side: OrderType, a: Price, b: Price) -> bool {
    match side {
        OrderType::Buy => a.key > b.key,
        OrderType::Sell => a.key < b.key,
    }
}

/// Strict price-time priority on one side of the book: a market order
/// precedes every limit order, a limit order precedes one at a less
/// favourable price, and at equal terms the earlier submission precedes.
pub open spec fn outranks_on(side: OrderType, a: Order, b: Order) -> bool {
    match (a.variant, b.variant) {
        (OrderVariant::Market, OrderVariant::Limit { .. }) => true,
        (OrderVariant::Limit { .. }, OrderVariant::Market) => false,
        (OrderVariant::Market, OrderVariant::Market) => a.details.time < b.details.time,
        (OrderVariant::Limit { price: pa }, OrderVariant::Limit { price: pb }) => {
            better_price(side, pa, pb) || (pa == pb && a.details.time < b.details.time)
        },
    }
}

/// Whether neither order precedes the other: same kind, same limit price,
/// same submission time.
pub open spec fn same_rank(a: Order, b: Order) -> bool {
    match (a.variant, b.variant) {
        (OrderVariant::Market, OrderVariant::Market) => a.details.time == b.details.time,
        (OrderVariant::Limit { price: pa }, OrderVariant::Limit { price: pb }) => {
            pa == pb && a.details.time == b.details.time
        },
        _ => false,
    }
}

impl Order {
    /// Whether this order is matched strictly before `other`, judged on this
    /// order's side of the book.
    pub open spec fn spec_outranks(self, other: Order) -> bool {
        outranks_on(self.order_type, self, other)
    }

    /// Whether this order is matched strictly before `other`, judged on this
    /// order's side of the book.
    pub fn outranks(&self, other: &Order) -> (r: bool)
        ensures
            r == self.spec_outranks(*other),
    {
        match (self.variant, other.variant) {
            (OrderVariant::Market, OrderVariant::Limit { .. }) => true,
            (OrderVariant::Limit { .. }, OrderVariant::Market) => false,
            (OrderVariant::Market, OrderVariant::Market) => self.details.time < other.details.time,
            (OrderVariant::Limit { price: pa }, OrderVariant::Limit { price: pb }) => {
                let better = match self.order_type {
                    OrderType::Buy => pa.key > pb.key,
                    OrderType::Sell => pa.key < pb.key,
                };
                better || (pa.key == pb.key && self.details.time < other.details.time)
            },
        }
    }

    /// Whether the order is a market order.
    pub fn is_market(&self) -> (r: bool)
        ensures
            r == (self.variant == OrderVariant::Market),
    {
        match self.variant {
            OrderVariant::Market => true,
            OrderVariant::Limit { .. } => false,
        }
    }
}

impl PartialEq for Order {
    /// Two orders are equal when neither precedes the other.
    fn eq(&self, other: &Self) -> (r: bool) {
        match (self.variant, other.variant) {
            (OrderVariant::Market, OrderVariant::Market) => self.details.time == other.details.time,
            (OrderVariant::Limit { price: pa }, OrderVariant::Limit { price: pb }) => {
                pa.key == pb.key && self.details.time == other.details.time
            },
            _ => false,
        }
    }
}

impl PartialEqSpecImpl for Order {
    open spec fn obeys_eq_spec() -> bool {
        true
    }

    open spec fn eq_spec(&self, other: &Order) -> bool {
        same_rank(*self, *other)
    }
}

impl PartialOrd for Order {
    /// `Greater` means matched first: the order that precedes the other on
    /// this order's side compares greater.
    fn partial_cmp(&self, other: &Self) -> (r: Option<Ordering>) {
        if self.outranks(other) {
            Some(Ordering::Greater)
        } else if same_rank_exec(self, other) {
            Some(Ordering::Equal)
        } else {
            Some(Ordering::Less)
        }
    }
}

impl PartialOrdSpecImpl for Order {
    open spec fn obeys_partial_cmp_spec() -> bool {
        true
    }

    open spec fn partial_cmp_spec(&self, other: &Order) -> Option<Ordering> {
        if outranks_on(self.order_type, *self, *other) {
            Some(Ordering::Greater)
        } else if same_rank(*self, *other) {
            Some(Ordering::Equal)
        } else {
            Some(Ordering::Less)
        }
    }
}

/// Whether neither order precedes the other.
pub fn same_rank_exec(a: &Order, b: &Order) -> (r: bool)
    ensures
        r == same_rank(*a, *b),
{
    match (a.variant, b.variant) {
        (OrderVariant::Market, OrderVariant::Market) => a.details.time == b.details.time,
        (OrderVariant::Limit { price: pa }, OrderVariant::Limit { price: pb }) => {
            pa.key == pb.key && a.details.time == b.details.time
        },
        _ => false,
    }
}

/// On one side of the book exactly one of three holds of two orders: the
/// first precedes, the second precedes, or they rank the same.
pub proof fn lemma_rank_trichotomy(side: OrderType, a: Order, b: Order)
    ensures
        outranks_on(side, a, b) || outranks_on(side, b, a) || same_rank(a, b),
        !(outranks_on(side, a, b) && outranks_on(side, b, a)),
        !(outranks_on(side, a, b) && same_rank(a, b)),
        !(outranks_on(side, b, a) && same_rank(a, b)),
{
}

/// Priority is transitive, also through orders of the same rank, so it
/// orders each side of the book totally up to rank.
pub proof fn lemma_rank_transitive(side: OrderType, a: Order, b: Order, c: Order)
    ensures
        outranks_on(side, a, b) && outranks_on(side, b, c) ==> outranks_on(side, a, c),
        !outranks_on(side, a, b) && !outranks_on(side, b, c) ==> !outranks_on(side, a, c),
{
}

/// A market order precedes every limit order on its side, whatever their
/// submission times.
pub proof fn lemma_market_first(side: OrderType, market: Order, limit: Order)
    requires
        market.variant == OrderVariant::Market,
        limit.variant != OrderVariant::Market,
    ensures
        outranks_on(side, market, limit),
        !outranks_on(side, limit, market),
{
}

/// Among limit orders at one price the earlier submission precedes.
pub proof fn lemma_time_priority(side: OrderType, a: Order, b: Order, price: Price)
    requires
        a.variant == (OrderVariant::Limit { price }),
        b.variant == (OrderVariant::Limit { price }),
    ensures
        outranks_on(side, a, b) <==> a.details.time < b.details.time,
{
}

} // verus!
