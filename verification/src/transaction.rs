//! Executed trades.

use crate::price::Price;
use vstd::prelude::*;

verus! {

/// One execution: the ids of the two orders where they carried one, the
/// price, the quantity and the market time at which it was recorded.
#[derive(Clone, Copy, Debug, PartialEq, Eq)]
pub struct Transaction {
    pub transaction_id: Option<u64>,
    pub buy_id: Option<u64>,
    pub sell_id: Option<u64>,
    pub price: Price,
    pub volume: u64,
    pub timestamp: i64,
}

/// What a trade settles, apart from when: the two order ids, the price and
/// the quantity.
pub struct Fill {
    pub buy_id: Option<u64>,
    pub sell_id: Option<u64>,
    pub price: Price,
    pub volume: u64,
}

impl Transaction {
    /// A transaction with no ids, price 0.0, no volume, at time 0.
    pub fn default() -> (t: Transaction)
        ensures
            t == (Transaction {
                transaction_id: None,
                buy_id: None,
                sell_id: None,
                price: Price { key: crate::price::SIGN_BIT },
                volume: 0,
                timestamp: 0,
            }),
    {
        Transaction {
            transaction_id: None,
            buy_id: None,
            sell_id: None,
            price: Price::zero(),
            volume: 0,
            timestamp: 0,
        }
    }

    /// What this transaction settled.
    pub open spec fn fill(self) -> Fill {
        Fill { buy_id: self.buy_id, sell_id: self.sell_id, price: self.price, volume: self.volume }
    }
}

} // verus!
