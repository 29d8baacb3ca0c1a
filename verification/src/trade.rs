//! A normalized trade tick as the exchange feeds hand it in. Prices and
//! amounts are carried as the raw 64-bit words of the wire's binary64
//! values; the feed edge converts, and the library never re-interprets the
//! words beyond their total order (exact for non-negative quantities).

use vstd::prelude::*;

use crate::order_types::Side;
use crate::symbol::Symbol;

verus! {

#[derive(Clone, Copy, Debug)]
pub struct TradeRecord {
    pub symbol: Symbol,
    /// Milliseconds since the epoch.
    pub timestamp: i64,
    /// Price as a binary64 word.
    pub price: u64,
    /// Amount as a binary64 word.
    pub amount: u64,
    pub side: Side,
}

impl TradeRecord {
    pub fn new(symbol: Symbol, timestamp: i64, price: u64, amount: u64, side: Side) -> (r:
        TradeRecord)
        ensures
            r == (TradeRecord { symbol, timestamp, price, amount, side }),
    {
        TradeRecord { symbol, timestamp, price, amount, side }
    }
}

} // verus!
