//! Strategy-side helpers that compute on the core's outputs.

use vstd::prelude::*;

use crate::float_exp::{FloatExp, fe_lt};
use crate::order_types::Side;
use crate::symbol::Symbol;

verus! {

/// Whether a limit order at `price` would rest on the book rather than
/// cross: a buy must sit strictly below the last close, a sell strictly
/// above it.
pub fn is_logical_postonly(side: Side, price: FloatExp, last_close: FloatExp) -> (r: bool)
    ensures
        r == (match side {
            Side::Buy => fe_lt(price, last_close),
            Side::Sell => fe_lt(last_close, price),
        }),
{
    match side {
        Side::Buy => matches!(price.compare(&last_close), core::cmp::Ordering::Less),
        Side::Sell => matches!(last_close.compare(&price), core::cmp::Ordering::Less),
    }
}

/// A base/quote balance pair, zeroed at the symbol's precisions.
#[derive(Debug)]
pub struct Balance {
    pub base: FloatExp,
    pub quote: FloatExp,
}

impl Balance {
    pub fn new(symbol: Symbol) -> (r: Self)
        requires
            symbol.amount_precision_defined(),
        ensures
            r.base.value == 0,
            r.base.exp == symbol.amount_precision_spec(),
            r.quote.value == 0,
            r.quote.exp == 0,
    {
        Balance {
            base: FloatExp::new(0, symbol.amount_precision()),
            quote: FloatExp::new(0, 0),
        }
    }
}

/// A market-making position: signed size, entry price and the notional at
/// entry, zeroed at the given precisions.
#[derive(Debug, Clone)]
pub struct TracingMMPosition {
    pub pos: FloatExp,
    pub entry_price: FloatExp,
    pub init_notional: FloatExp,
}

impl TracingMMPosition {
    pub fn new(price_exp: i32, amount_exp: i32) -> (r: Self)
        requires
            i32::MIN <= price_exp + amount_exp <= i32::MAX,
        ensures
            r.pos == (FloatExp { value: 0, exp: amount_exp }),
            r.entry_price == (FloatExp { value: 0, exp: price_exp }),
            r.init_notional == (FloatExp { value: 0, exp: (price_exp + amount_exp) as i32 }),
    {
        TracingMMPosition {
            pos: FloatExp::new(0, amount_exp),
            entry_price: FloatExp::new(0, price_exp),
            init_notional: FloatExp::new(0, price_exp + amount_exp),
        }
    }
}

} // verus!
