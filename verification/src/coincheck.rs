//! Coincheck request and response shapes, and the pure helpers around
//! them. Serialization and transport live with the host.

use vstd::prelude::*;
use vstd::string::StringExecFns;

use crate::float_exp::FloatExp;
use crate::order_types::Side;
use crate::symbol::Symbol;
use crate::text::{contains_str, contains_sub, i64_to_string, dec_int};

verus! {

/// An envelope that is either the expected payload or an error record.
#[derive(Debug)]
pub enum RestResponse<T> {
    Success(T),
    Failure(RestErrResponse),
}

impl<T> RestResponse<T> {
    /// The payload, or the error record as the error.
    pub fn into_result(self) -> (r: Result<T, RestErrResponse>)
        ensures
            (match self {
                RestResponse::Success(x) => r == Ok::<T, RestErrResponse>(x),
                RestResponse::Failure(e) => r == Err::<T, RestErrResponse>(e),
            }),
    {
        match self {
            RestResponse::Success(x) => Ok(x),
            RestResponse::Failure(e) => Err(e),
        }
    }
}

#[derive(Debug)]
pub struct RestErrResponse {
    pub error: String,
    pub success: bool,
}

impl RestErrResponse {
    /// Whether the error text reports a limit price too far from the
    /// market price.
    pub fn is_price_range_error(&self) -> (r: bool)
        ensures
            r == contains_sub(self.error@, "Rate deviates from actual price"@),
    {
        contains_str(self.error.as_str(), "Rate deviates from actual price")
    }
}

/// The cancel endpoint path for one order id.
pub fn cancel_order_path(id: i64) -> (r: String)
    ensures
        r@ == "/api/exchange/orders/"@ + dec_int(id as int),
{
    let mut s = "/api/exchange/orders/".to_owned();
    s.append(i64_to_string(id).as_str());
    s
}

#[derive(Debug)]
pub struct CancelOrderResponse {
    pub success: bool,
    pub id: i64,
}

#[derive(Debug)]
pub struct OrderbookRequest;

#[derive(Debug)]
pub struct OpenOrderRequest;

#[derive(Debug)]
pub struct BalanceRequest;

#[derive(Debug)]
pub struct TransactionsRequest;

#[derive(Debug)]
pub struct TickerRequest {
    pub pair: Symbol,
}

#[derive(Debug, Clone, Copy, PartialEq, Eq, Structural)]
pub enum TimeInForce {
    GoodTillCancelled,
    PostOnly,
}

#[derive(Debug)]
pub struct LimitOrderRequest {
    pub pair: Symbol,
    pub rate: FloatExp,
    pub amount: FloatExp,
    pub time_in_force: Option<TimeInForce>,
}

#[derive(Debug)]
pub struct MarketBuyOrderRequest {
    pub pair: Symbol,
    /// Quote-denominated amount.
    pub market_buy_amount: FloatExp,
    pub time_in_force: Option<TimeInForce>,
}

#[derive(Debug)]
pub struct MarketSellOrderRequest {
    pub pair: Symbol,
    pub amount: FloatExp,
    pub time_in_force: Option<TimeInForce>,
}

#[derive(Debug)]
pub enum OrderRequest {
    Buy(LimitOrderRequest),
    Sell(LimitOrderRequest),
    MarketBuy(MarketBuyOrderRequest),
    MarketSell(MarketSellOrderRequest),
}

impl OrderRequest {
    /// A limit order on the given side.
    pub fn limit_order(side: Side, pair: Symbol, rate: FloatExp, amount: FloatExp, time_in_force:
        Option<TimeInForce>) -> (r: Self)
        ensures
            (match side {
                Side::Buy => r == OrderRequest::Buy(
                    LimitOrderRequest { pair, rate, amount, time_in_force },
                ),
                Side::Sell => r == OrderRequest::Sell(
                    LimitOrderRequest { pair, rate, amount, time_in_force },
                ),
            }),
    {
        match side {
            Side::Buy => OrderRequest::Buy(LimitOrderRequest { pair, rate, amount, time_in_force }),
            Side::Sell => OrderRequest::Sell(
                LimitOrderRequest { pair, rate, amount, time_in_force },
            ),
        }
    }

    /// A market order; the amount is quote-denominated for a buy and
    /// base-denominated for a sell.
    pub fn market_order(side: Side, pair: Symbol, amount: FloatExp, time_in_force: Option<
        TimeInForce,
    >) -> (r: Self)
        ensures
            (match side {
                Side::Buy => r == OrderRequest::MarketBuy(
                    MarketBuyOrderRequest { pair, market_buy_amount: amount, time_in_force },
                ),
                Side::Sell => r == OrderRequest::MarketSell(
                    MarketSellOrderRequest { pair, amount, time_in_force },
                ),
            }),
    {
        match side {
            Side::Buy => OrderRequest::MarketBuy(
                MarketBuyOrderRequest { pair, market_buy_amount: amount, time_in_force },
            ),
            Side::Sell => OrderRequest::MarketSell(
                MarketSellOrderRequest { pair, amount, time_in_force },
            ),
        }
    }
}

/// A raw trade row batch from the trades channel: each row is the tuple of
/// wire strings `[unixtime, id, pair, price, volume, taker_side, ...]`.
#[derive(Debug)]
pub struct WsTradesResponse(pub Vec<Vec<String>>);

} // verus!
