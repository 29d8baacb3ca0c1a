//! Binance stream message shapes. Deserialization and transport live with
//! the host; prices and quantities arrive as wire strings.

use vstd::prelude::*;

verus! {

/// One aggregated trade from the trade stream.
#[derive(Debug, Clone)]
pub struct WsAggTrade {
    pub event_type: String,
    pub event_time: i64,
    pub symbol: String,
    pub agg_trade_id: i64,
    /// Price as the wire's decimal string.
    pub price: String,
    /// Quantity as the wire's decimal string.
    pub quantity: String,
    pub first_trade_id: i64,
    pub last_trade_id: i64,
    pub trade_time: i64,
    pub is_buyer_maker: bool,
    pub is_best_match: bool,
}

} // verus!
