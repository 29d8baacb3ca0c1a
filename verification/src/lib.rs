//! Core data structures of a market-data trading bot: an exact scaled-decimal
//! number type, a fixed-size OHLCV candle ring buffer with a binary file
//! image, a price-level order-book repository with periodic best-of-book
//! snapshots, and a client-side reserved (conditional) order manager.

pub mod arith;
pub mod binance;
pub mod bitflyer;
pub mod coincheck;
pub mod config;
pub mod credentials;
pub mod debug_flags;
pub mod errors;
pub mod float_exp;
pub mod gmo;
pub mod kline;
pub mod num_utils;
pub mod order_types;
pub mod orderbook;
pub mod reserved_orders;
pub mod strategy_utils;
pub mod symbol;
pub mod tachibana;
pub mod text;
pub mod time_queue;
pub mod time_utils;
pub mod trade;
