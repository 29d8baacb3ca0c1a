use bot::debug_flags::{debug_is_none, debug_is_some, debug_is_some_any, debug_is_some_except};
use bot::float_exp::FloatExp;
use bot::order_types::{OrderType, PosSide, Side};
use bot::strategy_utils::{is_logical_postonly, Balance, TracingMMPosition};
use bot::symbol::{Currency, Exchange, Symbol, SymbolType};
use bot::text::{contains_str, str_eq};

#[test]
fn test_symbol_to_native() {
    let gmo_perp = Symbol::new(Currency::BTC, Currency::JPY, SymbolType::Perp, Exchange::Gmo);
    assert_eq!(gmo_perp.to_native(), "BTC_JPY");
    let gmo_spot = Symbol::new(Currency::BTC, Currency::JPY, SymbolType::Spot, Exchange::Gmo);
    assert_eq!(gmo_spot.to_native(), "BTC");
    let cc = Symbol::new(Currency::BTC, Currency::JPY, SymbolType::Spot, Exchange::Coincheck);
    assert_eq!(cc.to_native(), "btc_jpy");
    let bin = Symbol::new(Currency::BTC, Currency::USDT, SymbolType::Perp, Exchange::Binance);
    assert_eq!(bin.to_native(), "BTCUSDT");
    let bf = Symbol::new(Currency::BTC, Currency::JPY, SymbolType::Perp, Exchange::Bitflyer);
    assert_eq!(bf.to_native(), "FX_BTC_JPY");
    let ta = Symbol::new(Currency::T7203, Currency::JPY, SymbolType::Margin, Exchange::Tachibana);
    assert_eq!(ta.to_native(), "7203");
}

#[test]
fn test_symbol_to_file_form() {
    let bf = Symbol::new(Currency::BTC, Currency::JPY, SymbolType::Perp, Exchange::Bitflyer);
    assert_eq!(bf.to_file_form(), "bitflyer-BTC-JPY-perp");
}

#[test]
fn test_symbol_precisions() {
    let gmo_perp = Symbol::new(Currency::BTC, Currency::JPY, SymbolType::Perp, Exchange::Gmo);
    assert_eq!(gmo_perp.settlement_precision(), 0);
    assert_eq!(gmo_perp.amount_precision(), -2);
    assert_eq!(gmo_perp.price_precision(), 0);
    let xrp = Symbol::new(Currency::XRP, Currency::JPY, SymbolType::Spot, Exchange::Gmo);
    assert_eq!(xrp.amount_precision(), 0);
    assert_eq!(xrp.price_precision(), -3);
    let ta = Symbol::new(Currency::T7203, Currency::JPY, SymbolType::Margin, Exchange::Tachibana);
    assert_eq!(ta.amount_precision(), 2);
    assert_eq!(ta.price_precision(), -1);
}

#[test]
fn test_side_and_pos() {
    assert_eq!(Side::Buy.inv(), Side::Sell);
    assert_eq!(Side::Sell.inv(), Side::Buy);
    assert_eq!(Side::Buy.to_pos(), PosSide::Long);
    assert_eq!(PosSide::Short.to_side(), Side::Sell);
    assert_eq!(PosSide::Long.sign(), 1);
    assert_eq!(PosSide::Short.sign(), -1);
    assert!(OrderType::Stop.is_stoploss());
    assert!(OrderType::StopLimit.is_stoploss());
    assert!(!OrderType::Limit.is_stoploss());
    assert_eq!(Side::Buy.index(), 0);
    assert_eq!(Side::Sell.index(), 1);
}

#[test]
fn test_is_logical_postonly() {
    let close = FloatExp::new(100, 0);
    assert!(is_logical_postonly(Side::Buy, FloatExp::new(99, 0), close));
    assert!(!is_logical_postonly(Side::Buy, FloatExp::new(100, 0), close));
    assert!(is_logical_postonly(Side::Sell, FloatExp::new(101, 0), close));
    assert!(!is_logical_postonly(Side::Sell, FloatExp::new(99, 0), close));
}

#[test]
fn test_balance_and_position() {
    let cc = Symbol::new(Currency::BTC, Currency::JPY, SymbolType::Spot, Exchange::Coincheck);
    let b = Balance::new(cc);
    assert!(b.base.is_zero());
    assert_eq!(b.base.exp, -8);
    assert_eq!(b.quote.exp, 0);
    let pos = TracingMMPosition::new(0, -8);
    assert_eq!(pos.pos.exp, -8);
    assert_eq!(pos.entry_price.exp, 0);
    assert_eq!(pos.init_notional.exp, -8);
}

#[test]
fn test_debug_flags() {
    let unset: Option<String> = None;
    let set = Some("crawler".to_string());
    assert!(debug_is_none(&unset));
    assert!(!debug_is_none(&set));
    assert!(debug_is_some_any(&set));
    assert!(debug_is_some(&set, "crawler"));
    assert!(!debug_is_some(&set, "other"));
    assert!(debug_is_some_except(&set, &vec!["other".to_string()]));
    assert!(!debug_is_some_except(&set, &vec!["crawler".to_string()]));
    assert!(!debug_is_some_except(&unset, &vec![]));
}

#[test]
fn test_text_helpers() {
    assert!(str_eq("abc", "abc"));
    assert!(!str_eq("abc", "abd"));
    assert!(contains_str("Rate deviates from actual price range", "deviates"));
    assert!(!contains_str("short", "longer than the text"));
    assert!(contains_str("anything", ""));
}
