use bot::float_exp::FloatExp;
use bot::order_types::{OrderType, PosSide, Side};
use bot::reserved_orders::ReservedOrdersManager;

fn p(v: i64) -> FloatExp {
    FloatExp::new(v, 0)
}

#[test]
fn test_fire_once_on_crossing() {
    // a buy at trigger 100 with no previous price, then trades
    // [105, 99, 98]: fires exactly once, on the 105 -> 99 crossing
    let mut mgr = ReservedOrdersManager::new(0);
    let id = mgr.add_reserved_order(OrderType::Limit, Side::Buy, PosSide::Long, p(100), p(1), None);
    let fired = mgr.trades_handler(&vec![p(105), p(99), p(98)]);
    assert_eq!(fired.len(), 1);
    assert_eq!(fired[0].id, id);
    assert!(fired[0].is_ordered);
    // later batches never return it again
    let fired2 = mgr.trades_handler(&vec![p(105), p(99)]);
    assert_eq!(fired2.len(), 0);
}

#[test]
fn test_first_trade_fires_nothing() {
    // the batch path needs a previous price: 99 alone cannot fire
    let mut mgr = ReservedOrdersManager::new(0);
    mgr.add_reserved_order(OrderType::Limit, Side::Buy, PosSide::Long, p(100), p(1), None);
    let fired = mgr.trades_handler(&vec![p(99)]);
    assert_eq!(fired.len(), 0);
    // but the price was remembered: the next batch can
    let fired2 = mgr.trades_handler(&vec![p(101), p(100)]);
    assert_eq!(fired2.len(), 1);
}

#[test]
fn test_no_fire_without_crossing() {
    // the previous price must be strictly beyond the trigger
    let mut mgr = ReservedOrdersManager::new(0);
    mgr.add_reserved_order(OrderType::Limit, Side::Buy, PosSide::Long, p(100), p(1), None);
    let fired = mgr.trades_handler(&vec![p(100), p(99)]);
    assert_eq!(fired.len(), 0);
}

#[test]
fn test_sell_side_crossing() {
    let mut mgr = ReservedOrdersManager::new(0);
    mgr.add_reserved_order(OrderType::Limit, Side::Sell, PosSide::Short, p(100), p(1), None);
    let fired = mgr.trades_handler(&vec![p(95), p(100)]);
    assert_eq!(fired.len(), 1);
}

#[test]
fn test_stop_inverts_side() {
    // a buy-side stop protects a short: it fires on a rise through the
    // trigger, not on a fall
    let mut mgr = ReservedOrdersManager::new(0);
    mgr.add_reserved_order(OrderType::Stop, Side::Buy, PosSide::Short, p(100), p(1), None);
    let none = mgr.trades_handler(&vec![p(105), p(99)]);
    assert_eq!(none.len(), 0);
    let fired = mgr.trades_handler(&vec![p(95), p(101)]);
    assert_eq!(fired.len(), 1);
}

#[test]
fn test_orderbook_handler_fires_without_prev() {
    // a single observation past the line fires on the book path
    let mut mgr = ReservedOrdersManager::new(0);
    mgr.add_reserved_order(OrderType::Limit, Side::Buy, PosSide::Long, p(100), p(1), None);
    mgr.add_reserved_order(OrderType::Limit, Side::Sell, PosSide::Short, p(110), p(1), None);
    // best bid 99 is at or below the buy trigger; best ask 105 is below
    // the sell trigger, so only the buy fires
    let fired = mgr.orderbook_handler(p(99), p(105));
    assert_eq!(fired.len(), 1);
    assert_eq!(fired[0].side, Side::Buy);
    // once fired it never comes back
    let fired2 = mgr.orderbook_handler(p(99), p(105));
    assert_eq!(fired2.len(), 0);
}

#[test]
fn test_add_get_remove() {
    let mut mgr = ReservedOrdersManager::new(0);
    let a = mgr.add_reserved_order(OrderType::Limit, Side::Buy, PosSide::Long, p(100), p(1), Some(
        "ext-1".to_string(),
    ));
    let b = mgr.add_reserved_order(OrderType::Stop, Side::Sell, PosSide::Long, p(90), p(1), None);
    assert_eq!(mgr.get(&a).unwrap().pair_order_id, Some("ext-1".to_string()));
    assert!(mgr.set_pair_rsv_order_id(&b, Some(a)));
    assert_eq!(mgr.get(&b).unwrap().pair_rsv_order_id, Some(a));
    let removed = mgr.remove(&a).unwrap();
    assert_eq!(removed.id, a);
    assert!(mgr.get(&a).is_none());
    mgr.cancel_all_orders();
    assert!(mgr.get(&b).is_none());
}
