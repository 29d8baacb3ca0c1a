use bot::order_types::Side;
use bot::orderbook::{apply_diff_once, OrderbookRepository};

fn w(x: f64) -> u64 {
    x.to_bits()
}

fn book() -> OrderbookRepository {
    OrderbookRepository::new(1_000, 0)
}

#[test]
fn test_arrange() {
    // bids {100, 101, 102}, asks {103, 104}, mid 101.5: bid 102 goes, no
    // ask goes, one level removed in total
    let mut repo = book();
    repo.insert(Side::Buy, w(100.0), w(1.0));
    repo.insert(Side::Buy, w(101.0), w(1.0));
    repo.insert(Side::Buy, w(102.0), w(1.0));
    repo.insert(Side::Sell, w(103.0), w(1.0));
    repo.insert(Side::Sell, w(104.0), w(1.0));
    let removed = repo.arrange(w(101.5));
    assert_eq!(removed, 1);
    let (bids, asks) = repo.get_best(3);
    assert_eq!(bids[0], (w(101.0), w(1.0)));
    assert_eq!(bids[1], (w(100.0), w(1.0)));
    assert_eq!(bids[2], (0, 0));
    assert_eq!(asks[0], (w(103.0), w(1.0)));
    assert_eq!(asks[1], (w(104.0), w(1.0)));
    assert_eq!(asks[2], (0, 0));
}

#[test]
fn test_insert_overwrites_and_remove_drops() {
    let mut repo = book();
    repo.insert(Side::Buy, w(100.0), w(1.0));
    repo.insert(Side::Buy, w(100.0), w(2.5));
    let (bids, _) = repo.get_best(1);
    assert_eq!(bids[0], (w(100.0), w(2.5)));
    repo.remove(Side::Buy, w(100.0));
    let (bids, _) = repo.get_best(1);
    assert_eq!(bids[0], (0, 0));
}

#[test]
fn test_best_ordering() {
    let mut repo = book();
    repo.insert(Side::Buy, w(99.0), w(1.0));
    repo.insert(Side::Buy, w(101.0), w(2.0));
    repo.insert(Side::Buy, w(100.0), w(3.0));
    repo.insert(Side::Sell, w(104.0), w(1.0));
    repo.insert(Side::Sell, w(102.0), w(2.0));
    let (bids, asks) = repo.get_best(2);
    // bids descending, asks ascending
    assert_eq!(bids[0].0, w(101.0));
    assert_eq!(bids[1].0, w(100.0));
    assert_eq!(asks[0].0, w(102.0));
    assert_eq!(asks[1].0, w(104.0));
}

#[test]
fn test_snapshot_bucketing() {
    // two updates inside one bucket yield no snapshot on the second call;
    // a third crossing the boundary yields exactly one, of the state
    // before that update's diffs
    let mut repo = OrderbookRepository::new(1_000, 500);
    repo.insert(Side::Buy, w(100.0), w(1.0));
    assert!(repo.snapshot_on_update(600).is_none());
    repo.insert(Side::Buy, w(101.0), w(1.0));
    assert!(repo.snapshot_on_update(900).is_none());
    let snap = repo.snapshot_on_update(1_200).unwrap();
    assert_eq!(snap.timestamp_ms, 1_000);
    // the snapshot still shows both levels from before the next diffs
    assert_eq!(snap.bids[0], (w(101.0), w(1.0)));
    assert_eq!(snap.bids[1], (w(100.0), w(1.0)));
    assert_eq!(snap.bids[2], (0, 0));
    assert_eq!(snap.asks[0], (0, 0));
    // and the previous time advanced: the same bucket again is quiet
    assert!(repo.snapshot_on_update(1_900).is_none());
}

#[test]
fn test_apply_diff_once() {
    let mut snapshot: Vec<(u64, u64)> = Vec::new();
    snapshot.push((w(100.0), w(1.0)));
    snapshot.push((w(101.0), w(2.0)));
    let mut diff: Vec<(u64, u64)> = Vec::new();
    diff.push((w(101.0), 0));  // removal
    diff.push((w(102.0), w(3.0)));  // upsert
    diff.push((w(100.0), w(9.0)));  // overwrite
    let out = apply_diff_once(snapshot, &diff);
    assert_eq!(out.len(), 2);
    assert_eq!(out[0], (w(100.0), w(9.0)));
    assert_eq!(out[1], (w(102.0), w(3.0)));
}

#[test]
fn test_replace_state() {
    let mut repo = book();
    repo.insert(Side::Buy, w(100.0), w(1.0));
    let mut bids: Vec<(u64, u64)> = Vec::new();
    bids.push((w(90.0), w(5.0)));
    let asks: Vec<(u64, u64)> = Vec::new();
    repo.replace_state(bids, asks);
    let (best_bids, best_asks) = repo.get_best(1);
    assert_eq!(best_bids[0], (w(90.0), w(5.0)));
    assert_eq!(best_asks[0], (0, 0));
}
