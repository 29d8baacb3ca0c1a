use bot::kline::{KLineBuffer, KLineRow, KLineRowData, OhlcvUpdate};
use bot::errors::KLineError;
use bot::order_types::Side;
use bot::symbol::{Currency, Exchange, Symbol, SymbolType};
use bot::trade::TradeRecord;

fn sym() -> Symbol {
    Symbol::new(Currency::BTC, Currency::JPY, SymbolType::Spot, Exchange::Coincheck)
}

fn trade(ts: i64, price: f64, amount: f64) -> TradeRecord {
    TradeRecord::new(sym(), ts, price.to_bits(), amount.to_bits(), Side::Buy)
}

fn data(open: f64, high: f64, low: f64, close: f64, volume: f64) -> KLineRow {
    KLineRow::Data(KLineRowData {
        open: open.to_bits(),
        high: high.to_bits(),
        low: low.to_bits(),
        close: close.to_bits(),
        volume: volume.to_bits(),
    })
}

#[test]
fn test_kline_row() {
    let b = KLineRow::Empty.write_bytes();
    assert_eq!(b.len(), 41);
    assert_eq!(b[0], 0xc0);
}

#[test]
fn test_row_roundtrip() {
    let row = data(100.0, 101.5, 99.25, 100.75, 3.5);
    let bytes = row.write_bytes();
    assert_eq!(bytes.len(), 41);
    assert_eq!(bytes[0], 0x95);
    let back = KLineRow::read_bytes(&bytes, 0).unwrap();
    assert_eq!(back, row);
    let empty_back = KLineRow::read_bytes(&KLineRow::Empty.write_bytes(), 0).unwrap();
    assert_eq!(empty_back, KLineRow::Empty);
}

#[test]
fn test_row_corruption() {
    let mut bytes = KLineRow::Empty.write_bytes();
    bytes[0] = 0x77;
    assert_eq!(KLineRow::read_bytes(&bytes, 0), Err(KLineError::Corruption));
}

#[test]
fn test_buffer_roundtrip() {
    // writing a window of mixed empty and populated rows and reading the
    // image back yields the identical window
    let mut buf = KLineBuffer::new_empty(60_000, 4, 240_000);
    buf.update_ohlcv(&trade(240_500, 100.0, 1.0)).unwrap();
    buf.update_ohlcv(&trade(121_000, 99.0, 0.5)).unwrap();
    let image = buf.to_bytes();
    assert_eq!(image.len(), 8 + 4 * 41);
    let back = KLineBuffer::from_bytes(60_000, 4, &image).unwrap();
    assert_eq!(back.head_opentime_ms, buf.head_opentime_ms);
    let a = buf.read_all();
    let b = back.read_all();
    assert_eq!(a.len(), b.len());
    for i in 0..a.len() {
        assert_eq!(a[i], b[i]);
    }
}

#[test]
fn test_read_header() {
    let buf = KLineBuffer::new_empty(1_000, 2, 5_000);
    let image = buf.to_bytes();
    assert_eq!(KLineBuffer::read_header(&image).unwrap(), 5_000);
}

#[test]
fn test_shift_preserves_recent_rows() {
    // a shift by k keeps the newest rows at positions k.. and clears 0..k
    let mut buf = KLineBuffer::new_empty(1_000, 4, 10_000);
    buf.update_ohlcv(&trade(10_100, 100.0, 1.0)).unwrap();
    buf.update_ohlcv(&trade(9_100, 99.0, 1.0)).unwrap();
    let before = buf.read_all();
    buf.shift_state(12_000);
    assert_eq!(buf.head_opentime_ms, 12_000);
    let after = buf.read_all();
    // the two newest populated rows survived, two buckets older
    assert_eq!(after[1].1, before[3].1);
    assert_eq!(after[0].1, before[2].1);
    // the new leading buckets are empty
    assert_eq!(after[2].1, KLineRow::Empty);
    assert_eq!(after[3].1, KLineRow::Empty);
}

#[test]
fn test_shift_past_window_resets() {
    let mut buf = KLineBuffer::new_empty(1_000, 3, 10_000);
    buf.update_ohlcv(&trade(10_000, 100.0, 1.0)).unwrap();
    buf.shift_state(20_000);
    for (_, row) in buf.read_all() {
        assert_eq!(row, KLineRow::Empty);
    }
    assert_eq!(buf.head_opentime_ms, 20_000);
}

#[test]
fn test_out_of_window() {
    let mut buf = KLineBuffer::new_empty(1_000, 3, 10_000);
    // a trade three buckets before the head has aged out of the window
    assert_eq!(buf.update_ohlcv(&trade(7_000, 100.0, 1.0)), Err(KLineError::OutOfWindow));
}

#[test]
fn test_ohlcv_merge() {
    let mut buf = KLineBuffer::new_empty(1_000, 3, 10_000);
    let first = buf.update_ohlcv(&trade(10_100, 100.0, 1.5)).unwrap();
    assert_eq!(first, OhlcvUpdate::Inserted { index: 0 });
    // a second trade in the same bucket merges; the volume sum is the
    // caller's float addition, stored back explicitly
    let second = buf.update_ohlcv(&trade(10_200, 102.0, 0.5)).unwrap();
    match second {
        OhlcvUpdate::Merged { index, prev_volume } => {
            assert_eq!(index, 0);
            assert_eq!(prev_volume, 1.5f64.to_bits());
            buf.set_volume(index, (f64::from_bits(prev_volume) + 0.5).to_bits());
        },
        _ => panic!("expected a merge"),
    }
    let third = buf.update_ohlcv(&trade(10_300, 99.0, 1.0)).unwrap();
    match third {
        OhlcvUpdate::Merged { index, prev_volume } => {
            buf.set_volume(index, (f64::from_bits(prev_volume) + 1.0).to_bits());
        },
        _ => panic!("expected a merge"),
    }
    let rows = buf.read_all();
    assert_eq!(rows[2].1, data(100.0, 102.0, 99.0, 99.0, 3.0));
}

#[test]
fn test_end_to_end_two_candles() {
    // two trades, one second apart, into an empty one-second five-slot
    // window: three leading empty candles, then 100/100 and 101/101
    let t0: i64 = 1_686_121_920_000;
    let mut buf = KLineBuffer::new_empty(1_000, 5, t0);
    buf.update_ohlcv(&trade(t0, 100.0, 1.0)).unwrap();
    buf.update_ohlcv(&trade(t0 + 1_000, 101.0, 2.0)).unwrap();
    let rows = buf.read_all();
    assert_eq!(rows.len(), 5);
    for i in 0..3 {
        assert_eq!(rows[i].1, KLineRow::Empty);
    }
    assert_eq!(rows[3].0, t0);
    assert_eq!(rows[3].1, data(100.0, 100.0, 100.0, 100.0, 1.0));
    assert_eq!(rows[4].0, t0 + 1_000);
    assert_eq!(rows[4].1, data(101.0, 101.0, 101.0, 101.0, 2.0));
}
