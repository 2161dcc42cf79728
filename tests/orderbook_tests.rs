use pmengine::decimal::Decimal;
use pmengine::engine::{handle_book_update, EngineState};
use pmengine::orderbook::{BookSnapshot, Level, MarketDataHub, MarketEvent, OrderBook};
use pmengine::position::PositionTracker;

fn d(num: i64, scale: u32) -> Decimal {
    Decimal::new(num, scale)
}

fn lvl(price: Decimal, size: Decimal) -> Level {
    Level { price, size }
}

fn make_book() -> OrderBook {
    let mut book = OrderBook::new("test".to_string());
    book.bids = vec![
        lvl(d(50, 2), d(100, 0)),
        lvl(d(49, 2), d(200, 0)),
        lvl(d(48, 2), d(300, 0)),
    ];
    book.asks = vec![
        lvl(d(51, 2), d(100, 0)),
        lvl(d(52, 2), d(200, 0)),
        lvl(d(53, 2), d(300, 0)),
    ];
    book
}

#[test]
fn test_best_bid_ask() {
    let book = make_book();
    assert_eq!(book.best_bid().unwrap().price, d(50, 2));
    assert_eq!(book.best_ask().unwrap().price, d(51, 2));
}

#[test]
fn test_mid_price() {
    let book = make_book();
    assert_eq!(book.mid_price(), Some(d(505, 3)));
}

#[test]
fn test_spread() {
    let book = make_book();
    assert_eq!(book.spread(), Some(d(1, 2)));
}

#[test]
fn test_depth() {
    let book = make_book();
    assert_eq!(book.bid_depth(), d(600, 0));
    assert_eq!(book.ask_depth(), d(600, 0));
}

#[test]
fn test_vwap_buy() {
    let book = make_book();
    assert_eq!(book.vwap_buy(d(50, 0)), Some(d(51, 2)));
    let vwap = book.vwap_buy(d(150, 0)).unwrap();
    assert!(vwap > d(51, 2) && vwap < d(52, 2));
}

#[test]
fn test_vwap_insufficient() {
    let book = make_book();
    assert_eq!(book.vwap_buy(d(1000, 0)), None);
}

#[test]
fn test_imbalance() {
    let book = make_book();
    assert_eq!(book.imbalance(), Some(d(0, 0)));
    let mut book2 = book.clone();
    book2.bids.push(lvl(d(47, 2), d(400, 0)));
    let imb = book2.imbalance().unwrap();
    assert!(imb > Decimal::zero());
}

#[test]
fn vwap_exact_value_over_two_levels() {
    // 100 * 0.51 + 50 * 0.52 = 77; 77 / 150 = 0.513333333 (nine digits, truncated)
    let book = make_book();
    assert_eq!(book.vwap_buy(d(150, 0)), Some(Decimal { raw: 513_333_333 }));
}

#[test]
fn vwap_sell_walks_bids() {
    let book = make_book();
    // 100 * 0.50 + 100 * 0.49 = 99; 99 / 200 = 0.495
    assert_eq!(book.vwap_sell(d(200, 0)), Some(d(495, 3)));
    assert_eq!(book.vwap_sell(d(601, 0)), None);
}

#[test]
fn vwap_buy_never_below_best_ask() {
    let book = make_book();
    for size in [1i64, 99, 100, 101, 300, 600] {
        let v = book.vwap_buy(d(size, 0)).unwrap();
        assert!(v >= book.best_ask().unwrap().price);
    }
    // a tiny size still pays at least the best ask
    let v = book.vwap_buy(Decimal { raw: 1 }).unwrap();
    assert!(v >= d(51, 2));
}

#[test]
fn depth_to_price_filters_levels() {
    let book = make_book();
    assert_eq!(book.bid_depth_to_price(d(49, 2)), d(300, 0));
    assert_eq!(book.ask_depth_to_price(d(52, 2)), d(300, 0));
    assert_eq!(book.ask_depth_to_price(d(50, 2)), d(0, 0));
}

#[test]
fn spread_bps_of_book() {
    let book = make_book();
    // 0.01 * 10000 / 0.505 = 198.019801980
    assert_eq!(book.spread_bps(), Some(Decimal { raw: 198_019_801_980 }));
}

#[test]
fn empty_book_has_no_metrics() {
    let book = OrderBook::new("t".to_string());
    assert!(book.best_bid().is_none());
    assert!(book.best_ask().is_none());
    assert_eq!(book.mid_price(), None);
    assert_eq!(book.spread(), None);
    assert_eq!(book.spread_bps(), None);
    assert_eq!(book.imbalance(), None);
    assert_eq!(book.vwap_buy(d(1, 0)), None);
    assert_eq!(book.bid_size(), Decimal::zero());
    assert_eq!(book.ask_size(), Decimal::zero());
}

#[test]
fn snapshot_keeps_ladders_ordered() {
    let mut book = OrderBook::new("t".to_string());
    // crossed book: refused, left unchanged
    assert!(!book.apply_snapshot(vec![lvl(d(55, 2), d(1, 0))], vec![lvl(d(50, 2), d(1, 0))], 5, None));
    assert!(book.bids.is_empty());
    // bids not descending: refused
    assert!(!book.apply_snapshot(vec![lvl(d(40, 2), d(1, 0)), lvl(d(45, 2), d(1, 0))], vec![], 5, None));
    // zero size: refused
    assert!(!book.apply_snapshot(vec![lvl(d(40, 2), d(0, 0))], vec![], 5, None));
    // valid
    assert!(book.apply_snapshot(vec![lvl(d(45, 2), d(1, 0))], vec![lvl(d(55, 2), d(2, 0))], 7, Some("h".to_string())));
    assert_eq!(book.timestamp, 7);
    assert_eq!(book.ask_size(), d(2, 0));
}

#[test]
fn identical_snapshots_leave_metrics_unchanged() {
    let mut book = OrderBook::new("t".to_string());
    let bids = vec![lvl(d(45, 2), d(100, 0)), lvl(d(44, 2), d(50, 0))];
    let asks = vec![lvl(d(55, 2), d(100, 0))];
    assert!(book.apply_snapshot(bids.clone(), asks.clone(), 1, None));
    let first = (book.mid_price(), book.spread(), book.imbalance(), book.bid_depth(), book.vwap_buy(d(10, 0)));
    assert!(book.apply_snapshot(bids, asks, 2, None));
    let second = (book.mid_price(), book.spread(), book.imbalance(), book.bid_depth(), book.vwap_buy(d(10, 0)));
    assert_eq!(first, second);
}

#[test]
fn hub_tracks_books_and_emits_events() {
    let mut hub = MarketDataHub::new(16);
    hub.init_book("a");
    hub.init_book("a");
    assert_eq!(hub.book_count(), 1);
    assert_eq!(hub.capacity(), 16);
    let snap = BookSnapshot {
        asset_id: "b".to_string(),
        bids: vec![lvl(d(40, 2), d(10, 0))],
        asks: vec![lvl(d(60, 2), d(10, 0))],
        timestamp: 3,
        hash: None,
    };
    let ev = hub.process_book_update(snap);
    match ev {
        Some(MarketEvent::BookUpdate { token_id, book }) => {
            assert_eq!(token_id, "b");
            assert_eq!(book.mid_price(), Some(d(5, 1)));
        }
        _ => panic!("expected a book update"),
    }
    assert_eq!(hub.book_count(), 2);
    assert_eq!(hub.get_book("b").unwrap().timestamp, 3);
    assert!(hub.get_book("zzz").is_none());
    let bad = BookSnapshot {
        asset_id: "b".to_string(),
        bids: vec![lvl(d(70, 2), d(10, 0))],
        asks: vec![lvl(d(60, 2), d(10, 0))],
        timestamp: 4,
        hash: None,
    };
    assert!(hub.process_book_update(bad).is_none());
    assert_eq!(hub.get_book("b").unwrap().timestamp, 3);
}

#[test]
fn book_update_marks_position_at_mid() {
    let mut state = EngineState::new(0, false);
    let mut hub = MarketDataHub::new(8);
    let mut positions = PositionTracker::new();
    let mut p = pmengine::position::Position::new("b".to_string());
    p.size = d(10, 0);
    p.avg_entry_price = d(4, 1);
    assert!(positions.set_position(p));
    let snap = BookSnapshot {
        asset_id: "b".to_string(),
        bids: vec![lvl(d(40, 2), d(10, 0))],
        asks: vec![lvl(d(60, 2), d(10, 0))],
        timestamp: 3,
        hash: None,
    };
    assert!(handle_book_update(&mut state, &mut hub, &mut positions, snap).is_some());
    assert_eq!(state.ws_update_count, 1);
    let pos = positions.get("b").unwrap();
    assert_eq!(pos.last_price, Some(d(5, 1)));
    // 10 * (0.5 - 0.4) = 1
    assert_eq!(pos.unrealized_pnl, d(1, 0));
}

#[test]
fn imbalance_keeps_sign_of_tiny_difference() {
    let mut book = OrderBook::new("t".to_string());
    assert!(book.apply_snapshot(
        vec![lvl(d(40, 2), Decimal { raw: 1_000_000_001 })],
        vec![lvl(d(60, 2), d(1, 0))],
        1,
        None
    ));
    assert_eq!(book.imbalance(), Some(Decimal { raw: 1 }));
}
