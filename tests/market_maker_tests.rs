use pmengine::decimal::Decimal;
use pmengine::orderbook::{Level, OrderBook};
use pmengine::position::{Position, PositionTracker};
use pmengine::strategies::market_maker::MarketMaker;
use pmengine::strategy::{Signal, StrategyContext};

const TOKEN_ID: &str = "21742633143463906290569050155826241533067272736897614950488156847949938836455";

fn d(num: i64, scale: u32) -> Decimal {
    Decimal::new(num, scale)
}

fn create_order_book(best_bid: Decimal, best_ask: Decimal) -> OrderBook {
    let mut book = OrderBook::new(TOKEN_ID.to_string());
    book.bids = vec![Level { price: best_bid, size: d(100, 0) }];
    book.asks = vec![Level { price: best_ask, size: d(100, 0) }];
    book
}

fn create_context(best_bid: Decimal, best_ask: Decimal, position_size: Decimal) -> StrategyContext {
    let mut positions = PositionTracker::new();
    if position_size != d(0, 0) {
        let mut pos = Position::new(TOKEN_ID.to_string());
        pos.size = position_size;
        pos.avg_entry_price = d(50, 2);
        assert!(positions.set_position(pos));
    }
    StrategyContext {
        timestamp: 0,
        order_books: vec![create_order_book(best_bid, best_ask)],
        positions,
        markets: vec![],
        unrealized_pnl: d(0, 0),
        realized_pnl: d(0, 0),
        usdc_balance: d(1000, 0),
    }
}

fn near(a: Decimal, b: Decimal) -> bool {
    (a.raw - b.raw).abs() < d(1, 3).raw
}

#[test]
fn test_normal_market_flat_position() {
    let mut strategy = MarketMaker::new();
    let ctx = create_context(d(45, 2), d(55, 2), d(0, 0));
    let signals = strategy.on_tick(&ctx);
    assert_eq!(signals.len(), 3, "Expected 3 signals, got {}", signals.len());
    match &signals[0] {
        Signal::Cancel { token_id } => assert_eq!(token_id, TOKEN_ID),
        _ => panic!("Expected Cancel signal, got {:?}", signals[0]),
    }
    match &signals[1] {
        Signal::Buy { token_id, price, size, .. } => {
            assert_eq!(token_id, TOKEN_ID);
            assert_eq!(*size, d(10, 0));
            let expected = d(4950, 4);
            assert!(near(*price, expected), "Expected price ~{:?}, got {:?}", expected, price);
        }
        _ => panic!("Expected Buy signal, got {:?}", signals[1]),
    }
    match &signals[2] {
        Signal::Sell { token_id, price, size, .. } => {
            assert_eq!(token_id, TOKEN_ID);
            assert_eq!(*size, d(10, 0));
            let expected = d(5050, 4);
            assert!(near(*price, expected), "Expected price ~{:?}, got {:?}", expected, price);
        }
        _ => panic!("Expected Sell signal, got {:?}", signals[2]),
    }
}

#[test]
fn flat_position_quotes_exactly() {
    let mut strategy = MarketMaker::new();
    let ctx = create_context(d(45, 2), d(55, 2), d(0, 0));
    let signals = strategy.on_tick(&ctx);
    match (&signals[1], &signals[2]) {
        (Signal::Buy { price: b, .. }, Signal::Sell { price: a, .. }) => {
            assert_eq!(*b, d(4950, 4));
            assert_eq!(*a, d(5050, 4));
        }
        _ => panic!("Expected Buy then Sell"),
    }
}

#[test]
fn test_long_position_skews_quotes_down() {
    let mut strategy = MarketMaker::new();
    let ctx = create_context(d(45, 2), d(55, 2), d(50, 0));
    let signals = strategy.on_tick(&ctx);
    assert_eq!(signals.len(), 3, "Expected 3 signals, got {}", signals.len());
    match &signals[1] {
        Signal::Buy { price, .. } => {
            let expected = d(4450, 4);
            assert!(near(*price, expected), "Expected bid ~{:?}, got {:?}", expected, price);
        }
        _ => panic!("Expected Buy signal"),
    }
    match &signals[2] {
        Signal::Sell { price, .. } => {
            let expected = d(4550, 4);
            assert!(near(*price, expected), "Expected ask ~{:?}, got {:?}", expected, price);
        }
        _ => panic!("Expected Sell signal"),
    }
}

#[test]
fn test_short_position_skews_quotes_up() {
    let mut strategy = MarketMaker::new();
    let ctx = create_context(d(45, 2), d(55, 2), d(-50, 0));
    let signals = strategy.on_tick(&ctx);
    assert_eq!(signals.len(), 3, "Expected 3 signals, got {}", signals.len());
    match &signals[1] {
        Signal::Buy { price, .. } => {
            let expected = d(5450, 4);
            assert!(near(*price, expected), "Expected bid ~{:?}, got {:?}", expected, price);
        }
        _ => panic!("Expected Buy signal"),
    }
    match &signals[2] {
        Signal::Sell { price, .. } => {
            let expected = d(5550, 4);
            assert!(near(*price, expected), "Expected ask ~{:?}, got {:?}", expected, price);
        }
        _ => panic!("Expected Sell signal"),
    }
}

#[test]
fn test_max_long_position_only_sells() {
    let mut strategy = MarketMaker::new();
    let ctx = create_context(d(45, 2), d(55, 2), d(100, 0));
    let signals = strategy.on_tick(&ctx);
    assert_eq!(signals.len(), 2, "Expected 2 signals, got {}", signals.len());
    match &signals[0] {
        Signal::Cancel { .. } => {}
        _ => panic!("Expected Cancel signal"),
    }
    match &signals[1] {
        Signal::Sell { price, .. } => {
            let expected = d(4050, 4);
            assert!(near(*price, expected), "Expected ask ~{:?}, got {:?}", expected, price);
        }
        _ => panic!("Expected Sell signal, got {:?}", signals[1]),
    }
}

#[test]
fn test_market_maker_test_max_short_position_only_buys() {
    let mut strategy = MarketMaker::new();
    let ctx = create_context(d(45, 2), d(55, 2), d(-100, 0));
    let signals = strategy.on_tick(&ctx);
    assert_eq!(signals.len(), 2, "Expected 2 signals, got {}", signals.len());
    match &signals[0] {
        Signal::Cancel { .. } => {}
        _ => panic!("Expected Cancel signal"),
    }
    match &signals[1] {
        Signal::Buy { price, .. } => {
            let expected = d(5950, 4);
            assert!(near(*price, expected), "Expected bid ~{:?}, got {:?}", expected, price);
        }
        _ => panic!("Expected Buy signal, got {:?}", signals[1]),
    }
}

#[test]
fn test_near_lower_boundary_holds() {
    let mut strategy = MarketMaker::new();
    let ctx = create_context(d(2, 2), d(8, 2), d(0, 0));
    let signals = strategy.on_tick(&ctx);
    assert_eq!(signals.len(), 1, "Expected 1 signal (Hold), got {}", signals.len());
    match &signals[0] {
        Signal::Hold => {}
        _ => panic!("Expected Hold signal, got {:?}", signals[0]),
    }
}

#[test]
fn test_all_scenarios_summary() {
    let scenarios = vec![
        ("Normal market, flat", d(45, 2), d(55, 2), d(0, 0)),
        ("Long 50 shares", d(45, 2), d(55, 2), d(50, 0)),
        ("Short 50 shares", d(45, 2), d(55, 2), d(-50, 0)),
        ("Max long (100)", d(45, 2), d(55, 2), d(100, 0)),
        ("Max short (-100)", d(45, 2), d(55, 2), d(-100, 0)),
        ("Near lower boundary", d(2, 2), d(8, 2), d(0, 0)),
    ];
    for (name, bid, ask, pos) in scenarios {
        let mut strategy = MarketMaker::new();
        let ctx = create_context(bid, ask, pos);
        let signals = strategy.on_tick(&ctx);
        println!("Scenario: {} (bid={:?}, ask={:?}, pos={:?})", name, bid, ask, pos);
        for signal in &signals {
            match signal {
                Signal::Cancel { .. } => println!("  Cancel"),
                Signal::Buy { price, size, .. } => println!("  Buy @ {:?} size {:?}", price, size),
                Signal::Sell { price, size, .. } => println!("  Sell @ {:?} size {:?}", price, size),
                Signal::Hold => println!("  Hold"),
                _ => println!("  {:?}", signal),
            }
        }
    }
    println!("All scenarios completed!");
}

#[test]
fn missing_book_holds() {
    let mut strategy = MarketMaker::new();
    let mut ctx = create_context(d(45, 2), d(55, 2), d(0, 0));
    ctx.order_books.clear();
    let signals = strategy.on_tick(&ctx);
    assert_eq!(signals.len(), 1);
    assert!(matches!(signals[0], Signal::Hold));
    assert_eq!(strategy.id(), "market_maker");
    assert_eq!(strategy.subscriptions(), vec![TOKEN_ID.to_string()]);
}
