use pmengine::decimal::Decimal;
use pmengine::orderbook::{Level, OrderBook};
use pmengine::position::{Position, PositionTracker};
use pmengine::strategies::dynamic_market_maker::DynamicMarketMaker;
use pmengine::strategies::order_test::OrderTest;
use pmengine::strategies::spread_watcher::SpreadWatcher;
use pmengine::strategies::sure_bets::SureBets;
use pmengine::strategy::{MarketInfo, Signal, StrategyContext, Urgency};

const NOW_MS: i64 = 1_700_000_000_000;

fn d(num: i64, scale: u32) -> Decimal {
    Decimal::new(num, scale)
}

fn create_order_book(token_id: &str, best_bid: Decimal, best_ask: Decimal) -> OrderBook {
    let mut book = OrderBook::new(token_id.to_string());
    book.bids = vec![Level { price: best_bid, size: d(100, 0) }];
    book.asks = vec![Level { price: best_ask, size: d(100, 0) }];
    book
}

fn create_market_info(token_id: &str, hours_until_expiry: i64, liquidity: i64) -> MarketInfo {
    MarketInfo::with_liquidity(
        format!("Test market {}", token_id),
        "Yes".to_string(),
        format!("test-market-{}", token_id),
        Some(NOW_MS + hours_until_expiry * 3_600_000),
        Some(d(liquidity, 0)),
        NOW_MS,
    )
}

fn create_context_with_markets(markets_data: Vec<(&str, Decimal, Decimal, i64, i64, Decimal)>) -> StrategyContext {
    let mut order_books = Vec::new();
    let mut markets = Vec::new();
    let mut positions = PositionTracker::new();
    for (token_id, bid, ask, hours, liquidity, position) in markets_data {
        order_books.push(create_order_book(token_id, bid, ask));
        markets.push((token_id.to_string(), create_market_info(token_id, hours, liquidity)));
        if position != d(0, 0) {
            let mut pos = Position::new(token_id.to_string());
            pos.size = position;
            pos.avg_entry_price = d(50, 2);
            assert!(positions.set_position(pos));
        }
    }
    StrategyContext {
        timestamp: NOW_MS,
        order_books,
        positions,
        markets,
        unrealized_pnl: d(0, 0),
        realized_pnl: d(0, 0),
        usdc_balance: d(10000, 0),
    }
}

fn count_signal_types(signals: &[Signal]) -> (usize, usize, usize, usize) {
    let mut cancels = 0;
    let mut buys = 0;
    let mut sells = 0;
    let mut holds = 0;
    for signal in signals {
        match signal {
            Signal::Cancel { .. } => cancels += 1,
            Signal::Buy { .. } => buys += 1,
            Signal::Sell { .. } => sells += 1,
            Signal::Hold => holds += 1,
            _ => {}
        }
    }
    (cancels, buys, sells, holds)
}

#[test]
fn test_dynamic_market_maker_test_filters_out_low_liquidity() {
    let mut strategy = DynamicMarketMaker::new();
    let ctx = create_context_with_markets(vec![("token1", d(68, 2), d(72, 2), 48, 5000, d(0, 0))]);
    let signals = strategy.on_tick(&ctx);
    let (_, _, _, holds) = count_signal_types(&signals);
    assert_eq!(holds, 1, "Should hold for low liquidity");
}

#[test]
fn test_filters_out_low_price() {
    let mut strategy = DynamicMarketMaker::new();
    let ctx = create_context_with_markets(vec![("token1", d(10, 2), d(15, 2), 48, 50000, d(0, 0))]);
    let signals = strategy.on_tick(&ctx);
    let (_, _, _, holds) = count_signal_types(&signals);
    assert_eq!(holds, 1, "Should hold for low price");
}

#[test]
fn test_filters_out_high_price() {
    let mut strategy = DynamicMarketMaker::new();
    let ctx = create_context_with_markets(vec![("token1", d(85, 2), d(90, 2), 48, 50000, d(0, 0))]);
    let signals = strategy.on_tick(&ctx);
    let (_, _, _, holds) = count_signal_types(&signals);
    assert_eq!(holds, 1, "Should hold for high price");
}

#[test]
fn test_filters_out_near_expiry() {
    let mut strategy = DynamicMarketMaker::new();
    let ctx = create_context_with_markets(vec![("token1", d(68, 2), d(72, 2), 12, 50000, d(0, 0))]);
    let signals = strategy.on_tick(&ctx);
    let (_, _, _, holds) = count_signal_types(&signals);
    assert_eq!(holds, 1, "Should hold for near expiry");
}

#[test]
fn test_dynamic_market_maker_test_no_markets() {
    let mut strategy = DynamicMarketMaker::new();
    let ctx = create_context_with_markets(vec![]);
    let signals = strategy.on_tick(&ctx);
    let (_, _, _, holds) = count_signal_types(&signals);
    assert_eq!(holds, 1, "Should hold when no markets");
}

#[test]
fn test_dynamic_market_maker_test_quotes_qualifying_market() {
    let mut strategy = DynamicMarketMaker::new();
    let ctx = create_context_with_markets(vec![("token1", d(68, 2), d(72, 2), 48, 50000, d(0, 0))]);
    let signals = strategy.on_tick(&ctx);
    let (cancels, buys, sells, holds) = count_signal_types(&signals);
    assert_eq!(cancels, 1, "Should cancel existing orders");
    assert_eq!(buys, 1, "Should place buy order");
    assert_eq!(sells, 1, "Should place sell order");
    assert_eq!(holds, 0, "Should not hold");
}

#[test]
fn dynamic_quotes_exact_prices() {
    let mut strategy = DynamicMarketMaker::new();
    let ctx = create_context_with_markets(vec![("token1", d(68, 2), d(72, 2), 48, 50000, d(0, 0))]);
    let signals = strategy.on_tick(&ctx);
    // mid 0.70, half spread 0.70 * 0.0075 = 0.00525
    match (&signals[1], &signals[2]) {
        (Signal::Buy { price: b, size: bs, .. }, Signal::Sell { price: a, size: ss, .. }) => {
            assert_eq!(*b, d(69475, 5));
            assert_eq!(*a, d(70525, 5));
            assert_eq!(*bs, d(10, 0));
            assert_eq!(*ss, d(10, 0));
        }
        _ => panic!("Expected Buy then Sell"),
    }
}

#[test]
fn test_max_position_only_sells() {
    let mut strategy = DynamicMarketMaker::new();
    let ctx = create_context_with_markets(vec![("token1", d(68, 2), d(72, 2), 48, 50000, d(75, 0))]);
    let signals = strategy.on_tick(&ctx);
    let (cancels, buys, sells, _) = count_signal_types(&signals);
    assert_eq!(cancels, 1, "Should cancel");
    assert_eq!(buys, 0, "Should not buy at max position");
    assert_eq!(sells, 1, "Should still sell");
}

#[test]
fn test_dynamic_market_maker_test_max_short_position_only_buys() {
    let mut strategy = DynamicMarketMaker::new();
    let ctx = create_context_with_markets(vec![("token1", d(68, 2), d(72, 2), 48, 50000, d(-75, 0))]);
    let signals = strategy.on_tick(&ctx);
    let (cancels, buys, sells, _) = count_signal_types(&signals);
    assert_eq!(cancels, 1, "Should cancel");
    assert_eq!(buys, 1, "Should still buy");
    assert_eq!(sells, 0, "Should not sell at max short");
}

#[test]
fn test_dynamic_market_maker_test_quotes_multiple_markets() {
    let mut strategy = DynamicMarketMaker::new();
    let ctx = create_context_with_markets(vec![
        ("token1", d(68, 2), d(72, 2), 48, 50000, d(0, 0)),
        ("token2", d(73, 2), d(77, 2), 72, 30000, d(0, 0)),
        ("token3", d(66, 2), d(70, 2), 96, 40000, d(0, 0)),
    ]);
    let signals = strategy.on_tick(&ctx);
    let (cancels, buys, sells, _) = count_signal_types(&signals);
    assert!(cancels >= 1, "Should cancel for at least 1 market");
    assert!(buys >= 1, "Should buy for at least 1 market");
    assert!(sells >= 1, "Should sell for at least 1 market");
}

#[test]
fn test_dynamic_market_maker_test_strategy_instantiation() {
    let strategy = DynamicMarketMaker::new();
    assert_eq!(strategy.id(), "dynamic_market_maker");
}

#[test]
fn test_sure_bets_test_filters_out_low_liquidity() {
    let mut strategy = SureBets::new();
    let ctx = create_context_with_markets(vec![("token1", d(68, 2), d(72, 2), 48, 250, d(0, 0))]);
    let signals = strategy.on_tick(&ctx);
    let (_, _, _, holds) = count_signal_types(&signals);
    assert_eq!(holds, 1, "Should hold for low liquidity");
}

#[test]
fn sure_bet_gate_on_liquidity_alone() {
    let mut strategy = SureBets::new();
    let ctx = create_context_with_markets(vec![("token1", d(94, 2), d(96, 2), 24, 250, d(0, 0))]);
    let signals = strategy.on_tick(&ctx);
    assert_eq!(signals.len(), 1);
    assert!(matches!(signals[0], Signal::Hold));
}

#[test]
fn test_sure_bets_test_no_markets() {
    let mut strategy = SureBets::new();
    let ctx = create_context_with_markets(vec![]);
    let signals = strategy.on_tick(&ctx);
    let (_, _, _, holds) = count_signal_types(&signals);
    assert_eq!(holds, 1, "Should hold when no markets");
}

#[test]
fn test_sure_bets_test_quotes_qualifying_market() {
    let mut strategy = SureBets::new();
    let ctx = create_context_with_markets(vec![("token1", d(94, 2), d(96, 2), 24, 1000, d(0, 0))]);
    let signals = strategy.on_tick(&ctx);
    let (_, buys, _, holds) = count_signal_types(&signals);
    assert!(buys >= 1, "Should place buy order");
    assert_eq!(holds, 0, "Should not hold");
}

#[test]
fn sure_bet_buys_at_ask_with_capped_size() {
    let mut strategy = SureBets::new();
    let ctx = create_context_with_markets(vec![("token1", d(94, 2), d(96, 2), 24, 1000, d(70, 0))]);
    let signals = strategy.on_tick(&ctx);
    assert_eq!(signals.len(), 1);
    match &signals[0] {
        Signal::Buy { token_id, price, size, urgency } => {
            assert_eq!(token_id, "token1");
            assert_eq!(*price, d(96, 2));
            // min(100 - 70, 100, 50) = 30
            assert_eq!(*size, d(30, 0));
            assert_eq!(*urgency, Urgency::Medium);
        }
        _ => panic!("Expected Buy"),
    }
    let ctx = create_context_with_markets(vec![("token1", d(94, 2), d(96, 2), 24, 1000, d(0, 0))]);
    match &strategy.on_tick(&ctx)[0] {
        Signal::Buy { size, .. } => assert_eq!(*size, d(50, 0)),
        _ => panic!("Expected Buy"),
    }
}

#[test]
fn test_sure_bets_test_quotes_multiple_markets() {
    let mut strategy = SureBets::new();
    let ctx = create_context_with_markets(vec![
        ("token1", d(94, 2), d(96, 2), 24, 1000, d(0, 0)),
        ("token2", d(95, 2), d(97, 2), 12, 2000, d(0, 0)),
        ("token3", d(93, 2), d(95, 2), 36, 1500, d(0, 0)),
    ]);
    let signals = strategy.on_tick(&ctx);
    let (_, buys, _, _) = count_signal_types(&signals);
    assert!(buys >= 1, "Should buy for at least 1 market");
}

#[test]
fn test_sure_bets_test_strategy_instantiation() {
    let strategy = SureBets::new();
    assert_eq!(strategy.id(), "sure_bets");
}

#[test]
fn test_sure_bets_creation() {
    let strategy = SureBets::new();
    assert_eq!(strategy.id(), "sure_bets");
    assert!(strategy.subscriptions().is_empty());
}

#[test]
fn spread_watcher_bids_mid_on_wide_spread() {
    let token = "41583919731714354912849507182398941127545694257513505398713274521520484370640";
    let mut w = SpreadWatcher::new();
    let ctx = create_context_with_markets(vec![(token, d(20, 2), d(80, 2), 48, 1000, d(0, 0))]);
    let signals = w.on_tick(&ctx);
    assert_eq!(signals.len(), 1);
    match &signals[0] {
        Signal::Buy { price, size, .. } => {
            assert_eq!(*price, d(5, 1));
            assert_eq!(*size, d(1, 0));
        }
        _ => panic!("Expected Buy"),
    }
    let ctx = create_context_with_markets(vec![(token, d(40, 2), d(60, 2), 48, 1000, d(0, 0))]);
    assert!(w.on_tick(&ctx).is_empty());
}

#[test]
fn order_test_places_once() {
    let mut s = OrderTest::new();
    let ctx = create_context_with_markets(vec![]);
    let first = s.on_tick(&ctx);
    match &first[0] {
        Signal::Buy { price, size, .. } => {
            assert_eq!(*price, d(1, 2));
            assert_eq!(*size, d(5, 0));
        }
        _ => panic!("Expected Buy"),
    }
    let second = s.on_tick(&ctx);
    assert!(matches!(second[0], Signal::Hold));
}
