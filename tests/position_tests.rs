use pmengine::decimal::Decimal;
use pmengine::position::{Fill, Position, PositionTracker};

fn d(num: i64, scale: u32) -> Decimal {
    Decimal::new(num, scale)
}

fn fill(id: &str, is_buy: bool, price: Decimal, size: Decimal) -> Fill {
    Fill {
        order_id: id.to_string(),
        token_id: "token1".to_string(),
        is_buy,
        price,
        size,
        timestamp: 0,
        fee: Decimal::zero(),
    }
}

#[test]
fn test_position_long() {
    let mut pos = Position::new("token1".to_string());
    pos.apply_fill(&fill("1", true, d(50, 2), d(10, 0)));
    assert_eq!(pos.size, d(10, 0));
    assert_eq!(pos.avg_entry_price, d(50, 2));
    pos.apply_fill(&fill("2", false, d(60, 2), d(5, 0)));
    assert_eq!(pos.size, d(5, 0));
    assert_eq!(pos.realized_pnl, d(50, 2));
}

#[test]
fn round_trip_buy_then_sell() {
    let mut pos = Position::new("token1".to_string());
    pos.apply_fill(&fill("1", true, d(40, 2), d(25, 0)));
    assert_eq!(pos.size, d(25, 0));
    assert_eq!(pos.avg_entry_price, d(40, 2));
    assert_eq!(pos.realized_pnl, Decimal::zero());
    pos.apply_fill(&fill("2", false, d(46, 2), d(25, 0)));
    assert_eq!(pos.size, Decimal::zero());
    // 25 * 0.06 = 1.5
    assert_eq!(pos.realized_pnl, d(15, 1));
}

#[test]
fn averaging_into_long() {
    let mut pos = Position::new("token1".to_string());
    pos.apply_fill(&fill("1", true, d(40, 2), d(10, 0)));
    pos.apply_fill(&fill("2", true, d(60, 2), d(30, 0)));
    // (0.4 * 10 + 0.6 * 30) / 40 = 0.55
    assert_eq!(pos.size, d(40, 0));
    assert_eq!(pos.avg_entry_price, d(55, 2));
}

#[test]
fn sell_through_zero_flips_short() {
    let mut pos = Position::new("token1".to_string());
    pos.apply_fill(&fill("1", true, d(50, 2), d(10, 0)));
    pos.apply_fill(&fill("2", false, d(70, 2), d(15, 0)));
    assert_eq!(pos.size, d(-5, 0));
    assert_eq!(pos.avg_entry_price, d(70, 2));
    // 10 * (0.7 - 0.5) = 2
    assert_eq!(pos.realized_pnl, d(2, 0));
}

#[test]
fn buy_through_zero_flips_long() {
    let mut pos = Position::new("token1".to_string());
    pos.apply_fill(&fill("1", false, d(60, 2), d(10, 0)));
    assert_eq!(pos.size, d(-10, 0));
    assert_eq!(pos.avg_entry_price, d(60, 2));
    pos.apply_fill(&fill("2", true, d(50, 2), d(12, 0)));
    assert_eq!(pos.size, d(2, 0));
    assert_eq!(pos.avg_entry_price, d(50, 2));
    // 10 * (0.6 - 0.5) = 1
    assert_eq!(pos.realized_pnl, d(1, 0));
}

#[test]
fn averaging_into_short() {
    let mut pos = Position::new("token1".to_string());
    pos.apply_fill(&fill("1", false, d(60, 2), d(10, 0)));
    pos.apply_fill(&fill("2", false, d(30, 2), d(10, 0)));
    assert_eq!(pos.size, d(-20, 0));
    assert_eq!(pos.avg_entry_price, d(45, 2));
}

#[test]
fn mark_to_market() {
    let mut pos = Position::new("token1".to_string());
    pos.apply_fill(&fill("1", false, d(60, 2), d(10, 0)));
    pos.update_price(d(50, 2));
    // short 10 from 0.6 marked at 0.5: +1
    assert_eq!(pos.unrealized_pnl, d(1, 0));
    assert_eq!(pos.notional(), d(5, 0));
    let mut flat = Position::new("x".to_string());
    flat.update_price(d(50, 2));
    assert_eq!(flat.unrealized_pnl, Decimal::zero());
}

#[test]
fn tracker_totals() {
    let mut t = PositionTracker::new();
    assert!(t.apply_fill(&fill("1", true, d(50, 2), d(10, 0))));
    let mut f2 = fill("2", true, d(20, 2), d(5, 0));
    f2.token_id = "token2".to_string();
    assert!(t.apply_fill(&f2));
    assert!(t.update_price("token1", d(60, 2)));
    assert!(!t.update_price("missing", d(60, 2)));
    // 10 * 0.6 + 5 * 0.2 = 7
    assert_eq!(t.total_notional(), d(7, 0));
    assert_eq!(t.total_unrealized_pnl(), d(1, 0));
    assert!(t.apply_fill(&fill("3", false, d(60, 2), d(10, 0))));
    assert_eq!(t.total_realized_pnl(), d(1, 0));
    assert_eq!(t.active_positions().len(), 1);
    assert_eq!(t.all_positions().len(), 2);
    // a closed position carries no unrealized P&L
    assert_eq!(t.get("token1").unwrap().unrealized_pnl, Decimal::zero());
    // a fill with no size is refused
    assert!(!t.apply_fill(&fill("4", true, d(60, 2), Decimal::zero())));
}

#[test]
fn closing_fill_clears_unrealized() {
    let mut pos = Position::new("token1".to_string());
    pos.apply_fill(&fill("1", true, d(50, 2), d(10, 0)));
    pos.update_price(d(60, 2));
    assert_eq!(pos.unrealized_pnl, d(1, 0));
    pos.apply_fill(&fill("2", false, d(55, 2), d(10, 0)));
    assert_eq!(pos.size, Decimal::zero());
    assert_eq!(pos.unrealized_pnl, Decimal::zero());
    // partial close is re-marked at the last price: 5 * (0.6 - 0.5)
    let mut pos = Position::new("token1".to_string());
    pos.apply_fill(&fill("1", true, d(50, 2), d(10, 0)));
    pos.update_price(d(60, 2));
    pos.apply_fill(&fill("2", false, d(55, 2), d(5, 0)));
    assert_eq!(pos.unrealized_pnl, d(5, 1));
}

#[test]
fn update_prices_marks_listed_tokens() {
    let mut t = PositionTracker::new();
    assert!(t.apply_fill(&fill("1", true, d(50, 2), d(10, 0))));
    t.update_prices(&vec![("token1".to_string(), d(70, 2)), ("other".to_string(), d(10, 2))]);
    assert_eq!(t.get("token1").unwrap().unrealized_pnl, d(2, 0));
    assert!(t.get("other").is_none());
}
