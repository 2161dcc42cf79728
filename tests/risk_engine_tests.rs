use pmengine::decimal::Decimal;
use pmengine::engine::{finish_submission, handle_fill, plan_signal, EngineState, SignalAction, TickAction};
use pmengine::order::{Execution, OrderManager, OrderStatus, Side};
use pmengine::position::{Fill, Position, PositionTracker};
use pmengine::risk::{RiskCheckResult, RiskLimits, RiskManager};
use pmengine::runtime::{strategy_by_name, StrategyKind, StrategyRuntime};
use pmengine::strategy::{Signal, Urgency};

fn d(num: i64, scale: u32) -> Decimal {
    Decimal::new(num, scale)
}

fn buy(token: &str, price: Decimal, size: Decimal) -> Signal {
    Signal::Buy { token_id: token.to_string(), price, size, urgency: Urgency::Low }
}

fn limits(max_pos: i64, max_total: i64, max_loss: i64, max_order: i64) -> RiskLimits {
    RiskLimits {
        max_position_size: d(max_pos, 0),
        max_total_exposure: d(max_total, 0),
        max_loss: d(max_loss, 0),
        max_open_orders: 10,
        max_order_size: d(max_order, 0),
    }
}

#[test]
fn default_limits() {
    let l = RiskLimits::default();
    assert_eq!(l.max_position_size, d(50, 0));
    assert_eq!(l.max_total_exposure, d(50, 0));
    assert_eq!(l.max_loss, d(25, 0));
    assert_eq!(l.max_open_orders, 10);
    assert_eq!(l.max_order_size, d(25, 0));
}

#[test]
fn exposure_race_second_signal_reduced() {
    let mut risk = RiskManager::new(limits(1000, 50, 25, 1000));
    let positions = PositionTracker::new();
    // notional 30 each: 0.5 x 60
    let s1 = buy("a", d(5, 1), d(60, 0));
    let s2 = buy("b", d(5, 1), d(60, 0));
    match plan_signal(&mut risk, &positions, &s1) {
        SignalAction::Submit { signal, reservation } => {
            match signal {
                Signal::Buy { size, .. } => assert_eq!(size, d(60, 0)),
                _ => panic!("expected a buy"),
            }
            assert!(finish_submission(&mut risk, reservation, Some("o1".to_string())));
        }
        _ => panic!("first signal should be submitted"),
    }
    assert_eq!(risk.current_exposure(&positions), d(30, 0));
    match risk.check_signal(&s2, &positions) {
        RiskCheckResult::Reduced(Signal::Buy { size, .. }, _) => assert_eq!(size, d(40, 0)),
        other => panic!("expected a reduction, got {:?}", other),
    }
    match plan_signal(&mut risk, &positions, &s2) {
        SignalAction::Submit { signal: Signal::Buy { price, size, .. }, .. } => {
            // reduced to notional 20
            assert_eq!(price.mul(size), d(20, 0));
        }
        _ => panic!("second signal should be submitted reduced"),
    }
    assert_eq!(risk.current_exposure(&positions), d(50, 0));
    assert_eq!(risk.remaining_capacity(&positions), d(0, 0));
    // a third is rejected outright
    assert!(matches!(plan_signal(&mut risk, &positions, &buy("c", d(5, 1), d(2, 0))), SignalAction::Skip));
}

#[test]
fn order_size_limit_reduces() {
    let risk = RiskManager::new(limits(1000, 1000, 25, 25));
    let positions = PositionTracker::new();
    match risk.check_signal(&buy("a", d(5, 1), d(100, 0)), &positions) {
        RiskCheckResult::Reduced(Signal::Buy { size, .. }, _) => assert_eq!(size, d(50, 0)),
        other => panic!("expected a reduction, got {:?}", other),
    }
}

#[test]
fn position_limit_rejects_and_reduces() {
    let risk = RiskManager::new(limits(50, 1000, 25, 1000));
    let mut positions = PositionTracker::new();
    let mut p = Position::new("a".to_string());
    p.size = d(100, 0);
    p.avg_entry_price = d(5, 1);
    assert!(positions.set_position(p));
    // at the limit already: 100 * 0.5 = 50
    assert!(matches!(risk.check_signal(&buy("a", d(5, 1), d(10, 0)), &positions), RiskCheckResult::Rejected(_)));
    // another token: 0.5 * 120 = 60 > 50, reduced to 100 shares
    match risk.check_signal(&buy("b", d(5, 1), d(120, 0)), &positions) {
        RiskCheckResult::Reduced(Signal::Buy { size, .. }, _) => assert_eq!(size, d(100, 0)),
        other => panic!("expected a reduction, got {:?}", other),
    }
}

#[test]
fn halted_rejects_and_holds_pass() {
    let mut risk = RiskManager::new(limits(50, 50, 25, 25));
    let positions = PositionTracker::new();
    assert!(matches!(risk.check_signal(&Signal::Hold, &positions), RiskCheckResult::Approved(Signal::Hold)));
    risk.trigger_circuit_breaker("test");
    assert!(risk.is_halted());
    assert!(matches!(risk.check_signal(&Signal::Hold, &positions), RiskCheckResult::Rejected(_)));
    risk.reset_circuit_breaker();
    assert!(!risk.is_halted());
}

#[test]
fn invalid_order_rejected() {
    let risk = RiskManager::new(limits(50, 50, 25, 25));
    let positions = PositionTracker::new();
    assert!(matches!(risk.check_signal(&buy("a", d(0, 0), d(1, 0)), &positions), RiskCheckResult::Rejected(_)));
    assert!(matches!(risk.check_signal(&buy("a", d(5, 1), d(0, 0)), &positions), RiskCheckResult::Rejected(_)));
}

#[test]
fn circuit_breaker_trips_on_loss() {
    let mut risk = RiskManager::new(limits(1000, 1000, 25, 1000));
    let mut positions = PositionTracker::new();
    let mut p = Position::new("a".to_string());
    p.realized_pnl = d(-20, 0);
    assert!(positions.set_position(p));
    risk.check_pnl(&positions);
    assert!(!risk.is_halted());
    let mut p = Position::new("b".to_string());
    p.realized_pnl = d(-6, 0);
    assert!(positions.set_position(p));
    risk.check_pnl(&positions);
    assert!(risk.is_halted());
}

#[test]
fn reservation_lifecycle() {
    let mut risk = RiskManager::new(limits(1000, 100, 25, 1000));
    let positions = PositionTracker::new();
    let r1 = risk.reserve_exposure("a", d(40, 0), &positions).unwrap();
    let r2 = risk.reserve_exposure("b", d(40, 0), &positions).unwrap();
    assert!(risk.reserve_exposure("c", d(30, 0), &positions).is_none());
    assert_eq!(risk.open_order_notional(), d(80, 0));
    assert!(risk.confirm_reservation(r1, "order-1"));
    assert_eq!(risk.total_open_orders(), 1);
    assert_eq!(risk.current_exposure(&positions), d(80, 0));
    assert!(risk.release_reservation(r2));
    assert!(!risk.release_reservation(r2));
    assert_eq!(risk.current_exposure(&positions), d(40, 0));
    assert!(risk.order_closed("order-1"));
    assert!(!risk.order_closed("order-1"));
    assert_eq!(risk.current_exposure(&positions), d(0, 0));
    assert!(risk.order_placed("order-2", "a", d(10, 0), &positions).is_some());
    assert_eq!(risk.total_open_orders(), 1);
}

#[test]
fn failed_submission_releases() {
    let mut risk = RiskManager::new(limits(1000, 100, 25, 1000));
    let positions = PositionTracker::new();
    match plan_signal(&mut risk, &positions, &buy("a", d(5, 1), d(10, 0))) {
        SignalAction::Submit { reservation, .. } => {
            assert_eq!(risk.current_exposure(&positions), d(5, 0));
            assert!(finish_submission(&mut risk, reservation, None));
            assert_eq!(risk.current_exposure(&positions), d(0, 0));
        }
        _ => panic!("expected a submission"),
    }
}

#[test]
fn signal_actions_for_non_orders() {
    let mut risk = RiskManager::new(RiskLimits::default());
    let positions = PositionTracker::new();
    assert!(matches!(plan_signal(&mut risk, &positions, &Signal::Hold), SignalAction::Skip));
    assert!(matches!(
        plan_signal(&mut risk, &positions, &Signal::Shutdown { reason: "done".to_string() }),
        SignalAction::Shutdown
    ));
    match plan_signal(&mut risk, &positions, &Signal::Cancel { token_id: "x".to_string() }) {
        SignalAction::Cancel(t) => assert_eq!(t, "x"),
        _ => panic!("expected a cancel"),
    }
}

#[test]
fn warmup_suppresses_trading() {
    let mut state = EngineState::new(0, false);
    let mut risk = RiskManager::new(RiskLimits::default());
    let positions = PositionTracker::new();
    for _ in 0..99 {
        state.note_book_update();
    }
    assert_eq!(state.begin_tick(&mut risk, &positions), TickAction::Warmup);
    state.note_book_update();
    assert_eq!(state.begin_tick(&mut risk, &positions), TickAction::Trade);
    let mut skipping = EngineState::new(0, true);
    assert_eq!(skipping.begin_tick(&mut risk, &positions), TickAction::Trade);
}

#[test]
fn tick_limit_and_halt() {
    let mut state = EngineState::new(2, true);
    let mut risk = RiskManager::new(RiskLimits::default());
    let positions = PositionTracker::new();
    assert_eq!(state.begin_tick(&mut risk, &positions), TickAction::Trade);
    assert_eq!(state.begin_tick(&mut risk, &positions), TickAction::Shutdown);
    let mut state = EngineState::new(0, true);
    risk.trigger_circuit_breaker("test");
    assert_eq!(state.begin_tick(&mut risk, &positions), TickAction::Halted);
}

#[test]
fn fill_updates_position_and_closes_reservation() {
    let mut risk = RiskManager::new(limits(1000, 100, 25, 1000));
    let mut positions = PositionTracker::new();
    let id = risk.reserve_exposure("a", d(5, 0), &positions).unwrap();
    assert!(risk.confirm_reservation(id, "o1"));
    let f = Fill {
        order_id: "o1".to_string(),
        token_id: "a".to_string(),
        is_buy: true,
        price: d(5, 1),
        size: d(10, 0),
        timestamp: 0,
        fee: Decimal::zero(),
    };
    assert!(handle_fill(&mut positions, &mut risk, &f, Some(d(6, 1))));
    assert_eq!(risk.open_order_notional(), d(0, 0));
    let p = positions.get("a").unwrap();
    assert_eq!(p.size, d(10, 0));
    assert_eq!(p.unrealized_pnl, d(1, 0));
    assert_eq!(risk.current_exposure(&positions), d(6, 0));
}

#[test]
fn order_manager_lifecycle() {
    let mut om = OrderManager::new(false);
    assert!(om.record_placed("o1".to_string(), "a".to_string(), true, d(5, 1), d(10, 0), 0));
    assert!(!om.record_placed("o1".to_string(), "a".to_string(), true, d(5, 1), d(10, 0), 0));
    assert!(om.record_placed("o2".to_string(), "b".to_string(), false, d(6, 1), d(10, 0), 0));
    match om.execute(&Signal::Cancel { token_id: "a".to_string() }) {
        Execution::Cancel(ids) => assert_eq!(ids, vec!["o1".to_string()]),
        _ => panic!("expected cancels"),
    }
    match om.execute(&buy("a", d(4, 1), d(3, 0))) {
        Execution::Place { side, price, size, .. } => {
            assert_eq!(side, Side::Buy);
            assert_eq!(price, d(4, 1));
            assert_eq!(size, d(3, 0));
        }
        _ => panic!("expected a placement"),
    }
    let f = om.process_fill("o1", d(5, 1), d(4, 0), 9).unwrap();
    assert_eq!(f.token_id, "a");
    assert!(f.is_buy);
    assert_eq!(om.get_order("o1").unwrap().status, OrderStatus::PartiallyFilled);
    assert_eq!(om.get_order("o1").unwrap().remaining(), d(6, 0));
    assert!(om.process_fill("o1", d(5, 1), d(7, 0), 9).is_none());
    assert!(om.process_fill("o1", d(5, 1), d(6, 0), 9).is_some());
    assert_eq!(om.get_order("o1").unwrap().status, OrderStatus::Filled);
    assert_eq!(om.active_orders().len(), 1);
    assert!(om.cancel_order("o2"));
    assert!(om.active_orders_for_token("b").is_empty());
    assert!(!om.cancel_order("o2"));
    let mut dry = OrderManager::new(true);
    assert!(dry.is_dry_run());
    assert!(!dry.record_placed("x".to_string(), "a".to_string(), true, d(5, 1), d(1, 0), 0));
}

#[test]
fn runtime_concatenates_in_registration_order() {
    let mut rt = StrategyRuntime::new();
    let names = vec!["order_test".to_string(), "sure_bets".to_string()];
    assert!(rt.load(&names).is_ok());
    assert_eq!(rt.len(), 2);
    assert!(rt.requires_market_discovery());
    assert!(rt.load(&vec!["nope".to_string()]).is_err());
    assert_eq!(rt.len(), 2);
    let ctx = pmengine::strategy::StrategyContext {
        timestamp: 0,
        order_books: vec![],
        positions: PositionTracker::new(),
        markets: vec![],
        unrealized_pnl: d(0, 0),
        realized_pnl: d(0, 0),
        usdc_balance: d(0, 0),
    };
    let s = rt.tick(&ctx);
    assert_eq!(s.len(), 2);
    assert!(matches!(s[0], Signal::Buy { .. }));
    assert!(matches!(s[1], Signal::Hold));
    let s = rt.tick(&ctx);
    assert!(matches!(s[0], Signal::Hold));
    match strategy_by_name("market_maker") {
        Some(StrategyKind::MarketMaker(m)) => assert_eq!(m.id(), "market_maker"),
        _ => panic!("expected the market maker"),
    }
}

#[test]
fn reduction_to_nothing_is_rejected() {
    let risk = RiskManager::new(RiskLimits {
        max_position_size: d(1000, 0),
        max_total_exposure: Decimal { raw: 1 },
        max_loss: d(25, 0),
        max_open_orders: 10,
        max_order_size: d(1000, 0),
    });
    let positions = PositionTracker::new();
    assert!(matches!(risk.check_signal(&buy("a", d(2, 0), d(1, 0)), &positions), RiskCheckResult::Rejected(_)));
    let tiny_order = RiskManager::new(RiskLimits {
        max_position_size: d(1000, 0),
        max_total_exposure: d(1000, 0),
        max_loss: d(25, 0),
        max_open_orders: 10,
        max_order_size: Decimal { raw: 1 },
    });
    assert!(matches!(tiny_order.check_signal(&buy("a", d(2, 0), d(1, 0)), &positions), RiskCheckResult::Rejected(_)));
}

#[test]
fn order_placed_respects_exposure_limit() {
    let mut risk = RiskManager::new(limits(100, 50, 25, 50));
    let positions = PositionTracker::new();
    assert!(risk.order_placed("o1", "A", d(30, 0), &positions).is_some());
    assert_eq!(risk.current_exposure(&positions), d(30, 0));
    assert_eq!(risk.remaining_capacity(&positions), d(20, 0));
    assert!(risk.order_placed("o2", "B", d(21, 0), &positions).is_none());
    match risk.check_signal(&buy("B", d(5, 1), d(60, 0)), &positions) {
        RiskCheckResult::Reduced(Signal::Buy { size, .. }, _) => assert_eq!(size, d(40, 0)),
        other => panic!("expected a reduction, got {:?}", other),
    }
}

#[test]
fn limits_from_config_halve_total_for_orders() {
    let l = RiskLimits::from_config(d(100, 0), d(60, 0));
    assert_eq!(l.max_order_size, d(30, 0));
    assert_eq!(l.max_position_size, d(100, 0));
    assert_eq!(l.max_loss, d(25, 0));
}

#[test]
fn load_reports_first_unknown_name() {
    let mut rt = StrategyRuntime::new();
    match rt.load(&vec!["sure_bets".to_string(), "bogus".to_string(), "worse".to_string()]) {
        Err(pmengine::errors::EngineError::UnknownStrategy(n)) => assert_eq!(n, "bogus"),
        _ => panic!("expected an unknown strategy"),
    }
    assert_eq!(rt.len(), 0);
}

#[test]
fn reconnect_restarts_warmup() {
    let mut state = EngineState::new(0, false);
    let mut risk = RiskManager::new(RiskLimits::default());
    let positions = PositionTracker::new();
    for _ in 0..100 {
        state.note_book_update();
    }
    assert_eq!(state.begin_tick(&mut risk, &positions), TickAction::Trade);
    state.reconnect();
    assert_eq!(state.begin_tick(&mut risk, &positions), TickAction::Warmup);
}
