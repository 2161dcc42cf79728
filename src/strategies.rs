//! The strategies the engine can run.

pub mod dynamic_market_maker;
pub mod market_maker;
pub mod order_test;
pub mod spread_watcher;
pub mod sure_bets;
