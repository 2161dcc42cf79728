//! A trading engine for binary-outcome prediction markets: full-depth
//! order books, average-cost positions, pre-trade risk with reserved
//! exposure, the strategies, and the decisions of the event loop, all
//! with verified contracts. Also the tenant and token helpers of the
//! authenticating proxy in front of the exchange.

pub mod decimal;
pub mod orderbook;
pub mod position;
pub mod strategy;
pub mod strategies;
pub mod risk;
pub mod order;
pub mod engine;
pub mod proxy;
pub mod gamma;
pub mod errors;
pub mod runtime;
pub mod client;
