//! Error kinds of the engine's collaborators.

use vstd::prelude::*;

verus! {

/// Errors of the exchange client.
#[derive(Clone, Debug, PartialEq, Eq)]
pub enum ClientError {
    InvalidPrivateKey(String),
    AuthError(String),
    SdkError(String),
    OrderError(String),
    WebSocketError(String),
}

/// Errors of credential acquisition.
#[derive(Clone, Debug, PartialEq, Eq)]
pub enum CognitoError {
    MissingConfig(String),
    AuthFailed(String),
}

/// Errors of configuration loading.
#[derive(Clone, Debug, PartialEq, Eq)]
pub enum ConfigError {
    MissingVar(String),
    InvalidValue(String),
}

/// Errors of the engine.
#[derive(Clone, Debug, PartialEq, Eq)]
pub enum EngineError {
    ConfigError(String),
    SdkError(String),
    OrderError(String),
    WebSocketError(String),
    UnknownStrategy(String),
}

/// Errors of market discovery.
#[derive(Clone, Debug, PartialEq, Eq)]
pub enum GammaError {
    RequestError(String),
    ParseError(String),
    InvalidData(String),
}

/// Errors of order execution.
#[derive(Clone, Debug, PartialEq, Eq)]
pub enum OrderError {
    SdkError(String),
    ChannelClosed,
    InvalidOrder(String),
}

impl EngineError {
    /// A human-readable description.
    pub fn message(&self) -> (r: String)
        ensures
            r@ == match *self {
                EngineError::ConfigError(e) => "Config error: "@ + e@,
                EngineError::SdkError(e) => "SDK error: "@ + e@,
                EngineError::OrderError(e) => "Order error: "@ + e@,
                EngineError::WebSocketError(e) => "WebSocket error: "@ + e@,
                EngineError::UnknownStrategy(e) => "Unknown strategy: "@ + e@,
            },
    {
        let (mut s, e) = match self {
            EngineError::ConfigError(e) => (String::from_str("Config error: "), e),
            EngineError::SdkError(e) => (String::from_str("SDK error: "), e),
            EngineError::OrderError(e) => (String::from_str("Order error: "), e),
            EngineError::WebSocketError(e) => (String::from_str("WebSocket error: "), e),
            EngineError::UnknownStrategy(e) => (String::from_str("Unknown strategy: "), e),
        };
        s.append(e.as_str());
        s
    }
}

impl ConfigError {
    /// A human-readable description.
    pub fn message(&self) -> (r: String)
        ensures
            r@ == match *self {
                ConfigError::MissingVar(v) => "Missing environment variable: "@ + v@,
                ConfigError::InvalidValue(v) => "Invalid value for: "@ + v@,
            },
    {
        let (mut s, v) = match self {
            ConfigError::MissingVar(v) => (String::from_str("Missing environment variable: "), v),
            ConfigError::InvalidValue(v) => (String::from_str("Invalid value for: "), v),
        };
        s.append(v.as_str());
        s
    }
}

} // verus!
