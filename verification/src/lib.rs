//! Sharklet: the decision core of a flash-loan arbitrage bot.
//!
//! This crate holds the parts of the bot that decide: the bounded dashboard
//! log, the circuit breaker and its rolling windows, RPC block consensus,
//! DEX pool resolution, round-trip validation, price-feed freshness, the
//! pre-flight block checks, the executor's retry policy, the journal's loss
//! count and the main loop's round endings, with the decimal and address
//! text they read and write. Network access, persistence and the
//! floating-point money arithmetic live in the application around it.

pub mod text;
pub mod address;
pub mod log_store;
pub mod risk_engine;
pub mod rpc_manager;
pub mod scanner;
pub mod dex_registry;
pub mod price_oracle;
pub mod simulation;
pub mod executor;
pub mod logger;
pub mod cycle;
