//! A two-sided betting exchange.
//!
//! Bettors place back bets (an outcome happens) and lay bets (it does not)
//! against an order book kept per market selection. Opposing bets are matched
//! by price, then by time. Every function here is a pure computation on
//! values held in memory; loading and storing them is the caller's business.

pub mod bet_manager;
pub mod book;
pub mod errors;
pub mod exchange;
pub mod laws;
pub mod market;
pub mod market_manager;
pub mod matching;
pub mod money;
pub mod queue;
pub mod tracker;
pub mod types;
pub mod validate;

pub use bet_manager::{BetManagerModule, Placement};
pub use errors::ExchangeError;
pub use market::{Market, MarketStatus, Selection};
pub use market_manager::MarketManagerModule;
pub use exchange::Exchange;
pub use tracker::TrackerModule;
pub use types::{Bet, BetStatus, BetType, Tracker};
