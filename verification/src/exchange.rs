//! The exchange itself.

use vstd::prelude::*;
use crate::bet_manager::BetManagerModule;
use crate::market_manager::MarketManagerModule;
use crate::tracker::TrackerModule;

verus! {

/// The exchange. It holds nothing: markets, books and bets are handed to it
/// and handed back.
#[derive(Clone, Copy, Debug, Default)]
pub struct Exchange;

impl TrackerModule for Exchange {

}

impl BetManagerModule for Exchange {

}

impl MarketManagerModule for Exchange {

}

} // verus!
