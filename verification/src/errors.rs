//! Why the exchange turns a request down.

use vstd::prelude::*;

verus! {

/// The reasons for which a request is turned down. Nothing is changed by a
/// request that is turned down.
#[derive(Clone, Copy, Debug, PartialEq, Eq, Structural)]
pub enum ExchangeError {
    /// There is no such market.
    InvalidMarket,
    /// The market does not take bets.
    MarketNotOpen,
    /// The market has reached its closing time.
    MarketClosed,
    /// The odds are below 1.01 or above 1000.00.
    InvalidOdds,
    /// The market has no such selection.
    SelectionNotFound,
    /// A back bet came with a liability.
    InvalidLiabilityForBack,
    /// A lay bet came without a liability.
    LiabilityRequiredForLay,
    /// Stake and liability of a lay bet do not add up to the funds supplied.
    AmountMismatch,
    /// A market was to close at or before the time of its creation.
    CloseTimestampNotInFuture,
}

} // verus!
