//! Placing a bet: the request is checked, the bet is built and matched
//! against the book of its selection, and the market is brought up to date.

use vstd::prelude::*;
use crate::errors::ExchangeError;
use crate::market::{
    selection_position, Market, MarketStatus, MarketView, Selection, SelectionView,
};
use crate::money::{
    profit_for_back, spec_potential_profit, spec_stake_from_total_and_odds, spec_valid_odds,
    stake_from_total_and_odds, valid_odds,
};
use crate::tracker::TrackerModule;
use crate::types::{Bet, BetStatus, BetType, ODDS_SCALE};

verus! {

/// A bet that was taken: the market and the bet as they now stand, and what
/// the placing of it did.
#[derive(Clone, Debug, PartialEq, Eq)]
pub struct Placement {
    /// The market with the bet worked into the book of its selection.
    pub market: Market,
    /// The bet after matching.
    pub bet: Bet,
    /// The resting bets the bet was matched with, each as the match leaves it.
    pub matching_bets: Vec<Bet>,
    pub matched_amount: u64,
    pub unmatched_amount: u64,
    /// What has to stay locked for the bettor: for a back bet what is left
    /// unmatched, for a lay bet its whole liability.
    pub total_locked: u128,
}

/// The stake of a bet placed with `total_amount`: all of it for a back bet,
/// for a lay bet the stake held in it at the odds.
pub open spec fn spec_stake(bet_type: BetType, total_amount: u64, odds: u64) -> nat {
    match bet_type {
        BetType::Back => total_amount as nat,
        BetType::Lay => spec_stake_from_total_and_odds(total_amount as nat, odds as nat),
    }
}

/// Why a request to place a bet is turned down, if it is. The first of these
/// that holds decides: the market is unknown; it does not take bets; its
/// closing time has come; the odds are out of range; the selection is
/// unknown; a back bet has a liability; a lay bet has none; the stake held in
/// the funds of a lay bet and its liability do not add up to the funds.
pub open spec fn spec_rejection(
    market: Option<MarketView>,
    created_at: u64,
    total_amount: u64,
    selection_id: u64,
    odds: u64,
    bet_type: BetType,
    liability: u64,
) -> Option<ExchangeError> {
    match market {
        None => Some(ExchangeError::InvalidMarket),
        Some(market) => {
            if market.market_status != MarketStatus::Open {
                Some(ExchangeError::MarketNotOpen)
            } else if created_at >= market.close_timestamp {
                Some(ExchangeError::MarketClosed)
            } else if !spec_valid_odds(odds) {
                Some(ExchangeError::InvalidOdds)
            } else if market.spec_selection_index(selection_id) is None {
                Some(ExchangeError::SelectionNotFound)
            } else {
                match bet_type {
                    BetType::Back => if liability != 0 {
                        Some(ExchangeError::InvalidLiabilityForBack)
                    } else {
                        None
                    },
                    BetType::Lay => if liability == 0 {
                        Some(ExchangeError::LiabilityRequiredForLay)
                    } else if spec_stake(bet_type, total_amount, odds) + liability
                        != total_amount {
                        Some(ExchangeError::AmountMismatch)
                    } else {
                        None
                    },
                }
            }
        },
    }
}

/// The bet that a request builds: unmatched, with its whole matchable total
/// left to match.
pub open spec fn spec_new_bet(
    market_id: u64,
    caller: [u8; 32],
    created_at: u64,
    total_amount: u64,
    bet_id: u64,
    selection_id: u64,
    odds: u64,
    bet_type: BetType,
    liability: u64,
) -> Bet {
    Bet {
        owner: caller,
        market_id,
        selection_id,
        bet_type,
        odds,
        stake_amount: spec_stake(bet_type, total_amount, odds) as u64,
        liability: liability as u128,
        matched_amount: 0,
        unmatched_amount: match bet_type {
            BetType::Back => total_amount,
            BetType::Lay => liability,
        },
        status: BetStatus::Unmatched,
        created_at,
        receipt_id: bet_id,
    }
}

/// The market after a bet was matched against the book of the selection at
/// `at`: that book takes the bet in, and the matched total of the market
/// grows by what was matched.
pub open spec fn spec_market_after(market: MarketView, at: int, bet: Bet) -> MarketView {
    let book = market.selections[at].priority_queue;
    MarketView {
        selections: market.selections.update(
            at,
            SelectionView { priority_queue: book.spec_process_bet(bet), ..market.selections[at] },
        ),
        total_matched_amount: market.total_matched_amount + book.spec_matched_amount(bet),
        ..market
    }
}

/// Taking bets.
pub trait BetManagerModule: TrackerModule {
    /// Places a bet. `market` is the market as the caller found it, `None`
    /// where there is none; `caller`, `created_at`, `total_amount` and
    /// `bet_id` are who places the bet, when, with what funds, and under
    /// which receipt.
    ///
    /// A request is turned down for the reason `spec_rejection` gives, and
    /// for no other. A request that is taken builds the bet, matches it
    /// against the book of its selection, and gives back the market and the
    /// bet as they then stand.
    fn place_bet(
        &self,
        market: Option<Market>,
        caller: [u8; 32],
        created_at: u64,
        total_amount: u64,
        bet_id: u64,
        selection_id: u64,
        odds: u64,
        bet_type: BetType,
        liability: u64,
    ) -> (placed: Result<Placement, ExchangeError>)
        requires
            market matches Some(m) ==> m@.spec_valid() && m@.spec_room(
                selection_id,
                bet_type,
                total_amount,
            ),
        ensures
            match placed {
                Err(reason) => spec_rejection(
                    match market {
                        Some(m) => Some(m@),
                        None => None,
                    },
                    created_at,
                    total_amount,
                    selection_id,
                    odds,
                    bet_type,
                    liability,
                ) == Some(reason),
                Ok(placement) => {
                    &&& market is Some
                    &&& spec_rejection(
                        Some(market->0@),
                        created_at,
                        total_amount,
                        selection_id,
                        odds,
                        bet_type,
                        liability,
                    ) is None
                    &&& {
                        let before = market->0@;
                        let at = before.spec_selection_index(selection_id)->0;
                        let book = before.selections[at].priority_queue;
                        let bet = spec_new_bet(
                            before.market_id,
                            caller,
                            created_at,
                            total_amount,
                            bet_id,
                            selection_id,
                            odds,
                            bet_type,
                            liability,
                        );
                        &&& bet.spec_fresh()
                        &&& bet.stake_amount + bet.liability == total_amount
                        &&& placement.market@ == spec_market_after(before, at, bet)
                        &&& placement.market@.spec_valid()
                        &&& placement.bet == book.spec_updated_bet(bet)
                        &&& placement.bet.spec_balanced()
                        &&& placement.matching_bets@ == book.spec_matching_bets(bet)
                        &&& placement.matched_amount == placement.bet.matched_amount
                        &&& placement.unmatched_amount == placement.bet.unmatched_amount
                        &&& placement.total_locked == match bet_type {
                            BetType::Back => placement.bet.unmatched_amount as u128,
                            BetType::Lay => placement.bet.liability,
                        }
                    }
                },
            },
    {
        let mut market = match market {
            Some(market) => market,
            None => { return Err(ExchangeError::InvalidMarket); },
        };
        let ghost before = market@;
        if market.market_status != MarketStatus::Open {
            return Err(ExchangeError::MarketNotOpen);
        }
        if created_at >= market.close_timestamp {
            return Err(ExchangeError::MarketClosed);
        }
        if !valid_odds(odds) {
            return Err(ExchangeError::InvalidOdds);
        }
        let selection_index: usize = match selection_position(&market.selections, selection_id) {
            Some(at) => at,
            None => { return Err(ExchangeError::SelectionNotFound); },
        };
        let (final_stake, final_liability): (u64, u64) = match bet_type {
            BetType::Back => {
                if liability != 0 {
                    return Err(ExchangeError::InvalidLiabilityForBack);
                }
                (total_amount, 0)
            },
            BetType::Lay => {
                if liability == 0 {
                    return Err(ExchangeError::LiabilityRequiredForLay);
                }
                let stake: u64 = stake_from_total_and_odds(total_amount, odds);
                if stake as u128 + liability as u128 != total_amount as u128 {
                    return Err(ExchangeError::AmountMismatch);
                }
                (stake, liability)
            },
        };
        let bet = Bet {
            owner: caller,
            market_id: market.market_id,
            selection_id,
            bet_type,
            odds,
            stake_amount: final_stake,
            liability: final_liability as u128,
            matched_amount: 0,
            unmatched_amount: match bet_type {
                BetType::Back => final_stake,
                BetType::Lay => final_liability,
            },
            status: BetStatus::Unmatched,
            created_at,
            receipt_id: bet_id,
        };
        let mut selection: Selection = market.selections.remove(selection_index);
        let (matched_amount, unmatched_amount, updated_bet, matching_bets) = self.process_bet(
            &mut selection.priority_queue,
            bet,
        );
        market.selections.insert(selection_index, selection);
        market.total_matched_amount = market.total_matched_amount + matched_amount as u128;
        let total_locked: u128 = match bet_type {
            BetType::Back => unmatched_amount as u128,
            BetType::Lay => final_liability as u128,
        };
        proof {
            let after = market@;
            let expected = spec_market_after(before, selection_index as int, bet);
            assert(after.selections =~= expected.selections);
        }
        Ok(
            Placement {
                market,
                bet: updated_bet,
                matching_bets,
                matched_amount,
                unmatched_amount,
                total_locked,
            },
        )
    }

    /// What a bet stands to win: for a back bet the profit of its stake at
    /// its odds, for a lay bet the backer's stake.
    fn calculate_potential_profit(&self, bet_type: &BetType, stake: u64, odds: u64) -> (profit: u128)
        requires
            *bet_type == BetType::Back ==> odds >= ODDS_SCALE,
        ensures
            profit == spec_potential_profit(*bet_type, stake as nat, odds as nat),
    {
        match bet_type {
            BetType::Back => profit_for_back(stake, odds),
            BetType::Lay => stake as u128,
        }
    }
}

} // verus!
