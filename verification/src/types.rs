//! The values the exchange works on: bets, their side and their status.

use vstd::prelude::*;
use crate::book::Book;
use crate::money::spec_liability_for_lay;

verus! {

/// Lowest odds a bet may ask for: 1.01, on a scale where 100 stands for 1.00.
pub const MIN_ODDS: u64 = 101;

/// Highest odds a bet may ask for: 1000.00.
pub const MAX_ODDS: u64 = 100000;

/// One unit of odds: the value that stands for 1.00.
pub const ODDS_SCALE: u64 = 100;

/// The side of a bet.
#[derive(Clone, Copy, Debug, PartialEq, Eq, Structural)]
pub enum BetType {
    /// The outcome happens.
    Back,
    /// The outcome does not happen.
    Lay,
}

/// Where a bet stands in its life.
#[derive(Clone, Copy, Debug, PartialEq, Eq, Structural)]
pub enum BetStatus {
    Unmatched,
    PartiallyMatched,
    Matched,
    Win,
    Lost,
    Canceled,
}

/// One bet, resting in a book or on its way into one.
#[derive(Clone, Copy, Debug, PartialEq, Eq)]
pub struct Bet {
    /// Who placed the bet.
    pub owner: [u8; 32],
    pub market_id: u64,
    pub selection_id: u64,
    pub bet_type: BetType,
    /// Odds asked for, scaled by 100.
    pub odds: u64,
    /// What a back bet risks; for a lay bet, the backer's stake it covers.
    pub stake_amount: u64,
    /// What a lay bet must be able to pay; zero for a back bet.
    pub liability: u128,
    pub matched_amount: u64,
    pub unmatched_amount: u64,
    pub status: BetStatus,
    /// Logical time of placement; the earlier bet goes first at equal odds.
    pub created_at: u64,
    /// Identity of the bet, fixed once given.
    pub receipt_id: u64,
}

impl Bet {
    /// The quantity against which the filling of a bet is measured:
    /// the stake of a back bet, the liability of a lay bet.
    pub open spec fn spec_matchable_total(&self) -> nat {
        match self.bet_type {
            BetType::Back => self.stake_amount as nat,
            BetType::Lay => self.liability as nat,
        }
    }

    /// The matched and the unmatched part make up the matchable total.
    pub open spec fn spec_balanced(&self) -> bool {
        self.matched_amount + self.unmatched_amount == self.spec_matchable_total()
    }

    /// A bet that can rest in a book: odds in range, amounts that fit, and for
    /// a back bet no liability and a stake split into matched and unmatched.
    pub open spec fn spec_valid(&self) -> bool {
        &&& MIN_ODDS <= self.odds <= MAX_ODDS
        &&& self.matched_amount + self.unmatched_amount <= u64::MAX
        &&& self.bet_type == BetType::Back ==> self.liability == 0 && self.spec_balanced()
    }

    /// A bet as it comes in: unmatched in status and in fact, with all of its
    /// total left to match.
    pub open spec fn spec_fresh(&self) -> bool {
        &&& self.spec_valid()
        &&& self.status == BetStatus::Unmatched
        &&& self.matched_amount == 0
        &&& self.spec_balanced()
    }

    /// The status that the amounts of a bet call for: matched when the
    /// matched amount is the whole total, partially matched when it is some
    /// other amount above zero, unmatched when it is zero.
    pub open spec fn spec_status(&self) -> BetStatus {
        if self.matched_amount == self.spec_matchable_total() {
            BetStatus::Matched
        } else if self.matched_amount > 0 {
            BetStatus::PartiallyMatched
        } else {
            BetStatus::Unmatched
        }
    }

    /// The bet after `match_amount` of it was matched: that much moves from
    /// unmatched to matched, and a lay bet's liability becomes what the amount
    /// just matched puts at risk at its odds.
    pub open spec fn spec_with_match(&self, match_amount: u64) -> Bet {
        Bet {
            matched_amount: (self.matched_amount + match_amount) as u64,
            unmatched_amount: (self.unmatched_amount - match_amount) as u64,
            liability: match self.bet_type {
                BetType::Back => self.liability,
                BetType::Lay => spec_liability_for_lay(match_amount as nat, self.odds as nat) as u128,
            },
            ..*self
        }
    }

    /// A resting bet after `match_amount` of it was matched, in the status
    /// its new amounts call for.
    pub open spec fn spec_filled(&self, match_amount: u64) -> Bet {
        Bet { status: self.spec_with_match(match_amount).spec_status(), ..self.spec_with_match(match_amount) }
    }
}

/// The order book of one selection: the resting bets of both sides, best
/// odds and liquidity of each side, and a count of bets per status.
#[derive(Clone, Debug, PartialEq, Eq)]
pub struct Tracker {
    /// Resting back bets, highest odds first, earlier first at equal odds.
    pub back_orders: Vec<Bet>,
    /// Resting lay bets, lowest odds first, earlier first at equal odds.
    pub lay_orders: Vec<Bet>,
    /// Odds at the head of `back_orders`; zero while it is empty.
    pub best_back_odds: u64,
    /// Odds at the head of `lay_orders`; zero while it is empty.
    pub best_lay_odds: u64,
    /// Sum of the stakes of the resting back bets.
    pub back_liquidity: u128,
    /// Sum of the stakes of the resting lay bets.
    pub lay_liquidity: u128,
    pub matched_count: u64,
    pub unmatched_count: u64,
    pub partially_matched_count: u64,
    pub win_count: u64,
    pub lost_count: u64,
    pub canceled_count: u64,
}

impl View for Tracker {
    type V = Book;

    open spec fn view(&self) -> Book {
        Book {
            back_orders: self.back_orders@,
            lay_orders: self.lay_orders@,
            best_back_odds: self.best_back_odds,
            best_lay_odds: self.best_lay_odds,
            back_liquidity: self.back_liquidity as nat,
            lay_liquidity: self.lay_liquidity as nat,
            matched_count: self.matched_count as nat,
            unmatched_count: self.unmatched_count as nat,
            partially_matched_count: self.partially_matched_count as nat,
            win_count: self.win_count as nat,
            lost_count: self.lost_count as nat,
            canceled_count: self.canceled_count as nat,
        }
    }
}

} // verus!
