//! Stake, liability and profit at given odds.
//!
//! Odds are whole numbers on a scale where 100 stands for 1.00. Every
//! division drops the remainder, so a caller that needs a split to add up
//! again has to test that it does.

use vstd::prelude::*;
use crate::types::{BetType, MAX_ODDS, MIN_ODDS, ODDS_SCALE};

verus! {

/// Odds between 1.01 and 1000.00.
pub open spec fn spec_valid_odds(odds: u64) -> bool {
    MIN_ODDS <= odds <= MAX_ODDS
}

/// The stake held in a total that covers stake and winnings at `odds`.
pub open spec fn spec_stake_from_total_and_odds(total: nat, odds: nat) -> nat {
    total * 100 / odds
}

/// What a lay bet has to reserve to cover a backer's `stake` at `odds`.
pub open spec fn spec_liability_for_lay(stake: nat, odds: nat) -> nat {
    (stake * (odds - 100) / 100) as nat
}

/// What a back bet of `stake` wins at `odds`.
pub open spec fn spec_profit_for_back(stake: nat, odds: nat) -> nat {
    (stake * (odds - 100) / 100) as nat
}

/// What a bet stands to win: for a back bet the profit at its odds, for a
/// lay bet the backer's stake.
pub open spec fn spec_potential_profit(bet_type: BetType, stake: nat, odds: nat) -> nat {
    match bet_type {
        BetType::Back => spec_profit_for_back(stake, odds),
        BetType::Lay => stake,
    }
}

/// At odds of 1.00 or more the stake in a total is no more than the total.
pub proof fn lemma_stake_within_total(total: nat, odds: nat)
    requires
        odds >= 100,
    ensures
        spec_stake_from_total_and_odds(total, odds) <= total,
{
    assert(total * 100 / odds <= total) by (nonlinear_arith)
        requires
            odds >= 100,
    {
        assert(total * 100 <= total * odds);
        assert((total * odds) / odds == total);
        assert(total * 100 / odds <= (total * odds) / odds);
    }
}

/// Says whether `odds` lie between 1.01 and 1000.00.
pub fn valid_odds(odds: u64) -> (ok: bool)
    ensures
        ok == spec_valid_odds(odds),
{
    MIN_ODDS <= odds && odds <= MAX_ODDS
}

/// Splits the stake off a total: `total * 100 / odds`, remainder dropped.
/// At odds of 1.00 or more the stake fits wherever the total fits.
pub fn stake_from_total_and_odds(total: u64, odds: u64) -> (stake: u64)
    requires
        odds > 0,
        odds < ODDS_SCALE ==> spec_stake_from_total_and_odds(total as nat, odds as nat)
            <= u64::MAX,
    ensures
        stake == spec_stake_from_total_and_odds(total as nat, odds as nat),
        odds >= ODDS_SCALE ==> stake <= total,
{
    proof {
        if odds >= ODDS_SCALE {
            lemma_stake_within_total(total as nat, odds as nat);
        }
    }
    let scaled: u128 = (total as u128) * 100u128;
    let stake: u128 = scaled / (odds as u128);
    stake as u64
}

/// The liability of a lay bet: `stake * (odds - 100) / 100`, remainder dropped.
pub fn liability_for_lay(stake: u64, odds: u64) -> (liability: u128)
    requires
        odds >= ODDS_SCALE,
    ensures
        liability == spec_liability_for_lay(stake as nat, odds as nat),
{
    let margin: u64 = odds - ODDS_SCALE;
    assert((stake as u128) * (margin as u128) <= u128::MAX) by (nonlinear_arith)
        requires
            stake <= u64::MAX,
            margin <= u64::MAX,
    {}
    (stake as u128) * (margin as u128) / 100u128
}

/// The profit of a back bet: `stake * (odds - 100) / 100`, remainder dropped.
pub fn profit_for_back(stake: u64, odds: u64) -> (profit: u128)
    requires
        odds >= ODDS_SCALE,
    ensures
        profit == spec_profit_for_back(stake as nat, odds as nat),
{
    let margin: u64 = odds - ODDS_SCALE;
    assert((stake as u128) * (margin as u128) <= u128::MAX) by (nonlinear_arith)
        requires
            stake <= u64::MAX,
            margin <= u64::MAX,
    {}
    (stake as u128) * (margin as u128) / 100u128
}

} // verus!
