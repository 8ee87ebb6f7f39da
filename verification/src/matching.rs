//! Which resting bets an incoming bet is matched with, and for how much.

use vstd::prelude::*;
use crate::queue::spec_insert_ordered;
use crate::types::{Bet, BetType};

verus! {

/// The side a bet of `side` is matched against.
pub open spec fn spec_other_side(side: BetType) -> BetType {
    match side {
        BetType::Back => BetType::Lay,
        BetType::Lay => BetType::Back,
    }
}


/// An incoming bet can be matched with a resting bet of the other side when
/// the backer's odds are at least the layer's and the resting bet has
/// something left to match.
pub open spec fn spec_can_match(bet: Bet, existing_bet: Bet) -> bool {
    match bet.bet_type {
        BetType::Back => bet.odds >= existing_bet.odds && existing_bet.unmatched_amount > 0,
        BetType::Lay => bet.odds <= existing_bet.odds && existing_bet.unmatched_amount > 0,
    }
}

/// What two bets that can be matched are matched for: all that the incoming
/// bet has left, or all that the resting bet has left, whichever is less.
pub open spec fn spec_match_amount(existing_bet: Bet, unmatched_amount: u64) -> u64 {
    if unmatched_amount <= existing_bet.unmatched_amount {
        unmatched_amount
    } else {
        existing_bet.unmatched_amount
    }
}

/// The resting bets that an incoming bet with `unmatched_amount` left is
/// matched with, each as the match leaves it, in queue order. The queue is
/// walked from its head; a bet that cannot be matched is passed over, and
/// the walk ends when nothing is left to match.
pub open spec fn spec_fills(queue: Seq<Bet>, bet: Bet, unmatched_amount: u64) -> Seq<Bet>
    decreases queue.len(),
{
    if queue.len() == 0 || unmatched_amount == 0 {
        Seq::empty()
    } else if spec_can_match(bet, queue[0]) {
        let amount = spec_match_amount(queue[0], unmatched_amount);
        seq![queue[0].spec_filled(amount)] + spec_fills(
            queue.skip(1),
            bet,
            (unmatched_amount - amount) as u64,
        )
    } else {
        spec_fills(queue.skip(1), bet, unmatched_amount)
    }
}

/// How much of an incoming bet with `unmatched_amount` left is matched
/// against the queue.
pub open spec fn spec_fill_total(queue: Seq<Bet>, bet: Bet, unmatched_amount: u64) -> nat
    decreases queue.len(),
{
    if queue.len() == 0 || unmatched_amount == 0 {
        0
    } else if spec_can_match(bet, queue[0]) {
        let amount = spec_match_amount(queue[0], unmatched_amount);
        amount as nat + spec_fill_total(queue.skip(1), bet, (unmatched_amount - amount) as u64)
    } else {
        spec_fill_total(queue.skip(1), bet, unmatched_amount)
    }
}

/// What matches leave of a queue: the bets matched are gone from its head,
/// and the last of them, where it has something left to match, is back at
/// its place among the rest.
pub open spec fn spec_queue_after(queue: Seq<Bet>, fills: Seq<Bet>) -> Seq<Bet> {
    if fills.len() > 0 && fills.last().unmatched_amount > 0 {
        spec_insert_ordered(queue.skip(fills.len() as int), fills.last())
    } else {
        queue.skip(fills.len() as int)
    }
}

/// What the resting bets of a queue that an incoming bet can be matched with
/// have left to match, added up.
pub open spec fn spec_matchable_liquidity(queue: Seq<Bet>, bet: Bet) -> nat
    decreases queue.len(),
{
    if queue.len() == 0 {
        0
    } else if spec_can_match(bet, queue[0]) {
        queue[0].unmatched_amount as nat + spec_matchable_liquidity(queue.skip(1), bet)
    } else {
        spec_matchable_liquidity(queue.skip(1), bet)
    }
}

/// An incoming bet is matched for all it has left, or for all that the
/// resting bets it can be matched with have left, whichever is less.
pub proof fn lemma_fill_total(queue: Seq<Bet>, bet: Bet, unmatched_amount: u64)
    ensures
        spec_fill_total(queue, bet, unmatched_amount) == if unmatched_amount
            <= spec_matchable_liquidity(queue, bet) {
            unmatched_amount as nat
        } else {
            spec_matchable_liquidity(queue, bet)
        },
    decreases queue.len(),
{
    if queue.len() > 0 && unmatched_amount > 0 {
        if spec_can_match(bet, queue[0]) {
            let amount = spec_match_amount(queue[0], unmatched_amount);
            lemma_fill_total(queue.skip(1), bet, (unmatched_amount - amount) as u64);
        } else {
            lemma_fill_total(queue.skip(1), bet, unmatched_amount);
        }
    }
}

} // verus!
