//! Tests that say whether a bet, a book or a market is one the exchange can
//! work on. A caller that holds values from elsewhere runs them first.

use vstd::prelude::*;
use crate::market::{selection_position, Market};
use crate::queue::{lemma_liquidity_bound, spec_in_order, spec_liquidity, spec_queue_valid};
use crate::types::{Bet, BetType, Tracker, MAX_ODDS, MIN_ODDS};

verus! {

/// Where each bet of a queue may stand before the next, each may stand
/// before every later one.
pub proof fn lemma_neighbours_in_order(side: BetType, queue: Seq<Bet>, first: int, second: int)
    requires
        forall|k: int| 0 < k < queue.len() ==> spec_in_order(side, queue[k - 1], #[trigger] queue[k]),
        0 <= first < second < queue.len(),
    ensures
        spec_in_order(side, queue[first], queue[second]),
    decreases second - first,
{
    if first + 1 < second {
        lemma_neighbours_in_order(side, queue, first, second - 1);
        assert(spec_in_order(side, queue[second - 1], queue[second]));
    } else {
        assert(spec_in_order(side, queue[second - 1], queue[second]));
    }
}

/// Says whether `first` may stand before `second` in the queue of `side`.
pub fn in_order(side: BetType, first: &Bet, second: &Bet) -> (ok: bool)
    ensures
        ok == spec_in_order(side, *first, *second),
{
    match side {
        BetType::Back => first.odds > second.odds || (first.odds == second.odds && first.created_at
            <= second.created_at),
        BetType::Lay => first.odds < second.odds || (first.odds == second.odds && first.created_at
            <= second.created_at),
    }
}

/// Says whether the queue is a valid queue of resting bets of `side`.
pub fn queue_is_valid(side: BetType, queue: &Vec<Bet>) -> (ok: bool)
    ensures
        ok == spec_queue_valid(side, queue@),
{
    let mut i: usize = 0;
    while i < queue.len()
        invariant
            i <= queue.len(),
            forall|k: int|
                0 <= k < i ==> {
                    &&& (#[trigger] queue@[k]).bet_type == side
                    &&& queue@[k].unmatched_amount > 0
                    &&& queue@[k].spec_valid()
                },
            forall|k: int| 0 < k < i ==> spec_in_order(side, queue@[k - 1], #[trigger] queue@[k]),
        decreases queue.len() - i,
    {
        let bet: &Bet = &queue[i];
        if bet.bet_type != side || bet.unmatched_amount == 0 || !bet.is_valid() {
            return false;
        }
        if i > 0 && !in_order(side, &queue[i - 1], bet) {
            assert(!spec_in_order(side, queue@[i - 1], queue@[i as int]));
            return false;
        }
        i += 1;
    }
    proof {
        assert forall|first: int, second: int| 0 <= first < second < queue@.len() implies spec_in_order(
            side,
            #[trigger] queue@[first],
            #[trigger] queue@[second],
        ) by {
            lemma_neighbours_in_order(side, queue@, first, second);
        }
    }
    true
}

/// Adds up the stakes of the bets in a queue.
pub fn liquidity_of(queue: &Vec<Bet>) -> (liquidity: u128)
    ensures
        liquidity == spec_liquidity(queue@),
{
    let mut liquidity: u128 = 0;
    let mut i: usize = 0;
    assert(queue@.take(0) =~= Seq::<Bet>::empty());
    while i < queue.len()
        invariant
            i <= queue.len(),
            liquidity == spec_liquidity(queue@.take(i as int)),
        decreases queue.len() - i,
    {
        proof {
            lemma_liquidity_bound(queue@.take(i as int));
            assert(i * u64::MAX + u64::MAX <= u128::MAX) by (nonlinear_arith)
                requires
                    i <= u64::MAX,
            {}
            assert(queue@.take(i + 1).drop_last() =~= queue@.take(i as int));
        }
        liquidity = liquidity + queue[i].stake_amount as u128;
        i += 1;
    }
    assert(queue@.take(i as int) =~= queue@);
    liquidity
}

impl Bet {
    /// Says whether the bet is one that can rest in a book.
    pub fn is_valid(&self) -> (ok: bool)
        ensures
            ok == self.spec_valid(),
    {
        MIN_ODDS <= self.odds && self.odds <= MAX_ODDS && self.matched_amount as u128
            + self.unmatched_amount as u128 <= u64::MAX as u128 && match self.bet_type {
            BetType::Back => self.liability == 0 && self.matched_amount as u128
                + self.unmatched_amount as u128 == self.stake_amount as u128,
            BetType::Lay => true,
        }
    }

    /// Says whether the bet is one that can come in: valid, unmatched, and
    /// with its whole matchable total left to match.
    pub fn is_fresh(&self) -> (ok: bool)
        ensures
            ok == self.spec_fresh(),
    {
        self.is_valid() && self.status == crate::types::BetStatus::Unmatched
            && self.matched_amount == 0 && match self.bet_type {
            BetType::Back => self.unmatched_amount == self.stake_amount,
            BetType::Lay => self.unmatched_amount as u128 == self.liability,
        }
    }
}

impl Tracker {
    /// Says whether the book is valid: both queues valid, and liquidity and
    /// best odds of each side those of its queue.
    pub fn is_valid(&self) -> (ok: bool)
        ensures
            ok == self@.spec_valid(),
    {
        let best_back: u64 = if self.back_orders.len() == 0 {
            0
        } else {
            self.back_orders[0].odds
        };
        let best_lay: u64 = if self.lay_orders.len() == 0 {
            0
        } else {
            self.lay_orders[0].odds
        };
        queue_is_valid(BetType::Back, &self.back_orders) && queue_is_valid(
            BetType::Lay,
            &self.lay_orders,
        ) && self.back_liquidity == liquidity_of(&self.back_orders) && self.lay_liquidity
            == liquidity_of(&self.lay_orders) && self.best_back_odds == best_back
            && self.best_lay_odds == best_lay
    }

    /// Says whether every count can grow by `more` and still fit in 64 bits.
    pub fn has_room(&self, more: usize) -> (ok: bool)
        ensures
            ok == self@.spec_room(more as nat),
    {
        let limit: u128 = u64::MAX as u128;
        let more: u128 = more as u128;
        self.matched_count as u128 + more <= limit && self.unmatched_count as u128 + more
            <= limit && self.partially_matched_count as u128 + more <= limit
            && self.win_count as u128 + more <= limit && self.lost_count as u128 + more
            <= limit && self.canceled_count as u128 + more <= limit
    }

    /// Says whether a bet of `bet_type` can be matched against the book
    /// without a count leaving its 64 bits.
    pub fn has_room_for(&self, bet_type: BetType) -> (ok: bool)
        ensures
            ok == self@.spec_room_for(bet_type),
    {
        let resting: usize = match bet_type {
            BetType::Back => self.lay_orders.len(),
            BetType::Lay => self.back_orders.len(),
        };
        let limit: u128 = u64::MAX as u128;
        let more: u128 = resting as u128 + 1;
        self.unmatched_count as u128 + 1 <= limit && self.matched_count as u128 + more <= limit
            && self.partially_matched_count as u128 + more <= limit
    }
}

impl Market {
    /// Says whether the book of every selection is valid.
    pub fn is_valid(&self) -> (ok: bool)
        ensures
            ok == self@.spec_valid(),
    {
        let mut i: usize = 0;
        while i < self.selections.len()
            invariant
                i <= self.selections.len(),
                forall|k: int|
                    0 <= k < i ==> (#[trigger] self@.selections[k]).priority_queue.spec_valid(),
            decreases self.selections.len() - i,
        {
            if !self.selections[i].priority_queue.is_valid() {
                assert(!self@.selections[i as int].priority_queue.spec_valid());
                return false;
            }
            i += 1;
        }
        true
    }

    /// Says whether a bet of `bet_type` placed with `total_amount` on the
    /// selection can be taken without the matched total of the market or a
    /// count of the selection's book leaving its bits.
    pub fn has_room(&self, selection_id: u64, bet_type: BetType, total_amount: u64) -> (ok: bool)
        ensures
            ok == self@.spec_room(selection_id, bet_type, total_amount),
    {
        if self.total_matched_amount > u128::MAX - total_amount as u128 {
            return false;
        }
        match selection_position(&self.selections, selection_id) {
            Some(at) => self.selections[at].priority_queue.has_room_for(bet_type),
            None => true,
        }
    }
}

} // verus!
