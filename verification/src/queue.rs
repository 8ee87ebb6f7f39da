//! One side of a book as a sequence of bets: its order, its liquidity, and
//! what inserting and removing a bet do to both.

use vstd::prelude::*;
use crate::types::{Bet, BetType};

verus! {

/// A new bet goes before a resting one of its side when its odds are better,
/// or equal and it was placed earlier. Better odds are higher odds for a back
/// bet and lower odds for a lay bet.
pub open spec fn spec_should_insert_before(new_bet: Bet, existing_bet: Bet) -> bool {
    match new_bet.bet_type {
        BetType::Back => new_bet.odds > existing_bet.odds || (new_bet.odds == existing_bet.odds
            && new_bet.created_at < existing_bet.created_at),
        BetType::Lay => new_bet.odds < existing_bet.odds || (new_bet.odds == existing_bet.odds
            && new_bet.created_at < existing_bet.created_at),
    }
}

/// `first` may stand before `second` in the queue of `side`: its odds are
/// better, or equal and it was not placed later.
pub open spec fn spec_in_order(side: BetType, first: Bet, second: Bet) -> bool {
    match side {
        BetType::Back => first.odds > second.odds || (first.odds == second.odds && first.created_at
            <= second.created_at),
        BetType::Lay => first.odds < second.odds || (first.odds == second.odds && first.created_at
            <= second.created_at),
    }
}

/// Price, then time: every bet of the queue may stand before every later one.
pub open spec fn spec_sorted(side: BetType, queue: Seq<Bet>) -> bool {
    forall|i: int, j: int|
        0 <= i < j < queue.len() ==> spec_in_order(side, #[trigger] queue[i], #[trigger] queue[j])
}

/// A queue of resting bets of one side: each of that side, valid and with
/// something left to match, and all of them in price-time order.
pub open spec fn spec_queue_valid(side: BetType, queue: Seq<Bet>) -> bool {
    &&& forall|i: int|
        0 <= i < queue.len() ==> {
            &&& (#[trigger] queue[i]).bet_type == side
            &&& queue[i].unmatched_amount > 0
            &&& queue[i].spec_valid()
        }
    &&& spec_sorted(side, queue)
}

/// The first place at or after `from` whose bet the new one goes before; the
/// length of the queue where there is none.
pub open spec fn spec_insert_index_from(queue: Seq<Bet>, bet: Bet, from: int) -> int
    decreases queue.len() - from,
{
    if from >= queue.len() {
        queue.len() as int
    } else if spec_should_insert_before(bet, queue[from]) {
        from
    } else {
        spec_insert_index_from(queue, bet, from + 1)
    }
}

/// Where a new bet enters the queue: before the first bet it goes before,
/// behind all others.
pub open spec fn spec_insert_index(queue: Seq<Bet>, bet: Bet) -> int {
    spec_insert_index_from(queue, bet, 0)
}

/// The queue with the bet entered at its place.
pub open spec fn spec_insert_ordered(queue: Seq<Bet>, bet: Bet) -> Seq<Bet> {
    queue.insert(spec_insert_index(queue, bet), bet)
}

/// The first place at or after `from` that holds a bet with the given
/// receipt; the length of the queue where there is none.
pub open spec fn spec_find_index_from(queue: Seq<Bet>, receipt_id: u64, from: int) -> int
    decreases queue.len() - from,
{
    if from >= queue.len() {
        queue.len() as int
    } else if queue[from].receipt_id == receipt_id {
        from
    } else {
        spec_find_index_from(queue, receipt_id, from + 1)
    }
}

/// The first place that holds a bet with the given receipt, if any does.
pub open spec fn spec_find_bet_index(queue: Seq<Bet>, receipt_id: u64) -> Option<int> {
    let found = spec_find_index_from(queue, receipt_id, 0);
    if found < queue.len() {
        Some(found)
    } else {
        None
    }
}

/// The stakes of all bets in the queue, added up.
pub open spec fn spec_liquidity(queue: Seq<Bet>) -> nat
    decreases queue.len(),
{
    if queue.len() == 0 {
        0
    } else {
        spec_liquidity(queue.drop_last()) + queue.last().stake_amount as nat
    }
}

/// The odds at the head of the queue; zero for an empty queue.
pub open spec fn spec_best_odds(queue: Seq<Bet>) -> u64 {
    if queue.len() == 0 {
        0
    } else {
        queue[0].odds
    }
}

/// The odds of the bets in the queue, in queue order.
pub open spec fn spec_odds_of(queue: Seq<Bet>) -> Seq<u64> {
    Seq::new(queue.len(), |i: int| queue[i].odds)
}

/// Copies a queue.
pub fn copy_queue(queue: &Vec<Bet>) -> (copy: Vec<Bet>)
    ensures
        copy@ == queue@,
{
    let mut copy: Vec<Bet> = Vec::new();
    let mut i: usize = 0;
    while i < queue.len()
        invariant
            i <= queue.len(),
            copy@ == queue@.take(i as int),
        decreases queue.len() - i,
    {
        copy.push(queue[i]);
        assert(copy@ =~= queue@.take(i + 1));
        i += 1;
    }
    assert(queue@.take(i as int) =~= queue@);
    copy
}

/// The insert index lies between `from` and the length; no bet from `from`
/// up to it is one the new bet goes before, and the bet at it is.
pub proof fn lemma_insert_index_from(queue: Seq<Bet>, bet: Bet, from: int)
    requires
        0 <= from <= queue.len(),
    ensures
        from <= spec_insert_index_from(queue, bet, from) <= queue.len(),
        forall|k: int|
            from <= k < spec_insert_index_from(queue, bet, from) ==> !spec_should_insert_before(
                bet,
                #[trigger] queue[k],
            ),
        spec_insert_index_from(queue, bet, from) < queue.len() ==> spec_should_insert_before(
            bet,
            queue[spec_insert_index_from(queue, bet, from)],
        ),
    decreases queue.len() - from,
{
    if from < queue.len() && !spec_should_insert_before(bet, queue[from]) {
        lemma_insert_index_from(queue, bet, from + 1);
    }
}

/// The find index lies between `from` and the length; no bet from `from` up
/// to it has the receipt, and the bet at it has.
pub proof fn lemma_find_index_from(queue: Seq<Bet>, receipt_id: u64, from: int)
    requires
        0 <= from <= queue.len(),
    ensures
        from <= spec_find_index_from(queue, receipt_id, from) <= queue.len(),
        forall|k: int|
            from <= k < spec_find_index_from(queue, receipt_id, from) ==> (#[trigger] queue[k]).receipt_id
                != receipt_id,
        spec_find_index_from(queue, receipt_id, from) < queue.len() ==> queue[spec_find_index_from(
            queue,
            receipt_id,
            from,
        )].receipt_id == receipt_id,
    decreases queue.len() - from,
{
    if from < queue.len() && queue[from].receipt_id != receipt_id {
        lemma_find_index_from(queue, receipt_id, from + 1);
    }
}

/// Entering a valid bet of the queue's side at its place keeps the queue valid.
pub proof fn lemma_insert_keeps_valid(side: BetType, queue: Seq<Bet>, bet: Bet)
    requires
        spec_queue_valid(side, queue),
        bet.bet_type == side,
        bet.spec_valid(),
        bet.unmatched_amount > 0,
    ensures
        spec_queue_valid(side, spec_insert_ordered(queue, bet)),
{
    let at = spec_insert_index(queue, bet);
    lemma_insert_index_from(queue, bet, 0);
    let after = spec_insert_ordered(queue, bet);
    assert forall|i: int, j: int| 0 <= i < j < after.len() implies spec_in_order(
        side,
        #[trigger] after[i],
        #[trigger] after[j],
    ) by {
        if j < at {
            assert(after[i] == queue[i] && after[j] == queue[j]);
        } else if j == at {
            assert(after[i] == queue[i]);
            assert(!spec_should_insert_before(bet, queue[i]));
        } else if i < at {
            assert(after[i] == queue[i] && after[j] == queue[j - 1]);
        } else if i == at {
            assert(after[j] == queue[j - 1]);
            assert(spec_should_insert_before(bet, queue[at]));
            if at < j - 1 {
                assert(spec_in_order(side, queue[at], queue[j - 1]));
            }
        } else {
            assert(after[i] == queue[i - 1] && after[j] == queue[j - 1]);
        }
    }
    assert forall|i: int| 0 <= i < after.len() implies {
        &&& (#[trigger] after[i]).bet_type == side
        &&& after[i].unmatched_amount > 0
        &&& after[i].spec_valid()
    } by {
        if i < at {
            assert(after[i] == queue[i]);
        } else if i > at {
            assert(after[i] == queue[i - 1]);
        }
    }
}

/// Taking a bet out keeps the queue valid.
pub proof fn lemma_remove_keeps_valid(side: BetType, queue: Seq<Bet>, at: int)
    requires
        spec_queue_valid(side, queue),
        0 <= at < queue.len(),
    ensures
        spec_queue_valid(side, queue.remove(at)),
{
    let after = queue.remove(at);
    assert forall|i: int, j: int| 0 <= i < j < after.len() implies spec_in_order(
        side,
        #[trigger] after[i],
        #[trigger] after[j],
    ) by {
        let from_i = if i < at { i } else { i + 1 };
        let from_j = if j < at { j } else { j + 1 };
        assert(after[i] == queue[from_i] && after[j] == queue[from_j]);
    }
    assert forall|i: int| 0 <= i < after.len() implies {
        &&& (#[trigger] after[i]).bet_type == side
        &&& after[i].unmatched_amount > 0
        &&& after[i].spec_valid()
    } by {
        let from_i = if i < at { i } else { i + 1 };
        assert(after[i] == queue[from_i]);
    }
}

/// A bet entered anywhere adds its stake to the liquidity.
pub proof fn lemma_liquidity_insert(queue: Seq<Bet>, at: int, bet: Bet)
    requires
        0 <= at <= queue.len(),
    ensures
        spec_liquidity(queue.insert(at, bet)) == spec_liquidity(queue) + bet.stake_amount,
    decreases queue.len(),
{
    let after = queue.insert(at, bet);
    if at == queue.len() {
        assert(after.drop_last() =~= queue);
        assert(after.last() == bet);
    } else {
        assert(after.drop_last() =~= queue.drop_last().insert(at, bet));
        assert(after.last() == queue.last());
        lemma_liquidity_insert(queue.drop_last(), at, bet);
    }
}

/// A bet taken out takes its stake off the liquidity.
pub proof fn lemma_liquidity_remove(queue: Seq<Bet>, at: int)
    requires
        0 <= at < queue.len(),
    ensures
        spec_liquidity(queue.remove(at)) + queue[at].stake_amount == spec_liquidity(queue),
    decreases queue.len(),
{
    let after = queue.remove(at);
    if at == queue.len() - 1 {
        assert(after =~= queue.drop_last());
    } else {
        assert(after.drop_last() =~= queue.drop_last().remove(at));
        assert(after.last() == queue.last());
        lemma_liquidity_remove(queue.drop_last(), at);
    }
}

/// No stake exceeds 64 bits, so the liquidity of a queue is at most its
/// length times the largest 64-bit number.
pub proof fn lemma_liquidity_bound(queue: Seq<Bet>)
    ensures
        spec_liquidity(queue) <= queue.len() * u64::MAX,
    decreases queue.len(),
{
    if queue.len() > 0 {
        lemma_liquidity_bound(queue.drop_last());
        assert((queue.len() - 1) * u64::MAX + u64::MAX == queue.len() * u64::MAX)
            by (nonlinear_arith);
    }
}

} // verus!
