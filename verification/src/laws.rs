//! What holds of every match: which resting bets take part, how much moves,
//! and what is left in the book.

use vstd::prelude::*;
use crate::bet_manager::{spec_new_bet, spec_rejection, spec_stake};
use crate::book::Book;
use crate::market::{MarketStatus, MarketView};
use crate::money::{spec_liability_for_lay, spec_stake_from_total_and_odds, spec_valid_odds};
use crate::matching::{
    spec_can_match, spec_fill_total, spec_fills, spec_match_amount, spec_other_side,
    spec_queue_after,
};
use crate::queue::{
    lemma_find_index_from, lemma_insert_index_from, lemma_insert_keeps_valid,
    lemma_liquidity_insert, lemma_remove_keeps_valid, spec_best_odds, spec_find_bet_index,
    spec_find_index_from, spec_insert_index, spec_insert_ordered, spec_liquidity,
    spec_queue_valid, spec_should_insert_before,
};
use crate::types::{Bet, BetStatus, BetType};

verus! {

/// The backer's odds are at least the layer's: the price at which two bets of
/// opposite sides may be matched.
pub open spec fn spec_odds_agree(bet: Bet, other: Bet) -> bool {
    match bet.bet_type {
        BetType::Back => bet.odds >= other.odds,
        BetType::Lay => other.odds >= bet.odds,
    }
}

/// The matched amounts of all bets in the queue, added up.
pub open spec fn spec_matched_sum(queue: Seq<Bet>) -> nat
    decreases queue.len(),
{
    if queue.len() == 0 {
        0
    } else {
        queue[0].matched_amount as nat + spec_matched_sum(queue.skip(1))
    }
}

/// One match moves one amount: the matched amount of the bet grows by it,
/// the unmatched amount shrinks by it, and their sum stays what it was. A
/// valid bet stays valid, and a back bet keeps its stake split into matched
/// and unmatched.
pub proof fn lemma_match_moves_amount(bet: Bet, match_amount: u64)
    requires
        bet.spec_valid(),
        match_amount <= bet.unmatched_amount,
    ensures
        bet.spec_filled(match_amount).matched_amount == bet.matched_amount + match_amount,
        bet.spec_filled(match_amount).unmatched_amount == bet.unmatched_amount - match_amount,
        bet.spec_filled(match_amount).matched_amount + bet.spec_filled(
            match_amount,
        ).unmatched_amount == bet.matched_amount + bet.unmatched_amount,
        bet.spec_filled(match_amount).spec_valid(),
        bet.bet_type == BetType::Back ==> bet.spec_filled(match_amount).spec_balanced(),
{
}

/// In a valid book every resting bet has something left to match, and every
/// resting back bet has its stake split into matched and unmatched.
pub proof fn lemma_resting_bets(book: Book, side: BetType, at: int)
    requires
        book.spec_valid(),
        0 <= at < book.spec_queue(side).len(),
    ensures
        book.spec_queue(side)[at].bet_type == side,
        book.spec_queue(side)[at].unmatched_amount > 0,
        side == BetType::Back ==> book.spec_queue(side)[at].spec_balanced(),
{
}

/// What is left of a valid queue behind its first bets is a valid queue.
pub proof fn lemma_skip_keeps_valid(side: BetType, queue: Seq<Bet>, count: int)
    requires
        spec_queue_valid(side, queue),
        0 <= count <= queue.len(),
    ensures
        spec_queue_valid(side, queue.skip(count)),
{
    let rest = queue.skip(count);
    assert forall|i: int| 0 <= i < rest.len() implies {
        &&& (#[trigger] rest[i]).bet_type == side
        &&& rest[i].unmatched_amount > 0
        &&& rest[i].spec_valid()
    } by {
        assert(rest[i] == queue[i + count]);
    }
    assert forall|i: int, j: int| 0 <= i < j < rest.len() implies crate::queue::spec_in_order(
        side,
        #[trigger] rest[i],
        #[trigger] rest[j],
    ) by {
        assert(rest[i] == queue[i + count] && rest[j] == queue[j + count]);
    }
}

/// In a valid queue of the other side, a bet that cannot be matched with the
/// head can be matched with none behind it: their odds are no better.
pub proof fn lemma_no_match_behind(bet: Bet, queue: Seq<Bet>)
    requires
        spec_queue_valid(spec_other_side(bet.bet_type), queue),
        queue.len() > 0,
        !spec_can_match(bet, queue[0]),
    ensures
        forall|i: int| 0 <= i < queue.len() ==> !spec_can_match(bet, #[trigger] queue[i]),
{
    assert forall|i: int| 0 <= i < queue.len() implies !spec_can_match(bet, #[trigger] queue[i]) by {
        if i > 0 {
            assert(crate::queue::spec_in_order(
                spec_other_side(bet.bet_type),
                queue[0],
                queue[i],
            ));
        }
    }
}

/// A bet that can be matched with no bet of a queue is matched with none.
pub proof fn lemma_fills_none(queue: Seq<Bet>, bet: Bet, unmatched_amount: u64)
    requires
        forall|i: int| 0 <= i < queue.len() ==> !spec_can_match(bet, #[trigger] queue[i]),
    ensures
        spec_fills(queue, bet, unmatched_amount) == Seq::<Bet>::empty(),
        spec_fill_total(queue, bet, unmatched_amount) == 0,
    decreases queue.len(),
{
    if queue.len() > 0 && unmatched_amount > 0 {
        let rest = queue.skip(1);
        assert forall|i: int| 0 <= i < rest.len() implies !spec_can_match(bet, #[trigger] rest[i]) by {
            assert(rest[i] == queue[i + 1]);
        }
        lemma_fills_none(rest, bet, unmatched_amount);
    }
}

/// The shape of every match against a valid queue of the other side.
///
/// The bets matched are the first of the queue, in order, each one a bet the
/// incoming bet can be matched with, and each matched for an amount above
/// zero and within what it had left. All but the last are matched in full.
/// The amount matched is no more than the incoming bet had left, and the
/// matched amounts of the resting bets grow, taken together, by exactly the
/// amount matched. Where something of the incoming bet is left, every bet
/// matched was matched in full and the next bet of the queue, if there is
/// one, cannot be matched with it.
pub proof fn lemma_fills_shape(queue: Seq<Bet>, bet: Bet, unmatched_amount: u64)
    requires
        spec_queue_valid(spec_other_side(bet.bet_type), queue),
    ensures
        ({
            let fills = spec_fills(queue, bet, unmatched_amount);
            let total = spec_fill_total(queue, bet, unmatched_amount);
            &&& fills.len() <= queue.len()
            &&& total <= unmatched_amount
            &&& forall|i: int|
                0 <= i < fills.len() ==> {
                    &&& spec_can_match(bet, queue[i])
                    &&& queue[i].matched_amount < (#[trigger] fills[i]).matched_amount
                    &&& fills[i].matched_amount - queue[i].matched_amount
                        <= queue[i].unmatched_amount
                    &&& fills[i] == queue[i].spec_filled(
                        (fills[i].matched_amount - queue[i].matched_amount) as u64,
                    )
                }
            &&& forall|i: int|
                0 <= i < fills.len() - 1 ==> (#[trigger] fills[i]).unmatched_amount == 0
            &&& spec_matched_sum(fills) == spec_matched_sum(queue.take(fills.len() as int)) + total
            &&& total < unmatched_amount ==> {
                &&& forall|i: int|
                    0 <= i < fills.len() ==> (#[trigger] fills[i]).unmatched_amount == 0
                &&& fills.len() < queue.len() ==> !spec_can_match(bet, queue[fills.len() as int])
            }
        }),
    decreases queue.len(),
{
    let fills = spec_fills(queue, bet, unmatched_amount);
    let total = spec_fill_total(queue, bet, unmatched_amount);
    if queue.len() == 0 || unmatched_amount == 0 {
        assert(queue.take(0) =~= Seq::<Bet>::empty());
    } else if spec_can_match(bet, queue[0]) {
        let amount = spec_match_amount(queue[0], unmatched_amount);
        let left = (unmatched_amount - amount) as u64;
        let rest = queue.skip(1);
        let rest_fills = spec_fills(rest, bet, left);
        let rest_total = spec_fill_total(rest, bet, left);
        let head = queue[0].spec_filled(amount);
        lemma_skip_keeps_valid(spec_other_side(bet.bet_type), queue, 1);
        lemma_fills_shape(rest, bet, left);
        assert(fills == seq![head] + rest_fills);
        assert(fills[0] == head);
        assert forall|i: int| 0 <= i < fills.len() implies {
            &&& spec_can_match(bet, queue[i])
            &&& queue[i].matched_amount < (#[trigger] fills[i]).matched_amount
            &&& fills[i].matched_amount - queue[i].matched_amount <= queue[i].unmatched_amount
            &&& fills[i] == queue[i].spec_filled(
                (fills[i].matched_amount - queue[i].matched_amount) as u64,
            )
        } by {
            if i > 0 {
                assert(fills[i] == rest_fills[i - 1]);
                assert(queue[i] == rest[i - 1]);
            }
        }
        assert forall|i: int| 0 <= i < fills.len() - 1 implies (#[trigger] fills[i]).unmatched_amount
            == 0 by {
            if i > 0 {
                assert(fills[i] == rest_fills[i - 1]);
            }
        }
        assert(fills.skip(1) =~= rest_fills);
        assert(queue.take(fills.len() as int).skip(1) =~= rest.take(rest_fills.len() as int));
        assert(queue.take(fills.len() as int)[0] == queue[0]);
        if total < unmatched_amount {
            assert forall|i: int| 0 <= i < fills.len() implies (#[trigger] fills[i]).unmatched_amount
                == 0 by {
                if i > 0 {
                    assert(fills[i] == rest_fills[i - 1]);
                }
            }
            if fills.len() < queue.len() {
                assert(queue[fills.len() as int] == rest[rest_fills.len() as int]);
            }
        }
    } else {
        lemma_no_match_behind(bet, queue);
        lemma_fills_none(queue, bet, unmatched_amount);
        assert(queue.take(0) =~= Seq::<Bet>::empty());
    }
}

/// Working matches into a book, where each match is for the bet at the same
/// place of one queue and all but the last are in full, takes the matched
/// bets off the head of that queue, puts the last back where it has something
/// left, and leaves the other queue alone.
pub proof fn lemma_process_head_matches(book: Book, side: BetType, matching_bets: Seq<Bet>)
    requires
        matching_bets.len() <= book.spec_queue(side).len(),
        forall|i: int|
            0 <= i < matching_bets.len() ==> {
                &&& (#[trigger] matching_bets[i]).bet_type == side
                &&& matching_bets[i].receipt_id == book.spec_queue(side)[i].receipt_id
            },
        forall|i: int|
            0 <= i < matching_bets.len() - 1 ==> (#[trigger] matching_bets[i]).unmatched_amount == 0,
    ensures
        book.spec_process_matches(matching_bets).spec_queue(side) == spec_queue_after(
            book.spec_queue(side),
            matching_bets,
        ),
        book.spec_process_matches(matching_bets).spec_queue(spec_other_side(side))
            == book.spec_queue(spec_other_side(side)),
    decreases matching_bets.len(),
{
    let queue = book.spec_queue(side);
    if matching_bets.len() == 0 {
        assert(queue.skip(0) =~= queue);
    } else {
        let earlier = matching_bets.drop_last();
        let last = matching_bets.last();
        let count = earlier.len() as int;
        assert forall|i: int| 0 <= i < earlier.len() implies {
            &&& (#[trigger] earlier[i]).bet_type == side
            &&& earlier[i].receipt_id == queue[i].receipt_id
        } by {
            assert(earlier[i] == matching_bets[i]);
        }
        assert forall|i: int| 0 <= i < earlier.len() - 1 implies (#[trigger] earlier[i]).unmatched_amount
            == 0 by {
            assert(earlier[i] == matching_bets[i]);
        }
        lemma_process_head_matches(book, side, earlier);
        let before = book.spec_process_matches(earlier);
        if count > 0 {
            assert(earlier.last() == matching_bets[count - 1]);
        }
        let rest = queue.skip(count);
        assert(before.spec_queue(side) == rest);
        assert(rest[0] == queue[count]);
        assert(last == matching_bets[count]);
        lemma_find_index_from(rest, last.receipt_id, 0);
        assert(spec_find_index_from(rest, last.receipt_id, 0) == 0);
        assert(spec_find_bet_index(rest, last.receipt_id) == Some(0int));
        assert(rest.remove(0) =~= queue.skip(count + 1));
    }
}

/// Working the matches of a bet into a valid book one after another leaves
/// the queues that the walk itself leaves: on the side of the incoming bet
/// nothing changes; on the other side the bets matched are gone from the
/// head of the queue, and the last of them, where it has something left to
/// match, is back at its place among the rest.
pub proof fn lemma_matches_leave(book: Book, bet: Bet)
    requires
        book.spec_valid(),
    ensures
        book.spec_process_matches(book.spec_matching_bets(bet)).back_orders
            == book.spec_find_matches(bet).back_orders,
        book.spec_process_matches(book.spec_matching_bets(bet)).lay_orders
            == book.spec_find_matches(bet).lay_orders,
        book.spec_process_matches(book.spec_matching_bets(bet)).spec_queue(bet.bet_type)
            == book.spec_queue(bet.bet_type),
        book.spec_process_matches(book.spec_matching_bets(bet)).spec_opposite_queue(bet.bet_type)
            == spec_queue_after(
            book.spec_opposite_queue(bet.bet_type),
            book.spec_matching_bets(bet),
        ),
{
    let side = spec_other_side(bet.bet_type);
    let queue = book.spec_queue(side);
    let fills = book.spec_matching_bets(bet);
    assert(queue == book.spec_opposite_queue(bet.bet_type));
    lemma_fills_shape(queue, bet, bet.unmatched_amount);
    assert forall|i: int| 0 <= i < fills.len() implies {
        &&& (#[trigger] fills[i]).bet_type == side
        &&& fills[i].receipt_id == queue[i].receipt_id
    } by {
        assert(queue[i].bet_type == side);
    }
    lemma_process_head_matches(book, side, fills);
    assert(spec_other_side(side) == bet.bet_type);
}

/// A valid bet with something left to match enters a valid book and leaves
/// it valid.
pub proof fn lemma_add_keeps_valid(book: Book, bet: Bet)
    requires
        book.spec_valid(),
        bet.spec_valid(),
        bet.unmatched_amount > 0,
    ensures
        book.spec_add_to_queue(bet).spec_valid(),
{
    lemma_insert_keeps_valid(bet.bet_type, book.spec_queue(bet.bet_type), bet);
}

/// A bet taken out of a valid book leaves it valid.
pub proof fn lemma_remove_from_queue_keeps_valid(book: Book, bet: Bet)
    requires
        book.spec_valid(),
    ensures
        book.spec_remove_from_queue(bet).spec_valid(),
{
    let queue = book.spec_queue(bet.bet_type);
    lemma_find_index_from(queue, bet.receipt_id, 0);
    if let Some(at) = spec_find_bet_index(queue, bet.receipt_id) {
        lemma_remove_keeps_valid(bet.bet_type, queue, at);
    }
}

/// Valid matches worked into a valid book leave it valid.
pub proof fn lemma_process_matches_keeps_valid(book: Book, matching_bets: Seq<Bet>)
    requires
        book.spec_valid(),
        forall|i: int| 0 <= i < matching_bets.len() ==> (#[trigger] matching_bets[i]).spec_valid(),
    ensures
        book.spec_process_matches(matching_bets).spec_valid(),
    decreases matching_bets.len(),
{
    if matching_bets.len() > 0 {
        let earlier = matching_bets.drop_last();
        let last = matching_bets.last();
        assert forall|i: int| 0 <= i < earlier.len() implies (#[trigger] earlier[i]).spec_valid() by {
            assert(earlier[i] == matching_bets[i]);
        }
        lemma_process_matches_keeps_valid(book, earlier);
        let before = book.spec_process_matches(earlier);
        let queue = before.spec_queue(last.bet_type);
        let counted = match spec_find_bet_index(queue, last.receipt_id) {
            Some(at) => if queue[at].status != last.status {
                before.spec_update_status_counters(queue[at].status, last.status)
            } else {
                before
            },
            None => before,
        };
        assert(counted.spec_valid());
        lemma_remove_from_queue_keeps_valid(counted, last);
        if last.unmatched_amount > 0 {
            lemma_add_keeps_valid(counted.spec_remove_from_queue(last), last);
        }
    }
}

/// The walk that matches a bet leaves a valid book valid.
pub proof fn lemma_find_matches_keeps_valid(book: Book, bet: Bet)
    requires
        book.spec_valid(),
    ensures
        book.spec_find_matches(bet).spec_valid(),
{
    let side = spec_other_side(bet.bet_type);
    let queue = book.spec_opposite_queue(bet.bet_type);
    let fills = book.spec_matching_bets(bet);
    lemma_fills_shape(queue, bet, bet.unmatched_amount);
    lemma_skip_keeps_valid(side, queue, fills.len() as int);
    if fills.len() > 0 && fills.last().unmatched_amount > 0 {
        let at = fills.len() - 1;
        assert(queue[at].bet_type == side);
        lemma_match_moves_amount(
            queue[at],
            (fills[at].matched_amount - queue[at].matched_amount) as u64,
        );
        lemma_insert_keeps_valid(side, queue.skip(fills.len() as int), fills.last());
    }
}

/// Counting matches touches the counts only: queues, liquidity and best odds
/// stay, and with them the validity of the book.
pub proof fn lemma_count_matches_keeps_queues(
    book: Book,
    resting_bets: Seq<Bet>,
    matching_bets: Seq<Bet>,
)
    ensures
        book.spec_count_matches(resting_bets, matching_bets).back_orders == book.back_orders,
        book.spec_count_matches(resting_bets, matching_bets).lay_orders == book.lay_orders,
        book.spec_count_matches(resting_bets, matching_bets).back_liquidity
            == book.back_liquidity,
        book.spec_count_matches(resting_bets, matching_bets).lay_liquidity == book.lay_liquidity,
        book.spec_count_matches(resting_bets, matching_bets).best_back_odds
            == book.best_back_odds,
        book.spec_count_matches(resting_bets, matching_bets).best_lay_odds == book.best_lay_odds,
        book.spec_valid() ==> book.spec_count_matches(resting_bets, matching_bets).spec_valid(),
    decreases matching_bets.len(),
{
    if matching_bets.len() > 0 {
        lemma_count_matches_keeps_queues(book, resting_bets, matching_bets.drop_last());
    }
}

/// Counting matches raises a count by the number of matches at most, and not
/// at all where no match has the status counted.
pub proof fn lemma_count_matches_counts(
    book: Book,
    resting_bets: Seq<Bet>,
    matching_bets: Seq<Bet>,
    status: BetStatus,
)
    ensures
        book.spec_count_matches(resting_bets, matching_bets).spec_count(status)
            <= book.spec_count(status) + matching_bets.len(),
        (forall|i: int| 0 <= i < matching_bets.len() ==> (#[trigger] matching_bets[i]).status
            != status) ==> book.spec_count_matches(resting_bets, matching_bets).spec_count(status)
            <= book.spec_count(status),
    decreases matching_bets.len(),
{
    if matching_bets.len() > 0 {
        let earlier = matching_bets.drop_last();
        lemma_count_matches_counts(book, resting_bets, earlier, status);
        if forall|i: int| 0 <= i < matching_bets.len() ==> (#[trigger] matching_bets[i]).status
            != status {
            assert forall|i: int| 0 <= i < earlier.len() implies (#[trigger] earlier[i]).status
                != status by {
                assert(earlier[i] == matching_bets[i]);
            }
            assert(matching_bets[matching_bets.len() - 1].status != status);
        }
    }
}

/// Matching a bet that comes in with its whole total left to match leaves a
/// valid book valid: both queues in price-time order, every resting bet with
/// something left to match, each liquidity the sum of the stakes resting on
/// its side, and each best odds those at the head of its queue.
pub proof fn lemma_process_bet_keeps_valid(book: Book, bet: Bet)
    requires
        book.spec_valid(),
        bet.spec_fresh(),
    ensures
        book.spec_process_bet(bet).spec_valid(),
        book.spec_process_bet(bet).back_liquidity == spec_liquidity(
            book.spec_process_bet(bet).back_orders,
        ),
        book.spec_process_bet(bet).lay_liquidity == spec_liquidity(
            book.spec_process_bet(bet).lay_orders,
        ),
        book.spec_process_bet(bet).best_back_odds == spec_best_odds(
            book.spec_process_bet(bet).back_orders,
        ),
        book.spec_process_bet(bet).best_lay_odds == spec_best_odds(
            book.spec_process_bet(bet).lay_orders,
        ),
{
    let updated = book.spec_updated_bet(bet);
    let found = book.spec_find_matches(bet).spec_count_in(updated.status);
    let counted = found.spec_count_matches(
        book.spec_opposite_queue(bet.bet_type),
        book.spec_matching_bets(bet),
    );
    lemma_find_matches_keeps_valid(book, bet);
    assert(found.spec_valid());
    lemma_count_matches_keeps_queues(
        found,
        book.spec_opposite_queue(bet.bet_type),
        book.spec_matching_bets(bet),
    );
    lemma_incoming_bet_stays_balanced(book, bet);
    if updated.unmatched_amount > 0 {
        lemma_add_keeps_valid(counted, updated);
    }
}

/// Working a match into a book raises the count of the status of the match
/// by one at most, and raises no other count.
pub proof fn lemma_process_match_counts(book: Book, matched_bet: Bet, status: BetStatus)
    ensures
        book.spec_process_match(matched_bet).spec_count(status) <= book.spec_count(status) + 1,
        status != matched_bet.status ==> book.spec_process_match(matched_bet).spec_count(status)
            <= book.spec_count(status),
{
}

/// Working matches into a book raises a count by the number of matches at
/// most, and not at all where no match has the status counted.
pub proof fn lemma_process_matches_counts(book: Book, matching_bets: Seq<Bet>, status: BetStatus)
    ensures
        book.spec_process_matches(matching_bets).spec_count(status) <= book.spec_count(status)
            + matching_bets.len(),
        (forall|i: int| 0 <= i < matching_bets.len() ==> (#[trigger] matching_bets[i]).status
            != status) ==> book.spec_process_matches(matching_bets).spec_count(status)
            <= book.spec_count(status),
    decreases matching_bets.len(),
{
    if matching_bets.len() > 0 {
        let earlier = matching_bets.drop_last();
        let last = matching_bets.last();
        lemma_process_matches_counts(book, earlier, status);
        lemma_process_match_counts(book.spec_process_matches(earlier), last, status);
        if forall|i: int| 0 <= i < matching_bets.len() ==> (#[trigger] matching_bets[i]).status
            != status {
            assert forall|i: int| 0 <= i < earlier.len() implies (#[trigger] earlier[i]).status
                != status by {
                assert(earlier[i] == matching_bets[i]);
            }
            assert(last == matching_bets[matching_bets.len() - 1]);
        }
    }
}

/// Where every count can grow by the number of matches, working them into
/// the book takes no count beyond 64 bits.
pub proof fn lemma_room_allows_processing(book: Book, matching_bets: Seq<Bet>)
    requires
        book.spec_room(matching_bets.len()),
    ensures
        book.spec_can_process_all(matching_bets),
{
    assert forall|i: int| 0 <= i < matching_bets.len() implies (#[trigger] book.spec_process_matches(
        matching_bets.take(i),
    )).spec_can_process(matching_bets[i]) by {
        lemma_process_matches_counts(book, matching_bets.take(i), matching_bets[i].status);
    }
}

/// A book with room for a bet of its side can count the bet and every match
/// it makes: the bet ends unmatched, partially matched or matched, each
/// resting bet it is matched with ends partially matched or matched, and
/// there are no more of these than the other side has resting bets.
pub proof fn lemma_room_for_bet(book: Book, bet: Bet)
    requires
        book.spec_valid(),
        book.spec_room_for(bet.bet_type),
    ensures
        book.spec_find_matches(bet).spec_count(book.spec_updated_bet(bet).status) < u64::MAX,
        book.spec_find_matches(bet).spec_count_in(
            book.spec_updated_bet(bet).status,
        ).spec_can_count_matches(
            book.spec_opposite_queue(bet.bet_type),
            book.spec_matching_bets(bet),
        ),
{
    let queue = book.spec_opposite_queue(bet.bet_type);
    let fills = book.spec_matching_bets(bet);
    let counted = book.spec_find_matches(bet).spec_count_in(book.spec_updated_bet(bet).status);
    lemma_fills_shape(queue, bet, bet.unmatched_amount);
    assert forall|i: int|
        0 <= i < fills.len() && i < queue.len() && queue[i].status
            != fills[i].status implies (#[trigger] counted.spec_count_matches(
        queue,
        fills.take(i),
    )).spec_count(fills[i].status) < u64::MAX by {
        assert(fills[i].status == BetStatus::Matched || fills[i].status
            == BetStatus::PartiallyMatched);
        lemma_count_matches_counts(counted, queue, fills.take(i), fills[i].status);
    }
}

/// Every match pairs a backer with a layer whose odds are no higher, and
/// the matched amounts of the resting bets grow, taken together, by exactly
/// what is matched of the incoming bet, which is no more than it had left.
pub proof fn lemma_matches_are_fair(book: Book, bet: Bet)
    requires
        book.spec_valid(),
    ensures
        forall|i: int|
            0 <= i < book.spec_matching_bets(bet).len() ==> spec_odds_agree(
                bet,
                #[trigger] book.spec_matching_bets(bet)[i],
            ),
        book.spec_matching_bets(bet).len() <= book.spec_opposite_queue(bet.bet_type).len(),
        spec_matched_sum(book.spec_matching_bets(bet)) == spec_matched_sum(
            book.spec_opposite_queue(bet.bet_type).take(book.spec_matching_bets(bet).len() as int),
        ) + book.spec_matched_amount(bet),
        book.spec_matched_amount(bet) <= bet.unmatched_amount,
{
    let queue = book.spec_opposite_queue(bet.bet_type);
    let fills = book.spec_matching_bets(bet);
    lemma_fills_shape(queue, bet, bet.unmatched_amount);
    assert forall|i: int| 0 <= i < fills.len() implies spec_odds_agree(bet, #[trigger] fills[i]) by {
        assert(spec_can_match(bet, queue[i]));
    }
}

/// A bet that comes in with its whole total left to match leaves the
/// matching valid, with matched and unmatched amount making up that total.
pub proof fn lemma_incoming_bet_stays_balanced(book: Book, bet: Bet)
    requires
        book.spec_valid(),
        bet.spec_fresh(),
    ensures
        book.spec_updated_bet(bet).spec_valid(),
        book.spec_updated_bet(bet).spec_balanced(),
        book.spec_updated_bet(bet).matched_amount + book.spec_updated_bet(bet).unmatched_amount
            == bet.unmatched_amount,
{
    lemma_matches_are_fair(book, bet);
}

/// What matching a bet leaves in the queues of a book. The queue of its
/// own side takes the bet in at its place where something of it is left to
/// match, and is unchanged otherwise. On the other side the bets matched are
/// gone from the head of the queue, and the last of them, where it has
/// something left to match, is back at its place among the rest.
pub proof fn lemma_process_bet_queues(book: Book, bet: Bet)
    ensures
        book.spec_process_bet(bet).spec_queue(bet.bet_type) == if book.spec_updated_bet(
            bet,
        ).unmatched_amount > 0 {
            spec_insert_ordered(book.spec_queue(bet.bet_type), book.spec_updated_bet(bet))
        } else {
            book.spec_queue(bet.bet_type)
        },
        book.spec_process_bet(bet).spec_opposite_queue(bet.bet_type) == spec_queue_after(
            book.spec_opposite_queue(bet.bet_type),
            book.spec_matching_bets(bet),
        ),
{
    let updated = book.spec_updated_bet(bet);
    let found = book.spec_find_matches(bet).spec_count_in(updated.status);
    lemma_count_matches_keeps_queues(
        found,
        book.spec_opposite_queue(bet.bet_type),
        book.spec_matching_bets(bet),
    );
}

/// No bet of the queue has the receipt.
pub open spec fn spec_without_receipt(queue: Seq<Bet>, receipt_id: u64) -> bool {
    forall|i: int| 0 <= i < queue.len() ==> (#[trigger] queue[i]).receipt_id != receipt_id
}

/// No two bets of the queue have the same receipt.
pub open spec fn spec_receipts_distinct(queue: Seq<Bet>) -> bool {
    forall|i: int, j: int|
        0 <= i < j < queue.len() ==> (#[trigger] queue[i]).receipt_id != (
        #[trigger] queue[j]).receipt_id
}

/// No bet of one queue has the receipt of a bet of the other.
pub open spec fn spec_receipts_apart(one: Seq<Bet>, other: Seq<Bet>) -> bool {
    forall|i: int, j: int|
        0 <= i < one.len() && 0 <= j < other.len() ==> (#[trigger] one[i]).receipt_id != (
        #[trigger] other[j]).receipt_id
}

/// Every receipt stands once in the book: not twice in a queue, and not in
/// both queues.
pub open spec fn spec_receipts_once(book: Book) -> bool {
    &&& spec_receipts_distinct(book.back_orders)
    &&& spec_receipts_distinct(book.lay_orders)
    &&& spec_receipts_apart(book.back_orders, book.lay_orders)
}

/// A bet with a receipt new to a queue can enter it anywhere and the
/// receipts stay distinct; a receipt that neither the queue nor the bet has
/// is still not there.
pub proof fn lemma_insert_receipts(queue: Seq<Bet>, at: int, bet: Bet, receipt_id: u64)
    requires
        0 <= at <= queue.len(),
    ensures
        spec_receipts_distinct(queue) && spec_without_receipt(queue, bet.receipt_id)
            ==> spec_receipts_distinct(queue.insert(at, bet)),
        spec_without_receipt(queue, receipt_id) && bet.receipt_id != receipt_id
            ==> spec_without_receipt(queue.insert(at, bet), receipt_id),
{
    let after = queue.insert(at, bet);
    if spec_receipts_distinct(queue) && spec_without_receipt(queue, bet.receipt_id) {
        assert forall|i: int, j: int| 0 <= i < j < after.len() implies (#[trigger] after[i]).receipt_id
            != (#[trigger] after[j]).receipt_id by {
            let from_i = if i < at { i } else { i - 1 };
            let from_j = if j < at { j } else { j - 1 };
            if i != at {
                assert(after[i] == queue[from_i]);
            }
            if j != at {
                assert(after[j] == queue[from_j]);
            }
        }
    }
    if spec_without_receipt(queue, receipt_id) && bet.receipt_id != receipt_id {
        assert forall|i: int| 0 <= i < after.len() implies (#[trigger] after[i]).receipt_id
            != receipt_id by {
            let from_i = if i < at { i } else { i - 1 };
            if i != at {
                assert(after[i] == queue[from_i]);
            }
        }
    }
}

/// What matches leave of a queue holds no receipt that the queue did not
/// hold, and none twice where the queue held none twice.
pub proof fn lemma_queue_after_receipts(queue: Seq<Bet>, fills: Seq<Bet>, receipt_id: u64)
    requires
        fills.len() <= queue.len(),
        forall|i: int| 0 <= i < fills.len() ==> (#[trigger] fills[i]).receipt_id == queue[i].receipt_id,
    ensures
        spec_receipts_distinct(queue) ==> spec_receipts_distinct(spec_queue_after(queue, fills)),
        spec_without_receipt(queue, receipt_id) ==> spec_without_receipt(
            spec_queue_after(queue, fills),
            receipt_id,
        ),
{
    let count = fills.len() as int;
    let rest = queue.skip(count);
    assert forall|i: int| 0 <= i < rest.len() implies (#[trigger] rest[i]) == queue[i + count] by {}
    if spec_receipts_distinct(queue) {
        assert forall|i: int, j: int| 0 <= i < j < rest.len() implies (#[trigger] rest[i]).receipt_id
            != (#[trigger] rest[j]).receipt_id by {
            assert(rest[i] == queue[i + count] && rest[j] == queue[j + count]);
        }
    }
    if spec_without_receipt(queue, receipt_id) {
        assert forall|i: int| 0 <= i < rest.len() implies (#[trigger] rest[i]).receipt_id
            != receipt_id by {
            assert(rest[i] == queue[i + count]);
        }
    }
    if fills.len() > 0 && fills.last().unmatched_amount > 0 {
        let last = fills.last();
        let at = spec_insert_index(rest, last);
        lemma_insert_index_from(rest, last, 0);
        assert(last.receipt_id == queue[count - 1].receipt_id);
        if spec_receipts_distinct(queue) {
            assert forall|i: int| 0 <= i < rest.len() implies (#[trigger] rest[i]).receipt_id
                != last.receipt_id by {
                assert(rest[i] == queue[i + count]);
            }
        }
        lemma_insert_receipts(rest, at, last, receipt_id);
    }
}

/// Receipts stay what they are for: where every receipt stands once in a
/// valid book and the incoming bet brings a new one, every receipt stands
/// once after the matching too. The bet rests in the queue of its own side,
/// at its place, exactly when something of it is left to match, and never
/// in the other queue; and every bet that rests has something left to match.
pub proof fn lemma_process_bet_receipts(book: Book, bet: Bet)
    requires
        book.spec_valid(),
        bet.spec_fresh(),
        spec_receipts_once(book),
        spec_without_receipt(book.back_orders, bet.receipt_id),
        spec_without_receipt(book.lay_orders, bet.receipt_id),
    ensures
        book.spec_process_bet(bet).spec_valid(),
        spec_receipts_once(book.spec_process_bet(bet)),
        spec_without_receipt(
            book.spec_process_bet(bet).spec_opposite_queue(bet.bet_type),
            bet.receipt_id,
        ),
        book.spec_updated_bet(bet).unmatched_amount == 0 ==> spec_without_receipt(
            book.spec_process_bet(bet).spec_queue(bet.bet_type),
            bet.receipt_id,
        ),
        book.spec_updated_bet(bet).unmatched_amount > 0 ==> book.spec_process_bet(bet).spec_queue(
            bet.bet_type,
        )[spec_insert_index(book.spec_queue(bet.bet_type), book.spec_updated_bet(bet))]
            == book.spec_updated_bet(bet),
        forall|i: int|
            0 <= i < book.spec_process_bet(bet).back_orders.len() ==> (
            #[trigger] book.spec_process_bet(bet).back_orders[i]).unmatched_amount > 0,
        forall|i: int|
            0 <= i < book.spec_process_bet(bet).lay_orders.len() ==> (
            #[trigger] book.spec_process_bet(bet).lay_orders[i]).unmatched_amount > 0,
{
    let own = book.spec_queue(bet.bet_type);
    let other = book.spec_opposite_queue(bet.bet_type);
    let fills = book.spec_matching_bets(bet);
    let updated = book.spec_updated_bet(bet);
    let after = book.spec_process_bet(bet);
    let own_after = after.spec_queue(bet.bet_type);
    let other_after = after.spec_opposite_queue(bet.bet_type);
    lemma_process_bet_keeps_valid(book, bet);
    lemma_process_bet_queues(book, bet);
    lemma_fills_shape(other, bet, bet.unmatched_amount);
    lemma_queue_after_receipts(other, fills, bet.receipt_id);
    let at = spec_insert_index(own, updated);
    lemma_insert_index_from(own, updated, 0);
    lemma_insert_receipts(own, at, updated, bet.receipt_id);
    assert(spec_receipts_distinct(own) && spec_receipts_distinct(other));
    assert(spec_receipts_distinct(own_after));
    assert(spec_receipts_distinct(other_after));
    assert forall|i: int, j: int|
        0 <= i < own_after.len() && 0 <= j < other_after.len() implies (
    #[trigger] own_after[i]).receipt_id != (#[trigger] other_after[j]).receipt_id by {
        let receipt_id = own_after[i].receipt_id;
        if updated.unmatched_amount > 0 && i == at {
            assert(receipt_id == bet.receipt_id);
        } else {
            let from_i = if updated.unmatched_amount > 0 && i > at { i - 1 } else { i };
            assert(own_after[i] == own[from_i]);
            assert forall|k: int| 0 <= k < other.len() implies (#[trigger] other[k]).receipt_id
                != receipt_id by {
                match bet.bet_type {
                    BetType::Back => {
                        assert(book.back_orders[from_i].receipt_id != book.lay_orders[k].receipt_id);
                    },
                    BetType::Lay => {
                        assert(book.back_orders[k].receipt_id != book.lay_orders[from_i].receipt_id);
                    },
                }
            }
            lemma_queue_after_receipts(other, fills, receipt_id);
        }
    }
    assert(spec_receipts_apart(own_after, other_after));
    match bet.bet_type {
        BetType::Back => {
            assert(after.back_orders == own_after && after.lay_orders == other_after);
        },
        BetType::Lay => {
            assert(after.lay_orders == own_after && after.back_orders == other_after);
            assert forall|i: int, j: int|
                0 <= i < after.back_orders.len() && 0 <= j < after.lay_orders.len() implies (
            #[trigger] after.back_orders[i]).receipt_id != (
            #[trigger] after.lay_orders[j]).receipt_id by {
                assert(own_after[j].receipt_id != other_after[i].receipt_id);
            }
        },
    }
}

/// What entering a bet into a valid book does to the numbers of the book.
/// The liquidity of the bet's side grows by its stake and is the sum of the
/// stakes in the new queue. The best odds of that side are the better of the
/// old best odds and the bet's: the higher for back bets, the lower for lay
/// bets, and the bet's own where the queue was empty. The other side and the
/// counts stay.
pub proof fn lemma_add_to_queue_numbers(book: Book, bet: Bet)
    requires
        book.spec_valid(),
    ensures
        ({
            let after = book.spec_add_to_queue(bet);
            match bet.bet_type {
                BetType::Back => {
                    &&& after.back_liquidity == book.back_liquidity + bet.stake_amount
                    &&& after.back_liquidity == spec_liquidity(after.back_orders)
                    &&& after.best_back_odds == spec_best_odds(after.back_orders)
                    &&& after.best_back_odds == if book.best_back_odds >= bet.odds {
                        book.best_back_odds
                    } else {
                        bet.odds
                    }
                    &&& after.lay_orders == book.lay_orders
                    &&& after.lay_liquidity == book.lay_liquidity
                    &&& after.best_lay_odds == book.best_lay_odds
                },
                BetType::Lay => {
                    &&& after.lay_liquidity == book.lay_liquidity + bet.stake_amount
                    &&& after.lay_liquidity == spec_liquidity(after.lay_orders)
                    &&& after.best_lay_odds == spec_best_odds(after.lay_orders)
                    &&& after.best_lay_odds == if book.lay_orders.len() > 0 && book.best_lay_odds
                        <= bet.odds {
                        book.best_lay_odds
                    } else {
                        bet.odds
                    }
                    &&& after.back_orders == book.back_orders
                    &&& after.back_liquidity == book.back_liquidity
                    &&& after.best_back_odds == book.best_back_odds
                },
            }
        }),
        book.spec_add_to_queue(bet).matched_count == book.matched_count,
        book.spec_add_to_queue(bet).unmatched_count == book.unmatched_count,
        book.spec_add_to_queue(bet).partially_matched_count == book.partially_matched_count,
        book.spec_add_to_queue(bet).win_count == book.win_count,
        book.spec_add_to_queue(bet).lost_count == book.lost_count,
        book.spec_add_to_queue(bet).canceled_count == book.canceled_count,
{
    let queue = book.spec_queue(bet.bet_type);
    let at = spec_insert_index(queue, bet);
    lemma_insert_index_from(queue, bet, 0);
    lemma_liquidity_insert(queue, at, bet);
    if queue.len() > 0 && at > 0 {
        assert(!spec_should_insert_before(bet, queue[0]));
    }
}

/// A lay request whose stake and liability are those the odds give, and add
/// up to the funds, is taken on an open market with that stake and that
/// liability: nothing is made or lost by rounding.
pub proof fn lemma_lay_split_is_taken(
    market: MarketView,
    caller: [u8; 32],
    created_at: u64,
    total_amount: u64,
    bet_id: u64,
    selection_id: u64,
    odds: u64,
    liability: u64,
)
    requires
        market.market_status == MarketStatus::Open,
        created_at < market.close_timestamp,
        spec_valid_odds(odds),
        market.spec_selection_index(selection_id) is Some,
        liability > 0,
        liability == spec_liability_for_lay(
            spec_stake_from_total_and_odds(total_amount as nat, odds as nat),
            odds as nat,
        ),
        spec_stake_from_total_and_odds(total_amount as nat, odds as nat) + liability
            == total_amount,
    ensures
        spec_rejection(
            Some(market),
            created_at,
            total_amount,
            selection_id,
            odds,
            BetType::Lay,
            liability,
        ) is None,
        ({
            let bet = spec_new_bet(
                market.market_id,
                caller,
                created_at,
                total_amount,
                bet_id,
                selection_id,
                odds,
                BetType::Lay,
                liability,
            );
            &&& bet.stake_amount == spec_stake_from_total_and_odds(
                total_amount as nat,
                odds as nat,
            )
            &&& bet.liability == liability
            &&& bet.stake_amount + bet.liability == total_amount
            &&& bet.spec_fresh()
        }),
{
}

/// Every request that is taken builds a bet whose stake and liability add up
/// to the funds that came with it, with its whole matchable total left to
/// match.
pub proof fn lemma_taken_bet_adds_up(
    market: MarketView,
    caller: [u8; 32],
    created_at: u64,
    total_amount: u64,
    bet_id: u64,
    selection_id: u64,
    odds: u64,
    bet_type: BetType,
    liability: u64,
)
    requires
        spec_rejection(
            Some(market),
            created_at,
            total_amount,
            selection_id,
            odds,
            bet_type,
            liability,
        ) is None,
    ensures
        ({
            let bet = spec_new_bet(
                market.market_id,
                caller,
                created_at,
                total_amount,
                bet_id,
                selection_id,
                odds,
                bet_type,
                liability,
            );
            &&& bet.stake_amount == spec_stake(bet_type, total_amount, odds)
            &&& bet.stake_amount + bet.liability == total_amount
            &&& bet.spec_fresh()
        }),
{
    crate::money::lemma_stake_within_total(total_amount as nat, odds as nat);
}

} // verus!
