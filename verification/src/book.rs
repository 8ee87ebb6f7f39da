//! The order book of one selection as a mathematical value, and what each
//! operation of the exchange makes of it.

use vstd::prelude::*;
use crate::matching::{spec_fill_total, spec_fills, spec_other_side, spec_queue_after};
use crate::queue::{
    spec_best_odds, spec_find_bet_index, spec_insert_ordered, spec_liquidity, spec_queue_valid,
};
use crate::types::{Bet, BetStatus, BetType};

verus! {

/// What a `Tracker` holds: the two queues of resting bets, the best odds and
/// the liquidity of each, and how many bets stand in each status.
pub struct Book {
    pub back_orders: Seq<Bet>,
    pub lay_orders: Seq<Bet>,
    pub best_back_odds: u64,
    pub best_lay_odds: u64,
    pub back_liquidity: nat,
    pub lay_liquidity: nat,
    pub matched_count: nat,
    pub unmatched_count: nat,
    pub partially_matched_count: nat,
    pub win_count: nat,
    pub lost_count: nat,
    pub canceled_count: nat,
}

impl Book {
    /// The book of a selection nobody has bet on yet.
    pub open spec fn spec_empty() -> Book {
        Book {
            back_orders: Seq::empty(),
            lay_orders: Seq::empty(),
            best_back_odds: 0,
            best_lay_odds: 0,
            back_liquidity: 0,
            lay_liquidity: 0,
            matched_count: 0,
            unmatched_count: 0,
            partially_matched_count: 0,
            win_count: 0,
            lost_count: 0,
            canceled_count: 0,
        }
    }

    /// The queue of one side.
    pub open spec fn spec_queue(self, side: BetType) -> Seq<Bet> {
        match side {
            BetType::Back => self.back_orders,
            BetType::Lay => self.lay_orders,
        }
    }

    /// The queue a bet of `side` is matched against.
    pub open spec fn spec_opposite_queue(self, side: BetType) -> Seq<Bet> {
        match side {
            BetType::Back => self.lay_orders,
            BetType::Lay => self.back_orders,
        }
    }

    /// The book with the queue of one side replaced; best odds and liquidity
    /// of that side follow the new queue.
    pub open spec fn spec_with_queue(self, side: BetType, queue: Seq<Bet>) -> Book {
        match side {
            BetType::Back => Book {
                back_orders: queue,
                best_back_odds: spec_best_odds(queue),
                back_liquidity: spec_liquidity(queue),
                ..self
            },
            BetType::Lay => Book {
                lay_orders: queue,
                best_lay_odds: spec_best_odds(queue),
                lay_liquidity: spec_liquidity(queue),
                ..self
            },
        }
    }

    /// Both queues are valid, each liquidity is the sum of the stakes resting
    /// on its side, and each best odds are those at the head of its queue.
    pub open spec fn spec_valid(self) -> bool {
        &&& spec_queue_valid(BetType::Back, self.back_orders)
        &&& spec_queue_valid(BetType::Lay, self.lay_orders)
        &&& self.back_liquidity == spec_liquidity(self.back_orders)
        &&& self.lay_liquidity == spec_liquidity(self.lay_orders)
        &&& self.best_back_odds == spec_best_odds(self.back_orders)
        &&& self.best_lay_odds == spec_best_odds(self.lay_orders)
    }

    /// How many bets the book counts in a status.
    pub open spec fn spec_count(self, status: BetStatus) -> nat {
        match status {
            BetStatus::Matched => self.matched_count,
            BetStatus::Unmatched => self.unmatched_count,
            BetStatus::PartiallyMatched => self.partially_matched_count,
            BetStatus::Win => self.win_count,
            BetStatus::Lost => self.lost_count,
            BetStatus::Canceled => self.canceled_count,
        }
    }

    /// The book with the count of one status replaced.
    pub open spec fn spec_with_count(self, status: BetStatus, count: nat) -> Book {
        match status {
            BetStatus::Matched => Book { matched_count: count, ..self },
            BetStatus::Unmatched => Book { unmatched_count: count, ..self },
            BetStatus::PartiallyMatched => Book { partially_matched_count: count, ..self },
            BetStatus::Win => Book { win_count: count, ..self },
            BetStatus::Lost => Book { lost_count: count, ..self },
            BetStatus::Canceled => Book { canceled_count: count, ..self },
        }
    }

    /// Every count can grow by `more` and still fit in 64 bits.
    pub open spec fn spec_room(self, more: nat) -> bool {
        &&& self.matched_count + more <= u64::MAX
        &&& self.unmatched_count + more <= u64::MAX
        &&& self.partially_matched_count + more <= u64::MAX
        &&& self.win_count + more <= u64::MAX
        &&& self.lost_count + more <= u64::MAX
        &&& self.canceled_count + more <= u64::MAX
    }

    /// The counts that matching a bet of `bet_type` can raise have room for
    /// it: one bet more unmatched, and as many more matched or partially
    /// matched as the other side has resting bets, and one.
    pub open spec fn spec_room_for(self, bet_type: BetType) -> bool {
        &&& self.unmatched_count + 1 <= u64::MAX
        &&& self.matched_count + self.spec_opposite_queue(bet_type).len() + 1 <= u64::MAX
        &&& self.partially_matched_count + self.spec_opposite_queue(bet_type).len() + 1
            <= u64::MAX
    }

    /// One more bet counted in a status.
    pub open spec fn spec_count_in(self, status: BetStatus) -> Book {
        self.spec_with_count(status, self.spec_count(status) + 1)
    }

    /// One bet fewer counted in a status; a count of zero stays zero.
    pub open spec fn spec_count_out(self, status: BetStatus) -> Book {
        if self.spec_count(status) > 0 {
            self.spec_with_count(status, (self.spec_count(status) - 1) as nat)
        } else {
            self
        }
    }

    /// A bet moves from one status to another: it leaves the count of the old
    /// and enters the count of the new. A bet that stays unmatched is a new
    /// bet counted for the first time. Any other bet that keeps its status
    /// changes nothing.
    pub open spec fn spec_update_status_counters(
        self,
        old_status: BetStatus,
        new_status: BetStatus,
    ) -> Book {
        if old_status != new_status {
            self.spec_count_out(old_status).spec_count_in(new_status)
        } else if old_status == BetStatus::Unmatched {
            self.spec_count_in(BetStatus::Unmatched)
        } else {
            self
        }
    }

    /// The bet enters the queue of its side at its place.
    pub open spec fn spec_add_to_queue(self, bet: Bet) -> Book {
        self.spec_with_queue(
            bet.bet_type,
            spec_insert_ordered(self.spec_queue(bet.bet_type), bet),
        )
    }

    /// The first bet with the receipt of `bet` leaves the queue of the side
    /// of `bet`; a book without such a bet stays as it is.
    pub open spec fn spec_remove_from_queue(self, bet: Bet) -> Book {
        match spec_find_bet_index(self.spec_queue(bet.bet_type), bet.receipt_id) {
            Some(at) => self.spec_with_queue(bet.bet_type, self.spec_queue(bet.bet_type).remove(at)),
            None => self,
        }
    }

    /// One match is worked into the book. The resting bet that has the
    /// receipt of `matched_bet` moves to the count of the new status where the
    /// status changed, and leaves its queue; `matched_bet` takes its place in
    /// the queue where it has something left to match.
    pub open spec fn spec_process_match(self, matched_bet: Bet) -> Book {
        let queue = self.spec_queue(matched_bet.bet_type);
        let counted = match spec_find_bet_index(queue, matched_bet.receipt_id) {
            Some(at) => if queue[at].status != matched_bet.status {
                self.spec_update_status_counters(queue[at].status, matched_bet.status)
            } else {
                self
            },
            None => self,
        };
        let removed = counted.spec_remove_from_queue(matched_bet);
        if matched_bet.unmatched_amount > 0 {
            removed.spec_add_to_queue(matched_bet)
        } else {
            removed
        }
    }

    /// Working `matched_bet` into the book takes no count beyond 64 bits: the
    /// count of its status has room where the match moves a resting bet there.
    pub open spec fn spec_can_process(self, matched_bet: Bet) -> bool {
        let queue = self.spec_queue(matched_bet.bet_type);
        match spec_find_bet_index(queue, matched_bet.receipt_id) {
            Some(at) => queue[at].status != matched_bet.status ==> self.spec_count(
                matched_bet.status,
            ) < u64::MAX,
            None => true,
        }
    }

    /// Working the matches into the book one after another takes no count
    /// beyond 64 bits.
    pub open spec fn spec_can_process_all(self, matching_bets: Seq<Bet>) -> bool {
        forall|i: int|
            0 <= i < matching_bets.len() ==> (#[trigger] self.spec_process_matches(
                matching_bets.take(i),
            )).spec_can_process(matching_bets[i])
    }

    /// The matches are worked into the book one after another.
    pub open spec fn spec_process_matches(self, matching_bets: Seq<Bet>) -> Book
        decreases matching_bets.len(),
    {
        if matching_bets.len() == 0 {
            self
        } else {
            self.spec_process_matches(matching_bets.drop_last()).spec_process_match(
                matching_bets.last(),
            )
        }
    }

    /// The resting bets that an incoming bet is matched with, each as the
    /// match leaves it.
    pub open spec fn spec_matching_bets(self, bet: Bet) -> Seq<Bet> {
        spec_fills(self.spec_opposite_queue(bet.bet_type), bet, bet.unmatched_amount)
    }

    /// How much of an incoming bet is matched against the book.
    pub open spec fn spec_matched_amount(self, bet: Bet) -> nat {
        spec_fill_total(self.spec_opposite_queue(bet.bet_type), bet, bet.unmatched_amount)
    }

    /// An incoming bet after it was matched against the book: what was
    /// matched, what is left, and the status these amounts call for.
    pub open spec fn spec_updated_bet(self, bet: Bet) -> Bet {
        let amounts = Bet {
            matched_amount: self.spec_matched_amount(bet) as u64,
            unmatched_amount: (bet.unmatched_amount - self.spec_matched_amount(bet)) as u64,
            ..bet
        };
        Bet { status: amounts.spec_status(), ..amounts }
    }

    /// The book after the walk that matches an incoming bet: the queue of
    /// the other side has lost the resting bets matched in full and holds the
    /// one matched in part, if there is one, as the match leaves it; its
    /// liquidity and best odds follow. The own side and the counts stay.
    pub open spec fn spec_find_matches(self, bet: Bet) -> Book {
        self.spec_with_queue(
            spec_other_side(bet.bet_type),
            spec_queue_after(self.spec_opposite_queue(bet.bet_type), self.spec_matching_bets(bet)),
        )
    }

    /// The counts after the matches were counted: each resting bet whose
    /// status a match has changed leaves the count of the status it had in
    /// `resting_bets` and enters the count of the one it has in
    /// `matching_bets`, one match after another.
    pub open spec fn spec_count_matches(self, resting_bets: Seq<Bet>, matching_bets: Seq<Bet>) -> Book
        decreases matching_bets.len(),
    {
        if matching_bets.len() == 0 {
            self
        } else {
            let earlier = self.spec_count_matches(resting_bets, matching_bets.drop_last());
            let at = matching_bets.len() - 1;
            if at < resting_bets.len() && resting_bets[at].status != matching_bets[at].status {
                earlier.spec_update_status_counters(
                    resting_bets[at].status,
                    matching_bets[at].status,
                )
            } else {
                earlier
            }
        }
    }

    /// Counting the matches takes no count beyond 64 bits: whenever a match
    /// moves a resting bet to another status, the count of that status has
    /// room.
    pub open spec fn spec_can_count_matches(
        self,
        resting_bets: Seq<Bet>,
        matching_bets: Seq<Bet>,
    ) -> bool {
        forall|i: int|
            0 <= i < matching_bets.len() && i < resting_bets.len() && resting_bets[i].status
                != matching_bets[i].status ==> (#[trigger] self.spec_count_matches(
                resting_bets,
                matching_bets.take(i),
            )).spec_count(matching_bets[i].status) < u64::MAX
    }

    /// The book after an incoming bet was matched against it: the walk takes
    /// the matched bets out of the other side, the bet is counted in its
    /// status, each resting bet whose status a match has changed is counted
    /// anew, and the bet rests in the queue of its side where it has
    /// something left to match.
    pub open spec fn spec_process_bet(self, bet: Bet) -> Book {
        let updated = self.spec_updated_bet(bet);
        let counted = self.spec_find_matches(bet).spec_count_in(updated.status).spec_count_matches(
            self.spec_opposite_queue(bet.bet_type),
            self.spec_matching_bets(bet),
        );
        if updated.unmatched_amount > 0 {
            counted.spec_add_to_queue(updated)
        } else {
            counted
        }
    }
}

} // verus!
