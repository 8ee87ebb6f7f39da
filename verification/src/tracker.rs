//! The order book of a selection and the matching of bets against it.

use vstd::prelude::*;
use crate::book::Book;
use crate::laws::{
    lemma_fills_shape, lemma_incoming_bet_stays_balanced, lemma_matches_are_fair,
    lemma_process_bet_queues, lemma_room_for_bet, lemma_skip_keeps_valid, spec_matched_sum,
    spec_odds_agree,
};
use crate::matching::{
    lemma_fill_total, spec_can_match, spec_fill_total, spec_fills, spec_match_amount,
    spec_matchable_liquidity, spec_other_side, spec_queue_after,
};
use crate::money::liability_for_lay;
use crate::queue::{
    copy_queue, lemma_find_index_from, lemma_insert_index_from, lemma_insert_keeps_valid,
    lemma_liquidity_bound, lemma_liquidity_insert, lemma_liquidity_remove,
    lemma_remove_keeps_valid, spec_best_odds, spec_find_bet_index, spec_find_index_from,
    spec_insert_index, spec_insert_index_from, spec_insert_ordered, spec_odds_of,
    spec_queue_valid, spec_should_insert_before,
};
use crate::types::{Bet, BetStatus, BetType, Tracker, ODDS_SCALE};
use crate::validate::liquidity_of;

verus! {

impl Tracker {
    /// Counts one more bet in a status.
    pub fn count_in(&mut self, status: BetStatus)
        requires
            old(self)@.spec_count(status) < u64::MAX,
        ensures
            final(self)@ == old(self)@.spec_count_in(status),
    {
        match status {
            BetStatus::Matched => self.matched_count = self.matched_count + 1,
            BetStatus::Unmatched => self.unmatched_count = self.unmatched_count + 1,
            BetStatus::PartiallyMatched => self.partially_matched_count =
                self.partially_matched_count + 1,
            BetStatus::Win => self.win_count = self.win_count + 1,
            BetStatus::Lost => self.lost_count = self.lost_count + 1,
            BetStatus::Canceled => self.canceled_count = self.canceled_count + 1,
        }
    }

    /// Counts one bet fewer in a status; a count of zero stays zero.
    pub fn count_out(&mut self, status: BetStatus)
        ensures
            final(self)@ == old(self)@.spec_count_out(status),
    {
        match status {
            BetStatus::Matched => if self.matched_count > 0 {
                self.matched_count = self.matched_count - 1;
            },
            BetStatus::Unmatched => if self.unmatched_count > 0 {
                self.unmatched_count = self.unmatched_count - 1;
            },
            BetStatus::PartiallyMatched => if self.partially_matched_count > 0 {
                self.partially_matched_count = self.partially_matched_count - 1;
            },
            BetStatus::Win => if self.win_count > 0 {
                self.win_count = self.win_count - 1;
            },
            BetStatus::Lost => if self.lost_count > 0 {
                self.lost_count = self.lost_count - 1;
            },
            BetStatus::Canceled => if self.canceled_count > 0 {
                self.canceled_count = self.canceled_count - 1;
            },
        }
    }
}

/// Keeping an order book and matching bets against it.
pub trait TrackerModule {
    /// The book of a selection nobody has bet on yet.
    fn init_bet_scheduler(&self) -> (scheduler: Tracker)
        ensures
            scheduler@ == Book::spec_empty(),
            scheduler@.spec_valid(),
    {
        Tracker {
            back_orders: Vec::new(),
            lay_orders: Vec::new(),
            best_back_odds: 0,
            best_lay_odds: 0,
            back_liquidity: 0,
            lay_liquidity: 0,
            matched_count: 0,
            unmatched_count: 0,
            partially_matched_count: 0,
            win_count: 0,
            lost_count: 0,
            canceled_count: 0,
        }
    }

    /// What a reader of the book is shown: how many bets rest on each side,
    /// the liquidity of each side, and the odds of the resting bets of each
    /// side in queue order.
    fn inspect_queues(&self, scheduler: &Tracker) -> (shown: (
        usize,
        usize,
        u128,
        u128,
        Vec<u64>,
        Vec<u64>,
    ))
        ensures
            shown.0 == scheduler@.back_orders.len(),
            shown.1 == scheduler@.lay_orders.len(),
            shown.2 == scheduler@.back_liquidity,
            shown.3 == scheduler@.lay_liquidity,
            shown.4@ == spec_odds_of(scheduler@.back_orders),
            shown.5@ == spec_odds_of(scheduler@.lay_orders),
    {
        let mut back_odds: Vec<u64> = Vec::new();
        let mut lay_odds: Vec<u64> = Vec::new();
        let mut i: usize = 0;
        while i < scheduler.back_orders.len()
            invariant
                i <= scheduler.back_orders.len(),
                back_odds@ == spec_odds_of(scheduler.back_orders@.take(i as int)),
            decreases scheduler.back_orders.len() - i,
        {
            back_odds.push(scheduler.back_orders[i].odds);
            assert(back_odds@ =~= spec_odds_of(scheduler.back_orders@.take(i + 1)));
            i += 1;
        }
        assert(scheduler.back_orders@.take(i as int) =~= scheduler.back_orders@);
        let mut j: usize = 0;
        while j < scheduler.lay_orders.len()
            invariant
                j <= scheduler.lay_orders.len(),
                lay_odds@ == spec_odds_of(scheduler.lay_orders@.take(j as int)),
            decreases scheduler.lay_orders.len() - j,
        {
            lay_odds.push(scheduler.lay_orders[j].odds);
            assert(lay_odds@ =~= spec_odds_of(scheduler.lay_orders@.take(j + 1)));
            j += 1;
        }
        assert(scheduler.lay_orders@.take(j as int) =~= scheduler.lay_orders@);
        (
            scheduler.back_orders.len(),
            scheduler.lay_orders.len(),
            scheduler.back_liquidity,
            scheduler.lay_liquidity,
            back_odds,
            lay_odds,
        )
    }

    /// Walks the queue opposite to an incoming bet from its head and matches
    /// the bet with every resting bet it can be matched with, until nothing
    /// of it is left. Each resting bet matched leaves the queue; the one
    /// matched in part, if there is one, is put back at its place with what
    /// it has left, and liquidity and best odds of that side follow. The own
    /// side of the bet and the counts are not touched. Gives the amount
    /// matched, the amount left, and the resting bets that took part, each as
    /// the match leaves it.
    fn find_matches(&self, scheduler: &mut Tracker, bet: &Bet) -> (found: (u64, u64, Vec<Bet>))
        requires
            old(scheduler)@.spec_valid(),
        ensures
            found.0 == old(scheduler)@.spec_matched_amount(*bet),
            found.0 == if bet.unmatched_amount <= spec_matchable_liquidity(
                old(scheduler)@.spec_opposite_queue(bet.bet_type),
                *bet,
            ) {
                bet.unmatched_amount as nat
            } else {
                spec_matchable_liquidity(old(scheduler)@.spec_opposite_queue(bet.bet_type), *bet)
            },
            found.0 + found.1 == bet.unmatched_amount,
            found.2@ == old(scheduler)@.spec_matching_bets(*bet),
            found.2@.len() <= old(scheduler)@.spec_opposite_queue(bet.bet_type).len(),
            forall|k: int| 0 <= k < found.2@.len() ==> (#[trigger] found.2@[k]).spec_valid(),
            final(scheduler)@ == old(scheduler)@.spec_with_queue(
                spec_other_side(bet.bet_type),
                spec_queue_after(old(scheduler)@.spec_opposite_queue(bet.bet_type), found.2@),
            ),
            final(scheduler)@.spec_valid(),
    {
        let ghost side: BetType = spec_other_side(bet.bet_type);
        let ghost resting: Seq<Bet> = scheduler@.spec_opposite_queue(bet.bet_type);
        let mut matched_amount: u64 = 0;
        let mut unmatched_amount: u64 = bet.unmatched_amount;
        let mut matching_bets: Vec<Bet> = Vec::new();
        let mut rest: Vec<Bet> = Vec::new();
        {
            let queue: &Vec<Bet> = match bet.bet_type {
                BetType::Back => &scheduler.lay_orders,
                BetType::Lay => &scheduler.back_orders,
            };
            let mut i: usize = 0;
            assert(queue@.skip(0) =~= queue@);
            proof {
                lemma_fill_total(queue@, *bet, bet.unmatched_amount);
            }
            while i < queue.len() && unmatched_amount > 0
                invariant
                    i <= queue.len(),
                    queue@ == resting,
                    spec_queue_valid(side, queue@),
                    matched_amount + unmatched_amount == bet.unmatched_amount,
                    matching_bets@.len() <= i,
                    forall|k: int|
                        0 <= k < matching_bets@.len() ==> (#[trigger] matching_bets@[k]).spec_valid(),
                    spec_fills(queue@, *bet, bet.unmatched_amount) == matching_bets@ + spec_fills(
                        queue@.skip(i as int),
                        *bet,
                        unmatched_amount,
                    ),
                    spec_fill_total(queue@, *bet, bet.unmatched_amount) == matched_amount
                        + spec_fill_total(queue@.skip(i as int), *bet, unmatched_amount),
                decreases queue.len() - i,
            {
                let existing_bet: Bet = queue[i];
                assert(queue@.skip(i as int)[0] == existing_bet);
                assert(queue@.skip(i as int).skip(1) =~= queue@.skip(i + 1));
                if self.can_match(bet, &existing_bet) {
                    let match_amount: u64 = self.calculate_match_amount(
                        bet,
                        &existing_bet,
                        unmatched_amount,
                    );
                    matched_amount = matched_amount + match_amount;
                    unmatched_amount = unmatched_amount - match_amount;
                    let mut updated_bet: Bet = existing_bet;
                    self.update_matched_amounts(&mut updated_bet, match_amount);
                    updated_bet.status = self.determine_status(&updated_bet);
                    assert(updated_bet == existing_bet.spec_filled(match_amount));
                    let ghost before = matching_bets@;
                    matching_bets.push(updated_bet);
                    assert(matching_bets@ + spec_fills(queue@.skip(i + 1), *bet, unmatched_amount)
                        =~= before + (seq![updated_bet] + spec_fills(
                        queue@.skip(i + 1),
                        *bet,
                        unmatched_amount,
                    )));
                }
                i += 1;
            }
            let mut j: usize = matching_bets.len();
            while j < queue.len()
                invariant
                    matching_bets@.len() <= j <= queue.len(),
                    queue@ == resting,
                    rest@ == queue@.subrange(matching_bets@.len() as int, j as int),
                decreases queue.len() - j,
            {
                rest.push(queue[j]);
                assert(rest@ =~= queue@.subrange(matching_bets@.len() as int, j + 1));
                j += 1;
            }
            assert(rest@ =~= resting.skip(matching_bets@.len() as int));
        }
        let count: usize = matching_bets.len();
        proof {
            lemma_fills_shape(resting, *bet, bet.unmatched_amount);
            lemma_skip_keeps_valid(side, resting, count as int);
        }
        if count > 0 && matching_bets[count - 1].unmatched_amount > 0 {
            proof {
                assert(resting[count - 1].bet_type == side);
                lemma_insert_keeps_valid(side, rest@, matching_bets@[count - 1]);
            }
            self.insert_ordered(&mut rest, matching_bets[count - 1]);
        }
        assert(rest@ == spec_queue_after(resting, matching_bets@));
        let liquidity: u128 = liquidity_of(&rest);
        match bet.bet_type {
            BetType::Back => {
                scheduler.lay_orders = rest;
                scheduler.lay_liquidity = liquidity;
                self.update_best_lay_odds(scheduler);
            },
            BetType::Lay => {
                scheduler.back_orders = rest;
                scheduler.back_liquidity = liquidity;
                self.update_best_back_odds(scheduler);
            },
        }
        (matched_amount, unmatched_amount, matching_bets)
    }

    /// Counts the matches: each resting bet whose status a match has changed
    /// leaves the count of the status it had in `resting_bets` and enters the
    /// count of the one it has in `matching_bets`. The bets stand at the same
    /// places in both; queues, liquidity and best odds are not touched.
    fn count_matches(&self, scheduler: &mut Tracker, resting_bets: &Vec<Bet>, matching_bets: &Vec<Bet>)
        requires
            old(scheduler)@.spec_can_count_matches(resting_bets@, matching_bets@),
        ensures
            final(scheduler)@ == old(scheduler)@.spec_count_matches(
                resting_bets@,
                matching_bets@,
            ),
            old(scheduler)@.spec_valid() ==> final(scheduler)@.spec_valid(),
    {
        let mut i: usize = 0;
        assert(matching_bets@.take(0) =~= Seq::<Bet>::empty());
        while i < matching_bets.len()
            invariant
                i <= matching_bets.len(),
                old(scheduler)@.spec_can_count_matches(resting_bets@, matching_bets@),
                old(scheduler)@.spec_valid() ==> scheduler@.spec_valid(),
                scheduler@ == old(scheduler)@.spec_count_matches(
                    resting_bets@,
                    matching_bets@.take(i as int),
                ),
            decreases matching_bets.len() - i,
        {
            assert(matching_bets@.take(i + 1).drop_last() =~= matching_bets@.take(i as int));
            assert(matching_bets@.take(i + 1)[i as int] == matching_bets@[i as int]);
            if i < resting_bets.len() {
                let old_status: BetStatus = resting_bets[i].status;
                let new_status: BetStatus = matching_bets[i].status;
                if old_status != new_status {
                    assert(old(scheduler)@.spec_count_matches(
                        resting_bets@,
                        matching_bets@.take(i as int),
                    ).spec_count(matching_bets@[i as int].status) < u64::MAX);
                    self.update_status_counters(scheduler, &old_status, &new_status);
                }
            }
            i += 1;
        }
        assert(matching_bets@.take(matching_bets@.len() as int) =~= matching_bets@);
    }

    /// Matches an incoming bet against the book. The bet is matched with the
    /// resting bets of the other side, counted in the status its amounts call
    /// for, and left to rest in the queue of its side where something of it
    /// is unmatched; each resting bet it was matched with leaves its queue or
    /// stays with what it has left, and is counted in its new status. Gives
    /// the amount matched, the amount left, the bet as it now stands, and the
    /// resting bets that took part, each as the match leaves it.
    fn process_bet(&self, scheduler: &mut Tracker, bet: Bet) -> (done: (u64, u64, Bet, Vec<Bet>))
        requires
            old(scheduler)@.spec_valid(),
            old(scheduler)@.spec_room_for(bet.bet_type),
            bet.spec_fresh(),
        ensures
            final(scheduler)@ == old(scheduler)@.spec_process_bet(bet),
            final(scheduler)@.spec_valid(),
            done.0 == old(scheduler)@.spec_matched_amount(bet),
            done.0 == if bet.unmatched_amount <= spec_matchable_liquidity(
                old(scheduler)@.spec_opposite_queue(bet.bet_type),
                bet,
            ) {
                bet.unmatched_amount as nat
            } else {
                spec_matchable_liquidity(old(scheduler)@.spec_opposite_queue(bet.bet_type), bet)
            },
            done.0 + done.1 == bet.unmatched_amount,
            done.2 == old(scheduler)@.spec_updated_bet(bet),
            done.3@ == old(scheduler)@.spec_matching_bets(bet),
            done.2.spec_valid(),
            done.2.spec_balanced(),
            final(scheduler)@.spec_queue(bet.bet_type) == if done.1 > 0 {
                spec_insert_ordered(old(scheduler)@.spec_queue(bet.bet_type), done.2)
            } else {
                old(scheduler)@.spec_queue(bet.bet_type)
            },
            final(scheduler)@.spec_opposite_queue(bet.bet_type) == spec_queue_after(
                old(scheduler)@.spec_opposite_queue(bet.bet_type),
                done.3@,
            ),
            forall|i: int| 0 <= i < done.3@.len() ==> spec_odds_agree(bet, #[trigger] done.3@[i]),
            spec_matched_sum(done.3@) == spec_matched_sum(
                old(scheduler)@.spec_opposite_queue(bet.bet_type).take(done.3@.len() as int),
            ) + done.0,
    {
        proof {
            lemma_matches_are_fair(scheduler@, bet);
            lemma_incoming_bet_stays_balanced(scheduler@, bet);
            lemma_process_bet_queues(scheduler@, bet);
            lemma_room_for_bet(scheduler@, bet);
        }
        let resting_bets: Vec<Bet> = match bet.bet_type {
            BetType::Back => copy_queue(&scheduler.lay_orders),
            BetType::Lay => copy_queue(&scheduler.back_orders),
        };
        let (matched_amount, unmatched_amount, matching_bets) = self.find_matches(scheduler, &bet);
        let mut updated_bet: Bet = bet;
        updated_bet.matched_amount = matched_amount;
        updated_bet.unmatched_amount = unmatched_amount;
        let new_status: BetStatus = self.determine_status(&updated_bet);
        updated_bet.status = new_status;
        scheduler.count_in(new_status);
        self.count_matches(scheduler, &resting_bets, &matching_bets);
        if unmatched_amount > 0 {
            self.add_to_queue(scheduler, &updated_bet);
        }
        (matched_amount, unmatched_amount, updated_bet, matching_bets)
    }

    /// Works one match into the book. The resting bet with the receipt of
    /// `matched_bet` moves to the count of the new status where the status
    /// changed, and leaves its queue; `matched_bet` takes its place in the
    /// queue where it has something left to match.
    fn process_match(&self, scheduler: &mut Tracker, matched_bet: &Bet)
        requires
            old(scheduler)@.spec_valid(),
            old(scheduler)@.spec_can_process(*matched_bet),
            matched_bet.spec_valid(),
        ensures
            final(scheduler)@ == old(scheduler)@.spec_process_match(*matched_bet),
            final(scheduler)@.spec_valid(),
    {
        let found = match matched_bet.bet_type {
            BetType::Back => self.find_bet_index(&scheduler.back_orders, matched_bet),
            BetType::Lay => self.find_bet_index(&scheduler.lay_orders, matched_bet),
        };
        if let Some(index) = found {
            proof {
                lemma_find_index_from(
                    scheduler@.spec_queue(matched_bet.bet_type),
                    matched_bet.receipt_id,
                    0,
                );
            }
            let old_status: BetStatus = match matched_bet.bet_type {
                BetType::Back => scheduler.back_orders[index].status,
                BetType::Lay => scheduler.lay_orders[index].status,
            };
            if old_status != matched_bet.status {
                self.update_status_counters(scheduler, &old_status, &matched_bet.status);
            }
        }
        self.remove_from_queue(scheduler, matched_bet);
        if matched_bet.unmatched_amount > 0 {
            self.add_to_queue(scheduler, matched_bet);
        }
    }

    /// Works the matches into the book one after another. For each, the
    /// resting bet with its receipt moves to the count of the new status
    /// where the status changed, and leaves its queue; the matched bet takes
    /// its place in the queue where it has something left to match.
    fn process_matches(&self, scheduler: &mut Tracker, matching_bets: &Vec<Bet>)
        requires
            old(scheduler)@.spec_valid(),
            old(scheduler)@.spec_can_process_all(matching_bets@),
            forall|i: int| 0 <= i < matching_bets@.len() ==> (#[trigger] matching_bets@[i]).spec_valid(),
        ensures
            final(scheduler)@ == old(scheduler)@.spec_process_matches(matching_bets@),
            final(scheduler)@.spec_valid(),
    {
        let mut i: usize = 0;
        assert(matching_bets@.take(0) =~= Seq::<Bet>::empty());
        while i < matching_bets.len()
            invariant
                i <= matching_bets.len(),
                scheduler@.spec_valid(),
                old(scheduler)@.spec_can_process_all(matching_bets@),
                forall|k: int|
                    0 <= k < matching_bets@.len() ==> (#[trigger] matching_bets@[k]).spec_valid(),
                scheduler@ == old(scheduler)@.spec_process_matches(matching_bets@.take(i as int)),
            decreases matching_bets.len() - i,
        {
            let matched_bet: Bet = matching_bets[i];
            assert(old(scheduler)@.spec_process_matches(
                matching_bets@.take(i as int),
            ).spec_can_process(matching_bets@[i as int]));
            assert(matching_bets@.take(i + 1).drop_last() =~= matching_bets@.take(i as int));
            assert(matching_bets@.take(i + 1).last() == matched_bet);
            self.process_match(scheduler, &matched_bet);
            i += 1;
        }
        assert(matching_bets@.take(matching_bets@.len() as int) =~= matching_bets@);
    }

    /// Enters a bet into the queue of its side, adds its stake to the
    /// liquidity of that side and brings the side's best odds up to date.
    fn add_to_queue(&self, scheduler: &mut Tracker, bet: &Bet)
        requires
            old(scheduler)@.spec_valid(),
            bet.spec_valid(),
            bet.unmatched_amount > 0,
        ensures
            final(scheduler)@ == old(scheduler)@.spec_add_to_queue(*bet),
            final(scheduler)@.spec_valid(),
    {
        proof {
            let queue = scheduler@.spec_queue(bet.bet_type);
            assert(queue.len() == scheduler.back_orders.len() || queue.len()
                == scheduler.lay_orders.len());
            lemma_liquidity_bound(queue);
            lemma_insert_index_from(queue, *bet, 0);
            lemma_liquidity_insert(queue, spec_insert_index(queue, *bet), *bet);
            lemma_insert_keeps_valid(bet.bet_type, queue, *bet);
            assert(queue.len() * u64::MAX + u64::MAX <= u128::MAX) by (nonlinear_arith)
                requires
                    queue.len() <= u64::MAX,
            {}
        }
        match bet.bet_type {
            BetType::Back => {
                self.insert_ordered(&mut scheduler.back_orders, *bet);
                scheduler.back_liquidity = scheduler.back_liquidity + bet.stake_amount as u128;
                self.update_best_back_odds(scheduler);
            },
            BetType::Lay => {
                self.insert_ordered(&mut scheduler.lay_orders, *bet);
                scheduler.lay_liquidity = scheduler.lay_liquidity + bet.stake_amount as u128;
                self.update_best_lay_odds(scheduler);
            },
        }
    }

    /// Takes the first bet with the receipt of `bet` out of the queue of the
    /// side of `bet`, takes its stake off the liquidity of that side and
    /// brings the side's best odds up to date. A book without such a bet
    /// stays as it is.
    fn remove_from_queue(&self, scheduler: &mut Tracker, bet: &Bet)
        requires
            old(scheduler)@.spec_valid(),
        ensures
            final(scheduler)@ == old(scheduler)@.spec_remove_from_queue(*bet),
            final(scheduler)@.spec_valid(),
    {
        let found = match bet.bet_type {
            BetType::Back => self.find_bet_index(&scheduler.back_orders, bet),
            BetType::Lay => self.find_bet_index(&scheduler.lay_orders, bet),
        };
        if let Some(index) = found {
            proof {
                let queue = scheduler@.spec_queue(bet.bet_type);
                lemma_find_index_from(queue, bet.receipt_id, 0);
                lemma_liquidity_remove(queue, index as int);
                lemma_remove_keeps_valid(bet.bet_type, queue, index as int);
            }
            match bet.bet_type {
                BetType::Back => {
                    let removed = scheduler.back_orders.remove(index);
                    scheduler.back_liquidity = scheduler.back_liquidity
                        - removed.stake_amount as u128;
                    self.update_best_back_odds(scheduler);
                },
                BetType::Lay => {
                    let removed = scheduler.lay_orders.remove(index);
                    scheduler.lay_liquidity = scheduler.lay_liquidity
                        - removed.stake_amount as u128;
                    self.update_best_lay_odds(scheduler);
                },
            }
        }
    }

    /// Enters a bet into a queue of its side: before the first bet that it
    /// goes before, behind all others.
    fn insert_ordered(&self, queue: &mut Vec<Bet>, bet: Bet)
        ensures
            final(queue)@ == spec_insert_ordered(old(queue)@, bet),
            0 <= spec_insert_index(old(queue)@, bet) <= old(queue)@.len(),
            forall|k: int|
                0 <= k < spec_insert_index(old(queue)@, bet) ==> !spec_should_insert_before(
                    bet,
                    #[trigger] old(queue)@[k],
                ),
            spec_insert_index(old(queue)@, bet) < old(queue)@.len() ==> spec_should_insert_before(
                bet,
                old(queue)@[spec_insert_index(old(queue)@, bet)],
            ),
    {
        proof {
            lemma_insert_index_from(queue@, bet, 0);
        }
        let mut insert_index: usize = queue.len();
        let mut i: usize = 0;
        while i < queue.len()
            invariant_except_break
                i <= queue.len(),
                insert_index == queue.len(),
                spec_insert_index(queue@, bet) == spec_insert_index_from(queue@, bet, i as int),
            invariant
                queue@ == old(queue)@,
            ensures
                insert_index == spec_insert_index(queue@, bet),
                insert_index <= queue.len(),
            decreases queue.len() - i,
        {
            if self.should_insert_before(&bet, &queue[i]) {
                insert_index = i;
                break ;
            }
            i += 1;
        }
        queue.insert(insert_index, bet);
    }

    /// Says whether a new bet goes before a resting bet of its side: its odds
    /// are better, or equal and it was placed earlier.
    fn should_insert_before(&self, new_bet: &Bet, existing_bet: &Bet) -> (before: bool)
        ensures
            before == spec_should_insert_before(*new_bet, *existing_bet),
    {
        match new_bet.bet_type {
            BetType::Back => {
                new_bet.odds > existing_bet.odds || (new_bet.odds == existing_bet.odds
                    && new_bet.created_at < existing_bet.created_at)
            },
            BetType::Lay => {
                new_bet.odds < existing_bet.odds || (new_bet.odds == existing_bet.odds
                    && new_bet.created_at < existing_bet.created_at)
            },
        }
    }

    /// Says whether an incoming bet can be matched with a resting bet of the
    /// other side.
    fn can_match(&self, bet: &Bet, existing_bet: &Bet) -> (eligible: bool)
        ensures
            eligible == spec_can_match(*bet, *existing_bet),
    {
        match bet.bet_type {
            BetType::Back => bet.odds >= existing_bet.odds && existing_bet.unmatched_amount > 0,
            BetType::Lay => bet.odds <= existing_bet.odds && existing_bet.unmatched_amount > 0,
        }
    }

    /// What an incoming bet with `unmatched_amount` left and a resting bet are
    /// matched for: the lesser of what each has left.
    #[allow(unused_variables)]
    fn calculate_match_amount(&self, bet: &Bet, existing_bet: &Bet, unmatched_amount: u64) -> (amount: u64)
        ensures
            amount == spec_match_amount(*existing_bet, unmatched_amount),
    {
        if unmatched_amount <= existing_bet.unmatched_amount {
            unmatched_amount
        } else {
            existing_bet.unmatched_amount
        }
    }

    /// Moves `match_amount` of a bet from unmatched to matched, and sets the
    /// liability of a lay bet to what that amount puts at risk at its odds.
    fn update_matched_amounts(&self, bet: &mut Bet, match_amount: u64)
        requires
            match_amount <= old(bet).unmatched_amount,
            old(bet).matched_amount + match_amount <= u64::MAX,
            old(bet).bet_type == BetType::Lay ==> old(bet).odds >= ODDS_SCALE,
        ensures
            *final(bet) == old(bet).spec_with_match(match_amount),
    {
        bet.matched_amount = bet.matched_amount + match_amount;
        bet.unmatched_amount = bet.unmatched_amount - match_amount;
        if bet.bet_type == BetType::Lay {
            bet.liability = liability_for_lay(match_amount, bet.odds);
        }
    }

    /// The matchable total of a bet: the stake of a back bet, the liability
    /// of a lay bet.
    fn get_matchable_amount(&self, bet: &Bet) -> (total: u128)
        ensures
            total == bet.spec_matchable_total(),
    {
        match bet.bet_type {
            BetType::Back => bet.stake_amount as u128,
            BetType::Lay => bet.liability,
        }
    }

    /// The status that the amounts of a bet call for.
    fn determine_status(&self, bet: &Bet) -> (status: BetStatus)
        ensures
            status == bet.spec_status(),
    {
        let total: u128 = self.get_matchable_amount(bet);
        if bet.matched_amount as u128 == total {
            BetStatus::Matched
        } else if bet.matched_amount > 0 {
            BetStatus::PartiallyMatched
        } else {
            BetStatus::Unmatched
        }
    }

    /// Finds the first bet of a queue that has the receipt of `bet`.
    fn find_bet_index(&self, queue: &Vec<Bet>, bet: &Bet) -> (found: Option<usize>)
        ensures
            match found {
                Some(at) => {
                    &&& spec_find_bet_index(queue@, bet.receipt_id) == Some(at as int)
                    &&& at < queue@.len()
                    &&& queue@[at as int].receipt_id == bet.receipt_id
                    &&& forall|k: int| 0 <= k < at ==> (#[trigger] queue@[k]).receipt_id
                        != bet.receipt_id
                },
                None => {
                    &&& spec_find_bet_index(queue@, bet.receipt_id) == None::<int>
                    &&& forall|k: int|
                        0 <= k < queue@.len() ==> (#[trigger] queue@[k]).receipt_id
                            != bet.receipt_id
                },
            },
    {
        let mut i: usize = 0;
        while i < queue.len()
            invariant
                i <= queue.len(),
                spec_find_index_from(queue@, bet.receipt_id, 0) == spec_find_index_from(
                    queue@,
                    bet.receipt_id,
                    i as int,
                ),
                forall|k: int| 0 <= k < i ==> (#[trigger] queue@[k]).receipt_id != bet.receipt_id,
            decreases queue.len() - i,
        {
            if queue[i].receipt_id == bet.receipt_id {
                return Some(i);
            }
            i += 1;
        }
        None
    }

    /// Sets the best back odds to those at the head of the back queue, or to
    /// zero where it is empty.
    fn update_best_back_odds(&self, scheduler: &mut Tracker)
        ensures
            final(scheduler)@ == (Book {
                best_back_odds: spec_best_odds(old(scheduler)@.back_orders),
                ..old(scheduler)@
            }),
    {
        scheduler.best_back_odds = if scheduler.back_orders.is_empty() {
            0
        } else {
            scheduler.back_orders[0].odds
        };
    }

    /// Sets the best lay odds to those at the head of the lay queue, or to
    /// zero where it is empty.
    fn update_best_lay_odds(&self, scheduler: &mut Tracker)
        ensures
            final(scheduler)@ == (Book {
                best_lay_odds: spec_best_odds(old(scheduler)@.lay_orders),
                ..old(scheduler)@
            }),
    {
        scheduler.best_lay_odds = if scheduler.lay_orders.is_empty() {
            0
        } else {
            scheduler.lay_orders[0].odds
        };
    }

    /// Moves a bet from the count of its old status to the count of its new
    /// one. A bet that stays unmatched is a new bet counted for the first
    /// time; any other bet that keeps its status changes nothing. Says
    /// whether any count was touched.
    fn update_status_counters(
        &self,
        scheduler: &mut Tracker,
        old_status: &BetStatus,
        new_status: &BetStatus,
    ) -> (counted: bool)
        requires
            *old_status != *new_status || *new_status == BetStatus::Unmatched ==> old(
                scheduler,
            )@.spec_count(*new_status) < u64::MAX,
        ensures
            final(scheduler)@ == old(scheduler)@.spec_update_status_counters(
                *old_status,
                *new_status,
            ),
            counted == (*old_status != *new_status || *old_status == BetStatus::Unmatched),
    {
        if *old_status != *new_status {
            scheduler.count_out(*old_status);
            scheduler.count_in(*new_status);
            true
        } else if *old_status == BetStatus::Unmatched {
            scheduler.count_in(BetStatus::Unmatched);
            true
        } else {
            false
        }
    }
}

} // verus!
