use betting_exchange::{Bet, BetStatus, BetType, Exchange, Tracker, TrackerModule};

fn back(odds: u64, stake: u64, created_at: u64, receipt_id: u64) -> Bet {
    Bet {
        owner: [7u8; 32],
        market_id: 1,
        selection_id: 1,
        bet_type: BetType::Back,
        odds,
        stake_amount: stake,
        liability: 0,
        matched_amount: 0,
        unmatched_amount: stake,
        status: BetStatus::Unmatched,
        created_at,
        receipt_id,
    }
}

fn lay(odds: u64, stake: u64, liability: u64, created_at: u64, receipt_id: u64) -> Bet {
    Bet {
        owner: [9u8; 32],
        market_id: 1,
        selection_id: 1,
        bet_type: BetType::Lay,
        odds,
        stake_amount: stake,
        liability: liability as u128,
        matched_amount: 0,
        unmatched_amount: liability,
        status: BetStatus::Unmatched,
        created_at,
        receipt_id,
    }
}

fn matched(bet: Bet, matched_amount: u64, liability: u128, status: BetStatus) -> Bet {
    Bet {
        matched_amount: bet.matched_amount + matched_amount,
        unmatched_amount: bet.unmatched_amount - matched_amount,
        liability,
        status,
        ..bet
    }
}

fn book_with(bets: &[Bet]) -> Tracker {
    let exchange = Exchange;
    let mut book = exchange.init_bet_scheduler();
    for bet in bets {
        let done = exchange.process_bet(&mut book, *bet);
        assert_eq!(done.0, 0);
    }
    book
}

fn counts(book: &Tracker) -> (u64, u64, u64, u64, u64, u64) {
    (
        book.matched_count,
        book.unmatched_count,
        book.partially_matched_count,
        book.win_count,
        book.lost_count,
        book.canceled_count,
    )
}

#[test]
fn back_bet_on_an_empty_book_rests_unmatched() {
    let exchange = Exchange;
    let mut book = exchange.init_bet_scheduler();
    let bet = back(200, 100, 1, 1);
    let (matched_amount, unmatched_amount, updated, affected) = exchange.process_bet(&mut book, bet);
    assert_eq!(matched_amount, 0);
    assert_eq!(unmatched_amount, 100);
    assert_eq!(updated, bet);
    assert!(affected.is_empty());
    assert_eq!(book.back_orders, vec![bet]);
    assert!(book.lay_orders.is_empty());
    assert_eq!(book.best_back_odds, 200);
    assert_eq!(book.back_liquidity, 100);
    assert_eq!(counts(&book), (0, 1, 0, 0, 0, 0));
    assert!(book.is_valid());
}

#[test]
fn lay_bet_matches_a_resting_back_bet_in_full() {
    let exchange = Exchange;
    let resting = back(200, 100, 1, 1);
    let mut book = book_with(&[resting]);
    let incoming = lay(200, 100, 100, 2, 2);
    let (matched_amount, unmatched_amount, updated, affected) =
        exchange.process_bet(&mut book, incoming);
    assert_eq!(matched_amount, 100);
    assert_eq!(unmatched_amount, 0);
    assert_eq!(updated, matched(incoming, 100, 100, BetStatus::Matched));
    assert_eq!(affected, vec![matched(resting, 100, 0, BetStatus::Matched)]);
    assert!(book.back_orders.is_empty());
    assert!(book.lay_orders.is_empty());
    assert_eq!(book.back_liquidity, 0);
    assert_eq!(book.lay_liquidity, 0);
    assert_eq!(book.best_back_odds, 0);
    assert_eq!(book.best_lay_odds, 0);
    assert_eq!(counts(&book), (2, 0, 0, 0, 0, 0));
    assert!(book.is_valid());
}

#[test]
fn lay_bet_asking_higher_odds_than_the_backer_is_not_matched() {
    let exchange = Exchange;
    let resting = back(150, 50, 1, 1);
    let mut book = book_with(&[resting]);
    let incoming = lay(200, 50, 50, 2, 2);
    let (matched_amount, unmatched_amount, updated, affected) =
        exchange.process_bet(&mut book, incoming);
    assert_eq!(matched_amount, 0);
    assert_eq!(unmatched_amount, 50);
    assert_eq!(updated, incoming);
    assert!(affected.is_empty());
    assert_eq!(book.back_orders, vec![resting]);
    assert_eq!(book.lay_orders, vec![incoming]);
    assert_eq!(book.back_liquidity, 50);
    assert_eq!(book.lay_liquidity, 50);
    assert_eq!(book.best_back_odds, 150);
    assert_eq!(book.best_lay_odds, 200);
    assert_eq!(counts(&book), (0, 2, 0, 0, 0, 0));
}

#[test]
fn back_bet_larger_than_the_resting_lay_bet_is_matched_in_part() {
    let exchange = Exchange;
    let resting = lay(200, 100, 100, 1, 1);
    let mut book = book_with(&[resting]);
    let incoming = back(200, 150, 2, 2);
    let (matched_amount, unmatched_amount, updated, affected) =
        exchange.process_bet(&mut book, incoming);
    assert_eq!(matched_amount, 100);
    assert_eq!(unmatched_amount, 50);
    let expected = matched(incoming, 100, 0, BetStatus::PartiallyMatched);
    assert_eq!(updated, expected);
    assert_eq!(updated.matched_amount, 100);
    assert_eq!(updated.unmatched_amount, 50);
    assert_eq!(affected, vec![matched(resting, 100, 100, BetStatus::Matched)]);
    assert_eq!(book.back_orders, vec![expected]);
    assert!(book.lay_orders.is_empty());
    assert_eq!(book.back_liquidity, 150);
    assert_eq!(book.best_back_odds, 200);
    assert_eq!(book.lay_liquidity, 0);
    assert_eq!(book.best_lay_odds, 0);
    assert_eq!(counts(&book), (1, 0, 1, 0, 0, 0));
    assert!(book.is_valid());
}

#[test]
fn resting_lay_bet_matched_in_part_stays_with_its_new_liability() {
    let exchange = Exchange;
    let resting = lay(150, 200, 100, 1, 1);
    let mut book = book_with(&[resting]);
    let incoming = back(200, 40, 2, 2);
    let (matched_amount, unmatched_amount, updated, affected) =
        exchange.process_bet(&mut book, incoming);
    assert_eq!(matched_amount, 40);
    assert_eq!(unmatched_amount, 0);
    assert_eq!(updated, matched(incoming, 40, 0, BetStatus::Matched));
    // 40 * (150 - 100) / 100 = 20 is at risk for the part just matched
    let left = matched(resting, 40, 20, BetStatus::PartiallyMatched);
    assert_eq!(left.unmatched_amount, 60);
    assert_eq!(affected, vec![left]);
    assert_eq!(book.lay_orders, vec![left]);
    assert_eq!(book.lay_liquidity, 200);
    assert_eq!(book.best_lay_odds, 150);
    assert!(book.back_orders.is_empty());
    assert_eq!(counts(&book), (1, 0, 1, 0, 0, 0));
    assert!(book.is_valid());
}

#[test]
fn resting_bets_are_matched_best_odds_first() {
    let exchange = Exchange;
    let a = back(300, 50, 1, 1);
    let b = back(250, 50, 2, 2);
    let c = back(200, 50, 3, 3);
    let mut book = book_with(&[c, a, b]);
    assert_eq!(book.back_orders, vec![a, b, c]);
    let incoming = lay(250, 80, 80, 4, 4);
    let (matched_amount, unmatched_amount, updated, affected) =
        exchange.process_bet(&mut book, incoming);
    assert_eq!(matched_amount, 80);
    assert_eq!(unmatched_amount, 0);
    assert_eq!(updated, matched(incoming, 80, 80, BetStatus::Matched));
    let a_after = matched(a, 50, 0, BetStatus::Matched);
    let b_after = matched(b, 30, 0, BetStatus::PartiallyMatched);
    assert_eq!(affected, vec![a_after, b_after]);
    assert_eq!(book.back_orders, vec![b_after, c]);
    assert_eq!(book.back_liquidity, 100);
    assert_eq!(book.best_back_odds, 250);
    assert!(book.lay_orders.is_empty());
    assert_eq!(counts(&book), (2, 1, 1, 0, 0, 0));
    assert!(book.is_valid());
}

#[test]
fn bet_that_outlasts_the_book_rests_with_what_is_left() {
    let exchange = Exchange;
    let a = back(300, 50, 1, 1);
    let mut book = book_with(&[a]);
    let incoming = lay(200, 80, 80, 2, 2);
    let (matched_amount, unmatched_amount, updated, affected) =
        exchange.process_bet(&mut book, incoming);
    assert_eq!((matched_amount, unmatched_amount), (50, 30));
    let expected = matched(incoming, 50, 80, BetStatus::PartiallyMatched);
    assert_eq!(updated, expected);
    assert_eq!(affected, vec![matched(a, 50, 0, BetStatus::Matched)]);
    assert!(book.back_orders.is_empty());
    assert_eq!(book.lay_orders, vec![expected]);
    assert_eq!(book.lay_liquidity, 80);
    assert_eq!(book.best_lay_odds, 200);
    assert_eq!(counts(&book), (1, 0, 1, 0, 0, 0));
}

#[test]
fn earlier_bet_is_matched_first_at_equal_odds() {
    let exchange = Exchange;
    let early = back(200, 50, 1, 1);
    let late = back(200, 50, 2, 2);
    let mut book = book_with(&[late, early]);
    assert_eq!(book.back_orders, vec![early, late]);
    let incoming = lay(200, 50, 50, 3, 3);
    let done = exchange.process_bet(&mut book, incoming);
    assert_eq!(done.3, vec![matched(early, 50, 0, BetStatus::Matched)]);
    assert_eq!(book.back_orders, vec![late]);
}

#[test]
fn bet_matched_in_part_goes_behind_bets_of_equal_odds_and_time() {
    let exchange = Exchange;
    let first = back(200, 50, 5, 1);
    let second = back(200, 50, 5, 2);
    let mut book = book_with(&[first, second]);
    assert_eq!(book.back_orders, vec![first, second]);
    let incoming = lay(200, 20, 20, 6, 3);
    let done = exchange.process_bet(&mut book, incoming);
    let first_after = matched(first, 20, 0, BetStatus::PartiallyMatched);
    assert_eq!(done.3, vec![first_after]);
    assert_eq!(book.back_orders, vec![second, first_after]);
    assert_eq!(book.back_liquidity, 100);
}

#[test]
fn bet_matched_in_part_keeps_its_place_before_later_bets() {
    let exchange = Exchange;
    let first = back(200, 50, 5, 1);
    let second = back(200, 50, 6, 2);
    let mut book = book_with(&[first, second]);
    let incoming = lay(200, 20, 20, 7, 3);
    let done = exchange.process_bet(&mut book, incoming);
    let first_after = matched(first, 20, 0, BetStatus::PartiallyMatched);
    assert_eq!(done.3, vec![first_after]);
    assert_eq!(book.back_orders, vec![first_after, second]);
}

#[test]
fn back_bet_is_matched_at_equal_odds_and_not_below() {
    let exchange = Exchange;
    let resting = lay(200, 100, 100, 1, 1);
    let mut below = book_with(&[resting]);
    let done = exchange.process_bet(&mut below, back(199, 10, 2, 2));
    assert_eq!((done.0, done.1), (0, 10));
    assert!(done.3.is_empty());
    let mut equal = book_with(&[resting]);
    let done = exchange.process_bet(&mut equal, back(200, 10, 2, 2));
    assert_eq!((done.0, done.1), (10, 0));
    assert_eq!(done.3.len(), 1);
}

#[test]
fn back_bet_takes_lower_lay_odds_first() {
    let exchange = Exchange;
    let cheap = lay(150, 100, 50, 2, 1);
    let dear = lay(180, 100, 80, 1, 2);
    let mut book = book_with(&[dear, cheap]);
    assert_eq!(book.lay_orders, vec![cheap, dear]);
    let incoming = back(200, 60, 3, 3);
    let done = exchange.process_bet(&mut book, incoming);
    assert_eq!((done.0, done.1), (60, 0));
    // 50 * 50 / 100 = 25 and 10 * 80 / 100 = 8
    let cheap_after = matched(cheap, 50, 25, BetStatus::PartiallyMatched);
    let dear_after = matched(dear, 10, 8, BetStatus::PartiallyMatched);
    assert_eq!(done.3, vec![cheap_after, dear_after]);
    assert_eq!(book.lay_orders, vec![dear_after]);
    assert_eq!(book.lay_liquidity, 100);
    assert_eq!(book.best_lay_odds, 180);
}

#[test]
fn matched_amounts_grow_alike_on_both_sides() {
    let exchange = Exchange;
    let a = back(300, 50, 1, 1);
    let b = back(250, 50, 2, 2);
    let c = back(240, 50, 3, 3);
    let mut book = book_with(&[a, b, c]);
    let incoming = lay(200, 120, 120, 4, 4);
    let before: u64 = a.matched_amount + b.matched_amount + c.matched_amount;
    let done = exchange.process_bet(&mut book, incoming);
    let mut after: u64 = 0;
    for bet in &done.3 {
        after += bet.matched_amount;
    }
    assert_eq!(done.0, 120);
    assert_eq!(after - before, done.0);
    assert_eq!(done.2.matched_amount - incoming.matched_amount, done.0);
}

#[test]
fn no_match_pairs_a_backer_with_a_layer_of_higher_odds() {
    let exchange = Exchange;
    let bets = [lay(150, 40, 20, 1, 1), lay(220, 40, 48, 2, 2), lay(300, 40, 80, 3, 3)];
    let mut book = book_with(&bets);
    let incoming = back(250, 500, 4, 4);
    let done = exchange.process_bet(&mut book, incoming);
    assert_eq!(done.3.len(), 2);
    for bet in &done.3 {
        assert!(incoming.odds >= bet.odds);
    }
    assert_eq!(done.0, 68);
    assert_eq!(book.lay_orders.len(), 1);
    assert_eq!(book.lay_orders[0].receipt_id, 3);
}

#[test]
fn matched_and_unmatched_make_up_the_total_of_the_incoming_bet() {
    let exchange = Exchange;
    let mut book = book_with(&[back(300, 50, 1, 1)]);
    let incoming = lay(200, 80, 80, 2, 2);
    let done = exchange.process_bet(&mut book, incoming);
    assert_eq!(done.2.matched_amount as u128 + done.2.unmatched_amount as u128, done.2.liability);
    let mut other = book_with(&[lay(200, 30, 30, 1, 1)]);
    let done = exchange.process_bet(&mut other, back(200, 70, 2, 2));
    assert_eq!(done.2.matched_amount + done.2.unmatched_amount, done.2.stake_amount);
    for bet in &other.back_orders {
        assert_eq!(bet.matched_amount + bet.unmatched_amount, bet.stake_amount);
    }
}

#[test]
fn bets_rest_in_the_book_only_while_something_is_unmatched() {
    let exchange = Exchange;
    let mut book = book_with(&[back(300, 50, 1, 1), back(250, 50, 2, 2)]);
    let done = exchange.process_bet(&mut book, lay(200, 70, 70, 3, 3));
    for bet in &done.3 {
        let resting = book.back_orders.iter().any(|b| b.receipt_id == bet.receipt_id);
        assert_eq!(resting, bet.unmatched_amount > 0);
    }
    let incoming_rests = book.lay_orders.iter().any(|b| b.receipt_id == 3);
    assert_eq!(incoming_rests, done.2.unmatched_amount > 0);
    for bet in book.back_orders.iter().chain(book.lay_orders.iter()) {
        assert!(bet.unmatched_amount > 0);
    }
}

#[test]
fn find_matches_takes_a_bet_matched_in_full_out_of_the_book() {
    let exchange = Exchange;
    let resting = back(200, 100, 1, 1);
    let mut book = book_with(&[resting]);
    let found = exchange.find_matches(&mut book, &lay(200, 100, 100, 2, 2));
    assert_eq!(found, (100, 0, vec![matched(resting, 100, 0, BetStatus::Matched)]));
    assert!(book.back_orders.is_empty());
    assert_eq!(book.back_liquidity, 0);
    assert_eq!(book.best_back_odds, 0);
    // the incoming bet is not put into the book by the walk
    assert!(book.lay_orders.is_empty());
    assert_eq!(book.lay_liquidity, 0);
    assert!(book.is_valid());
}

#[test]
fn find_matches_leaves_the_bets_it_did_not_reach() {
    let exchange = Exchange;
    let first = back(200, 100, 1, 1);
    let second = back(200, 100, 2, 2);
    let mut book = book_with(&[first, second]);
    let found = exchange.find_matches(&mut book, &lay(200, 100, 100, 3, 3));
    assert_eq!(found, (100, 0, vec![matched(first, 100, 0, BetStatus::Matched)]));
    assert_eq!(book.back_orders, vec![second]);
    assert_eq!(book.back_liquidity, 100);
    assert_eq!(book.best_back_odds, 200);
    assert!(book.lay_orders.is_empty());
}

#[test]
fn find_matches_keeps_a_bet_matched_in_part_with_what_it_has_left() {
    let exchange = Exchange;
    let a = back(300, 50, 1, 1);
    let b = back(250, 50, 2, 2);
    let c = back(200, 50, 3, 3);
    let mut book = book_with(&[a, b, c]);
    let (matched_amount, unmatched_amount, matching) =
        exchange.find_matches(&mut book, &lay(250, 80, 80, 4, 4));
    assert_eq!((matched_amount, unmatched_amount), (80, 0));
    let a_after = matched(a, 50, 0, BetStatus::Matched);
    let b_after = matched(b, 30, 0, BetStatus::PartiallyMatched);
    assert_eq!(matching, vec![a_after, b_after]);
    assert_eq!(book.back_orders, vec![b_after, c]);
    assert_eq!(book.back_liquidity, 100);
    assert_eq!(book.best_back_odds, 250);
    assert!(book.is_valid());
}

#[test]
fn find_matches_touches_neither_the_own_side_nor_the_counts() {
    let exchange = Exchange;
    let own = lay(300, 10, 20, 1, 1);
    let other = back(250, 50, 2, 2);
    let mut book = book_with(&[own, other]);
    let before = book.clone();
    let found = exchange.find_matches(&mut book, &lay(200, 30, 30, 3, 3));
    assert_eq!((found.0, found.1), (30, 0));
    assert_eq!(book.lay_orders, before.lay_orders);
    assert_eq!(book.lay_liquidity, before.lay_liquidity);
    assert_eq!(book.best_lay_odds, before.best_lay_odds);
    assert_eq!(counts(&book), counts(&before));
    assert_eq!(book.back_orders, vec![matched(other, 30, 0, BetStatus::PartiallyMatched)]);
}

#[test]
fn find_matches_puts_a_bet_matched_in_part_behind_bets_of_equal_odds_and_time() {
    let exchange = Exchange;
    let first = back(200, 50, 5, 1);
    let second = back(200, 50, 5, 2);
    let mut book = book_with(&[first, second]);
    let found = exchange.find_matches(&mut book, &lay(200, 20, 20, 6, 3));
    let first_after = matched(first, 20, 0, BetStatus::PartiallyMatched);
    assert_eq!(found.2, vec![first_after]);
    assert_eq!(book.back_orders, vec![second, first_after]);
}

#[test]
fn find_matches_on_an_empty_side_finds_nothing() {
    let exchange = Exchange;
    let mut book = book_with(&[back(300, 50, 1, 1)]);
    let before = book.clone();
    let found = exchange.find_matches(&mut book, &back(200, 80, 2, 2));
    assert_eq!(found, (0, 80, Vec::new()));
    assert_eq!(book, before);
}

#[test]
fn find_matches_without_a_bet_it_can_match_leaves_the_book() {
    let exchange = Exchange;
    let mut book = book_with(&[back(150, 50, 1, 1)]);
    let before = book.clone();
    let found = exchange.find_matches(&mut book, &lay(200, 50, 50, 2, 2));
    assert_eq!(found, (0, 50, Vec::new()));
    assert_eq!(book, before);
}

#[test]
fn find_matches_for_a_bet_with_nothing_left_finds_nothing() {
    let exchange = Exchange;
    let mut book = book_with(&[back(300, 50, 1, 1)]);
    let before = book.clone();
    let found = exchange.find_matches(&mut book, &lay(200, 0, 0, 2, 2));
    assert_eq!(found, (0, 0, Vec::new()));
    assert_eq!(book, before);
}

#[test]
fn count_matches_moves_each_changed_bet_to_its_new_count() {
    let exchange = Exchange;
    let a = back(300, 50, 1, 1);
    let b = back(250, 50, 2, 2);
    let c = back(200, 50, 3, 3);
    let mut book = book_with(&[a, b, c]);
    assert_eq!(counts(&book), (0, 3, 0, 0, 0, 0));
    let resting = book.back_orders.clone();
    let after = vec![
        matched(a, 50, 0, BetStatus::Matched),
        matched(b, 30, 0, BetStatus::PartiallyMatched),
    ];
    let queues = (book.back_orders.clone(), book.lay_orders.clone());
    exchange.count_matches(&mut book, &resting, &after);
    assert_eq!(counts(&book), (1, 1, 1, 0, 0, 0));
    assert_eq!((book.back_orders.clone(), book.lay_orders.clone()), queues);
}

#[test]
fn count_matches_passes_over_a_bet_that_keeps_its_status() {
    let exchange = Exchange;
    let a = matched(back(300, 50, 1, 1), 10, 0, BetStatus::PartiallyMatched);
    let mut book = exchange.init_bet_scheduler();
    book.partially_matched_count = 1;
    let after = vec![matched(a, 10, 0, BetStatus::PartiallyMatched)];
    exchange.count_matches(&mut book, &vec![a], &after);
    assert_eq!(counts(&book), (0, 0, 1, 0, 0, 0));
    exchange.count_matches(&mut book, &vec![a], &Vec::new());
    assert_eq!(counts(&book), (0, 0, 1, 0, 0, 0));
}

#[test]
fn process_matches_replaces_resting_bets_by_what_is_left_of_them() {
    let exchange = Exchange;
    let a = back(300, 50, 1, 1);
    let b = back(250, 50, 2, 2);
    let mut book = book_with(&[a, b]);
    let a_after = matched(a, 50, 0, BetStatus::Matched);
    let b_after = matched(b, 30, 0, BetStatus::PartiallyMatched);
    exchange.process_matches(&mut book, &vec![a_after, b_after]);
    assert_eq!(book.back_orders, vec![b_after]);
    assert_eq!(book.back_liquidity, 50);
    assert_eq!(book.best_back_odds, 250);
    assert_eq!(counts(&book), (1, 0, 1, 0, 0, 0));
}

#[test]
fn process_matches_adds_a_bet_unknown_to_the_book_without_counting_it() {
    let exchange = Exchange;
    let mut book = exchange.init_bet_scheduler();
    let stray = matched(back(250, 50, 2, 2), 30, 0, BetStatus::PartiallyMatched);
    exchange.process_matches(&mut book, &vec![stray]);
    assert_eq!(book.back_orders, vec![stray]);
    assert_eq!(book.back_liquidity, 50);
    assert_eq!(counts(&book), (0, 0, 0, 0, 0, 0));
}

#[test]
fn process_match_keeps_the_counts_where_the_status_stays() {
    let exchange = Exchange;
    let a = back(300, 50, 1, 1);
    let mut book = book_with(&[a]);
    let first = matched(a, 10, 0, BetStatus::PartiallyMatched);
    exchange.process_match(&mut book, &first);
    assert_eq!(counts(&book), (0, 0, 1, 0, 0, 0));
    let second = matched(first, 10, 0, BetStatus::PartiallyMatched);
    exchange.process_match(&mut book, &second);
    assert_eq!(counts(&book), (0, 0, 1, 0, 0, 0));
    assert_eq!(book.back_orders, vec![second]);
}

#[test]
fn can_match_compares_odds_by_side() {
    let exchange = Exchange;
    assert!(exchange.can_match(&back(200, 10, 1, 1), &lay(200, 10, 10, 1, 2)));
    assert!(exchange.can_match(&back(200, 10, 1, 1), &lay(150, 10, 5, 1, 2)));
    assert!(!exchange.can_match(&back(200, 10, 1, 1), &lay(201, 10, 10, 1, 2)));
    assert!(exchange.can_match(&lay(200, 10, 10, 1, 1), &back(200, 10, 1, 2)));
    assert!(exchange.can_match(&lay(200, 10, 10, 1, 1), &back(250, 10, 1, 2)));
    assert!(!exchange.can_match(&lay(200, 10, 10, 1, 1), &back(199, 10, 1, 2)));
}

#[test]
fn can_match_needs_something_left_on_the_resting_bet() {
    let exchange = Exchange;
    let mut done = lay(200, 10, 10, 1, 2);
    done.matched_amount = 10;
    done.unmatched_amount = 0;
    assert!(!exchange.can_match(&back(200, 10, 1, 1), &done));
    let mut spent = back(200, 10, 1, 2);
    spent.matched_amount = 10;
    spent.unmatched_amount = 0;
    assert!(!exchange.can_match(&lay(200, 10, 10, 1, 1), &spent));
}

#[test]
fn match_amount_is_the_lesser_of_what_both_have_left() {
    let exchange = Exchange;
    let incoming = back(200, 500, 1, 1);
    let resting = lay(200, 70, 70, 1, 2);
    assert_eq!(exchange.calculate_match_amount(&incoming, &resting, 500), 70);
    assert_eq!(exchange.calculate_match_amount(&incoming, &resting, 70), 70);
    assert_eq!(exchange.calculate_match_amount(&incoming, &resting, 30), 30);
    assert_eq!(exchange.calculate_match_amount(&incoming, &resting, 0), 0);
    let taker = lay(200, 500, 500, 1, 3);
    let maker = back(200, 20, 1, 4);
    assert_eq!(exchange.calculate_match_amount(&taker, &maker, 500), 20);
}

#[test]
fn update_matched_amounts_moves_the_amount_of_a_back_bet() {
    let exchange = Exchange;
    let mut bet = back(200, 100, 1, 1);
    exchange.update_matched_amounts(&mut bet, 30);
    assert_eq!(bet.matched_amount, 30);
    assert_eq!(bet.unmatched_amount, 70);
    assert_eq!(bet.liability, 0);
    assert_eq!(bet.status, BetStatus::Unmatched);
    exchange.update_matched_amounts(&mut bet, 70);
    assert_eq!(bet.matched_amount, 100);
    assert_eq!(bet.unmatched_amount, 0);
}

#[test]
fn update_matched_amounts_sets_the_liability_of_a_lay_bet() {
    let exchange = Exchange;
    let mut bet = lay(250, 100, 150, 1, 1);
    exchange.update_matched_amounts(&mut bet, 60);
    assert_eq!(bet.matched_amount, 60);
    assert_eq!(bet.unmatched_amount, 90);
    // 60 * (250 - 100) / 100
    assert_eq!(bet.liability, 90);
    exchange.update_matched_amounts(&mut bet, 7);
    // 7 * 150 / 100 = 10.5
    assert_eq!(bet.liability, 10);
    assert_eq!(bet.matched_amount, 67);
    assert_eq!(bet.unmatched_amount, 83);
}

#[test]
fn matchable_amount_is_stake_for_back_and_liability_for_lay() {
    let exchange = Exchange;
    assert_eq!(exchange.get_matchable_amount(&back(200, 100, 1, 1)), 100);
    assert_eq!(exchange.get_matchable_amount(&lay(250, 100, 150, 1, 1)), 150);
}

#[test]
fn status_follows_the_matched_amount() {
    let exchange = Exchange;
    let mut bet = back(200, 100, 1, 1);
    assert_eq!(exchange.determine_status(&bet), BetStatus::Unmatched);
    bet.matched_amount = 1;
    assert_eq!(exchange.determine_status(&bet), BetStatus::PartiallyMatched);
    bet.matched_amount = 99;
    assert_eq!(exchange.determine_status(&bet), BetStatus::PartiallyMatched);
    bet.matched_amount = 100;
    assert_eq!(exchange.determine_status(&bet), BetStatus::Matched);
    let mut layer = lay(200, 100, 100, 1, 1);
    assert_eq!(exchange.determine_status(&layer), BetStatus::Unmatched);
    layer.matched_amount = 100;
    assert_eq!(exchange.determine_status(&layer), BetStatus::Matched);
}

#[test]
fn status_of_a_bet_with_no_total_is_matched() {
    let exchange = Exchange;
    assert_eq!(exchange.determine_status(&back(200, 0, 1, 1)), BetStatus::Matched);
}

#[test]
fn status_of_a_lay_bet_matched_beyond_its_liability_is_partially_matched() {
    let exchange = Exchange;
    let mut layer = lay(150, 200, 100, 1, 1);
    exchange.update_matched_amounts(&mut layer, 100);
    assert_eq!(layer.liability, 50);
    assert_eq!(exchange.determine_status(&layer), BetStatus::PartiallyMatched);
}

#[test]
fn bet_with_no_stake_is_counted_matched_and_does_not_rest() {
    let exchange = Exchange;
    let mut book = exchange.init_bet_scheduler();
    let done = exchange.process_bet(&mut book, back(200, 0, 1, 1));
    assert_eq!((done.0, done.1), (0, 0));
    assert_eq!(done.2.status, BetStatus::Matched);
    assert!(book.back_orders.is_empty());
    assert_eq!(counts(&book), (1, 0, 0, 0, 0, 0));
}

#[test]
fn status_change_leaves_one_count_and_enters_another() {
    let exchange = Exchange;
    let mut book = book_with(&[back(200, 10, 1, 1), back(200, 10, 2, 2)]);
    assert_eq!(counts(&book), (0, 2, 0, 0, 0, 0));
    let counted = exchange.update_status_counters(
        &mut book,
        &BetStatus::Unmatched,
        &BetStatus::PartiallyMatched,
    );
    assert!(counted);
    assert_eq!(counts(&book), (0, 1, 1, 0, 0, 0));
    exchange.update_status_counters(&mut book, &BetStatus::PartiallyMatched, &BetStatus::Matched);
    assert_eq!(counts(&book), (1, 1, 0, 0, 0, 0));
    exchange.update_status_counters(&mut book, &BetStatus::Matched, &BetStatus::Win);
    assert_eq!(counts(&book), (0, 1, 0, 1, 0, 0));
    exchange.update_status_counters(&mut book, &BetStatus::Win, &BetStatus::Lost);
    assert_eq!(counts(&book), (0, 1, 0, 0, 1, 0));
    exchange.update_status_counters(&mut book, &BetStatus::Unmatched, &BetStatus::Canceled);
    assert_eq!(counts(&book), (0, 0, 0, 0, 1, 1));
}

#[test]
fn staying_unmatched_counts_a_new_bet() {
    let exchange = Exchange;
    let mut book = exchange.init_bet_scheduler();
    let counted =
        exchange.update_status_counters(&mut book, &BetStatus::Unmatched, &BetStatus::Unmatched);
    assert!(counted);
    assert_eq!(counts(&book), (0, 1, 0, 0, 0, 0));
}

#[test]
fn keeping_any_other_status_changes_no_count() {
    let exchange = Exchange;
    let mut book = book_with(&[back(200, 10, 1, 1)]);
    for status in [
        BetStatus::PartiallyMatched,
        BetStatus::Matched,
        BetStatus::Win,
        BetStatus::Lost,
        BetStatus::Canceled,
    ] {
        let counted = exchange.update_status_counters(&mut book, &status, &status);
        assert!(!counted);
        assert_eq!(counts(&book), (0, 1, 0, 0, 0, 0));
    }
}

#[test]
fn count_of_zero_stays_zero_when_a_bet_leaves_it() {
    let exchange = Exchange;
    let mut book = exchange.init_bet_scheduler();
    exchange.update_status_counters(&mut book, &BetStatus::Matched, &BetStatus::Win);
    assert_eq!(counts(&book), (0, 0, 0, 1, 0, 0));
    book.count_out(BetStatus::Canceled);
    assert_eq!(counts(&book), (0, 0, 0, 1, 0, 0));
    book.count_out(BetStatus::Win);
    assert_eq!(counts(&book), (0, 0, 0, 0, 0, 0));
    book.count_in(BetStatus::Lost);
    assert_eq!(counts(&book), (0, 0, 0, 0, 1, 0));
}

#[test]
fn room_is_measured_against_64_bits() {
    let exchange = Exchange;
    let mut book = exchange.init_bet_scheduler();
    assert!(book.has_room(usize::MAX));
    assert!(book.has_room_for(BetType::Back));
    book.matched_count = u64::MAX;
    assert!(book.has_room(0));
    assert!(!book.has_room(1));
    assert!(!book.has_room_for(BetType::Back));
    book.matched_count = u64::MAX - 2;
    exchange.add_to_queue(&mut book, &lay(200, 10, 10, 1, 1));
    exchange.add_to_queue(&mut book, &lay(200, 10, 10, 2, 2));
    assert!(book.has_room_for(BetType::Lay));
    assert!(!book.has_room_for(BetType::Back));
}

#[test]
fn counts_that_no_match_can_raise_do_not_stand_in_the_way() {
    let exchange = Exchange;
    let mut book = book_with(&[back(200, 50, 1, 1)]);
    book.win_count = u64::MAX;
    book.lost_count = u64::MAX;
    book.canceled_count = u64::MAX;
    assert!(book.has_room_for(BetType::Lay));
    let done = exchange.process_bet(&mut book, lay(200, 50, 50, 2, 2));
    assert_eq!(done.0, 50);
    assert_eq!(counts(&book), (2, 0, 0, u64::MAX, u64::MAX, u64::MAX));
}

#[test]
fn full_count_of_unmatched_bets_leaves_no_room() {
    let mut book = Exchange.init_bet_scheduler();
    book.unmatched_count = u64::MAX;
    assert!(!book.has_room_for(BetType::Back));
    assert!(!book.has_room_for(BetType::Lay));
    book.unmatched_count = u64::MAX - 1;
    assert!(book.has_room_for(BetType::Back));
}
