use std::collections::HashMap;

use betting_exchange::{
    Bet, BetManagerModule, BetType, Exchange, Market, MarketManagerModule, Tracker,
};

const ODDS: [u64; 7] = [101, 150, 180, 200, 220, 250, 400];

struct Numbers(u64);

impl Numbers {
    fn next(&mut self) -> u64 {
        self.0 = self
            .0
            .wrapping_mul(6364136223846793005)
            .wrapping_add(1442695040888963407);
        self.0 >> 33
    }
}

fn open_market() -> Market {
    let mut counter: Option<u64> = None;
    Exchange
        .create_market(
            &mut counter,
            1,
            b"match".to_vec(),
            vec![b"home".to_vec(), b"away".to_vec()],
            1_000_000,
            0,
        )
        .unwrap()
}

fn resting(book: &Tracker) -> Vec<Bet> {
    book.back_orders.iter().chain(book.lay_orders.iter()).copied().collect()
}

fn check_book(book: &Tracker) {
    assert!(book.is_valid());
    let mut back_stakes: u128 = 0;
    for pair in book.back_orders.windows(2) {
        assert!(
            pair[0].odds > pair[1].odds
                || (pair[0].odds == pair[1].odds && pair[0].created_at <= pair[1].created_at)
        );
    }
    for bet in &book.back_orders {
        assert_eq!(bet.bet_type, BetType::Back);
        assert!(bet.unmatched_amount > 0);
        assert_eq!(bet.matched_amount + bet.unmatched_amount, bet.stake_amount);
        back_stakes += bet.stake_amount as u128;
    }
    assert_eq!(book.back_liquidity, back_stakes);
    let mut lay_stakes: u128 = 0;
    for pair in book.lay_orders.windows(2) {
        assert!(
            pair[0].odds < pair[1].odds
                || (pair[0].odds == pair[1].odds && pair[0].created_at <= pair[1].created_at)
        );
    }
    for bet in &book.lay_orders {
        assert_eq!(bet.bet_type, BetType::Lay);
        assert!(bet.unmatched_amount > 0);
        lay_stakes += bet.stake_amount as u128;
    }
    assert_eq!(book.lay_liquidity, lay_stakes);
    assert_eq!(book.best_back_odds, book.back_orders.first().map_or(0, |bet| bet.odds));
    assert_eq!(book.best_lay_odds, book.lay_orders.first().map_or(0, |bet| bet.odds));
}

fn run(seed: u64, rounds: u64) {
    let exchange = Exchange;
    let mut numbers = Numbers(seed);
    let mut market = open_market();
    let mut known: HashMap<u64, Bet> = HashMap::new();
    let mut matched_so_far: u128 = 0;
    for round in 0..rounds {
        let selection_id = 1 + numbers.next() % 2;
        let odds = ODDS[(numbers.next() % ODDS.len() as u64) as usize];
        let units = 1 + numbers.next() % 40;
        let lay = numbers.next() % 2 == 0;
        let (bet_type, total_amount, liability) = if lay {
            (BetType::Lay, units * odds, units * (odds - 100))
        } else {
            (BetType::Back, units * 7, 0)
        };
        // several bets share a time, so that ties are met
        let created_at = 1 + round / 3;
        let bet_id = round + 1;
        assert!(market.is_valid());
        assert!(market.has_room(selection_id, bet_type, total_amount));
        let placed = exchange
            .place_bet(
                Some(market),
                [3u8; 32],
                created_at,
                total_amount,
                bet_id,
                selection_id,
                odds,
                bet_type,
                liability,
            )
            .unwrap();

        let bet = placed.bet;
        assert_eq!(bet.stake_amount as u128 + bet.liability, total_amount as u128);
        assert_eq!(bet.matched_amount, placed.matched_amount);
        assert_eq!(bet.unmatched_amount, placed.unmatched_amount);
        let total: u128 = match bet_type {
            BetType::Back => bet.stake_amount as u128,
            BetType::Lay => bet.liability,
        };
        assert_eq!(bet.matched_amount as u128 + bet.unmatched_amount as u128, total);

        let mut moved: u64 = 0;
        for after in &placed.matching_bets {
            let before = known[&after.receipt_id];
            assert_ne!(after.bet_type, bet_type);
            assert_eq!(after.selection_id, selection_id);
            assert!(after.matched_amount > before.matched_amount);
            assert_eq!(
                after.matched_amount + after.unmatched_amount,
                before.matched_amount + before.unmatched_amount
            );
            let (backer, layer) = match bet_type {
                BetType::Back => (&bet, after),
                BetType::Lay => (after, &bet),
            };
            assert!(backer.odds >= layer.odds);
            moved += after.matched_amount - before.matched_amount;
        }
        assert_eq!(moved, placed.matched_amount);
        matched_so_far += placed.matched_amount as u128;
        assert_eq!(placed.market.total_matched_amount, matched_so_far);

        known.insert(bet.receipt_id, bet);
        for after in &placed.matching_bets {
            known.insert(after.receipt_id, *after);
        }
        market = placed.market;

        let mut in_books: HashMap<u64, Bet> = HashMap::new();
        for selection in &market.selections {
            check_book(&selection.priority_queue);
            for bet in resting(&selection.priority_queue) {
                assert_eq!(bet.selection_id, selection.selection_id);
                assert!(in_books.insert(bet.receipt_id, bet).is_none());
            }
        }
        for (receipt_id, bet) in &known {
            assert_eq!(in_books.contains_key(receipt_id), bet.unmatched_amount > 0);
            if let Some(found) = in_books.get(receipt_id) {
                assert_eq!(found, bet);
            }
        }
    }
    let mut counted: u64 = 0;
    for selection in &market.selections {
        let book = &selection.priority_queue;
        counted += book.matched_count + book.unmatched_count + book.partially_matched_count;
        assert_eq!(book.win_count + book.lost_count + book.canceled_count, 0);
    }
    assert_eq!(counted, rounds);
}

#[test]
fn books_stay_valid_over_many_bets() {
    run(1, 400);
}

#[test]
fn books_stay_valid_over_many_bets_from_another_start() {
    run(0x9E37_79B9_7F4A_7C15, 400);
}

#[test]
fn books_stay_valid_over_a_few_bets_from_many_starts() {
    for seed in 0..60 {
        run(seed * 7919 + 13, 40);
    }
}
