use betting_exchange::{
    BetType, Exchange, ExchangeError, Market, MarketManagerModule, MarketStatus, TrackerModule,
};

fn open_market(counter: &mut Option<u64>) -> Market {
    Exchange
        .create_market(
            counter,
            42,
            b"cup".to_vec(),
            vec![b"home".to_vec(), b"draw".to_vec(), b"away".to_vec()],
            500,
            100,
        )
        .unwrap()
}

#[test]
fn first_market_gets_id_zero() {
    let mut counter: Option<u64> = None;
    let market = open_market(&mut counter);
    assert_eq!(market.market_id, 0);
    assert_eq!(counter, Some(1));
}

#[test]
fn later_markets_get_the_next_id() {
    let mut counter: Option<u64> = None;
    let _ = open_market(&mut counter);
    let second = open_market(&mut counter);
    let third = open_market(&mut counter);
    assert_eq!(second.market_id, 1);
    assert_eq!(third.market_id, 2);
    assert_eq!(counter, Some(3));
}

#[test]
fn new_market_is_open_and_empty() {
    let mut counter: Option<u64> = Some(5);
    let market = open_market(&mut counter);
    assert_eq!(market.market_id, 5);
    assert_eq!(market.event_id, 42);
    assert_eq!(market.description, b"cup".to_vec());
    assert_eq!(market.liquidity, 0);
    assert_eq!(market.close_timestamp, 500);
    assert_eq!(market.market_status, MarketStatus::Open);
    assert_eq!(market.total_matched_amount, 0);
    assert_eq!(market.created_at, 100);
    assert_eq!(market.selections.len(), 3);
    assert!(market.is_valid());
    assert!(market.has_room(1, BetType::Back, u64::MAX));
}

#[test]
fn selections_are_numbered_from_one_in_the_order_given() {
    let mut counter: Option<u64> = None;
    let market = open_market(&mut counter);
    let empty = Exchange.init_bet_scheduler();
    assert_eq!(market.selections[0].selection_id, 1);
    assert_eq!(market.selections[0].description, b"home".to_vec());
    assert_eq!(market.selections[1].selection_id, 2);
    assert_eq!(market.selections[1].description, b"draw".to_vec());
    assert_eq!(market.selections[2].selection_id, 3);
    assert_eq!(market.selections[2].description, b"away".to_vec());
    for selection in &market.selections {
        assert_eq!(selection.priority_queue, empty);
    }
}

#[test]
fn market_closing_at_or_before_its_creation_is_turned_down() {
    let mut counter: Option<u64> = Some(3);
    let at = Exchange.create_market(&mut counter, 1, Vec::new(), Vec::new(), 100, 100);
    assert_eq!(at.unwrap_err(), ExchangeError::CloseTimestampNotInFuture);
    let before = Exchange.create_market(&mut counter, 1, Vec::new(), Vec::new(), 99, 100);
    assert_eq!(before.unwrap_err(), ExchangeError::CloseTimestampNotInFuture);
    assert_eq!(counter, Some(3));
    let after = Exchange.create_market(&mut counter, 1, Vec::new(), Vec::new(), 101, 100);
    assert!(after.is_ok());
    assert_eq!(counter, Some(4));
}

#[test]
fn market_without_selections_can_be_opened() {
    let mut counter: Option<u64> = None;
    let market = Exchange.create_market(&mut counter, 1, Vec::new(), Vec::new(), 2, 1).unwrap();
    assert!(market.selections.is_empty());
    assert!(market.is_valid());
}

#[test]
fn counter_gives_its_value_and_moves_on() {
    let exchange = Exchange;
    let mut counter: Option<u64> = None;
    assert_eq!(exchange.get_current_market_counter(&counter), 0);
    assert_eq!(exchange.get_and_increment_market_counter(&mut counter), 0);
    assert_eq!(counter, Some(1));
    assert_eq!(exchange.get_current_market_counter(&counter), 1);
    assert_eq!(exchange.get_and_increment_market_counter(&mut counter), 1);
    assert_eq!(exchange.get_and_increment_market_counter(&mut counter), 2);
    assert_eq!(counter, Some(3));
    let mut high: Option<u64> = Some(u64::MAX - 1);
    assert_eq!(exchange.get_and_increment_market_counter(&mut high), u64::MAX - 1);
    assert_eq!(high, Some(u64::MAX));
}

#[test]
fn create_selections_builds_one_per_description() {
    let exchange = Exchange;
    let selections = exchange.create_selections(vec![b"yes".to_vec(), b"no".to_vec()]);
    assert_eq!(selections.len(), 2);
    assert_eq!(selections[0].selection_id, 1);
    assert_eq!(selections[0].description, b"yes".to_vec());
    assert_eq!(selections[1].selection_id, 2);
    assert_eq!(selections[1].description, b"no".to_vec());
    assert!(exchange.create_selections(Vec::new()).is_empty());
}

#[test]
fn get_selection_finds_a_selection_by_its_id() {
    let exchange = Exchange;
    let mut counter: Option<u64> = None;
    let market = open_market(&mut counter);
    let second = exchange.get_selection(&market, 2).unwrap();
    assert_eq!(second.description, b"draw".to_vec());
    assert_eq!(exchange.get_selection(&market, 0).unwrap_err(), ExchangeError::SelectionNotFound);
    assert_eq!(exchange.get_selection(&market, 4).unwrap_err(), ExchangeError::SelectionNotFound);
}

#[test]
fn get_selection_gives_the_first_of_two_with_the_same_id() {
    let exchange = Exchange;
    let mut counter: Option<u64> = None;
    let mut market = open_market(&mut counter);
    market.selections[2].selection_id = 1;
    let found = exchange.get_selection(&market, 1).unwrap();
    assert_eq!(found.description, b"home".to_vec());
}

#[test]
fn market_is_open_until_its_closing_time() {
    let exchange = Exchange;
    let mut counter: Option<u64> = None;
    let market = open_market(&mut counter);
    assert!(exchange.is_market_open(Some(&market), 0));
    assert!(exchange.is_market_open(Some(&market), 499));
    assert!(!exchange.is_market_open(Some(&market), 500));
    assert!(!exchange.is_market_open(Some(&market), 501));
    assert!(!exchange.is_market_open(None, 0));
}

#[test]
fn market_with_a_broken_book_is_not_valid() {
    let mut counter: Option<u64> = None;
    let mut market = open_market(&mut counter);
    market.selections[1].priority_queue.back_liquidity = 5;
    assert!(!market.is_valid());
}
