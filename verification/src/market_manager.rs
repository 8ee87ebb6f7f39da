//! Opening markets and looking them up.

use vstd::prelude::*;
use crate::book::Book;
use crate::errors::ExchangeError;
use crate::market::{
    selection_position, spec_selection_views, Market, MarketStatus, MarketView, Selection,
    SelectionView,
};
use crate::tracker::TrackerModule;

verus! {

/// The id that the next market gets: what the counter holds, or zero where
/// no market was opened yet.
pub open spec fn spec_current_counter(counter: Option<u64>) -> u64 {
    match counter {
        Some(next) => next,
        None => 0,
    }
}

/// The selections of a new market: one for each description, numbered from
/// one in the order given, each with an empty book.
pub open spec fn spec_new_selections(descriptions: Seq<Vec<u8>>) -> Seq<SelectionView> {
    Seq::new(
        descriptions.len(),
        |i: int|
            SelectionView {
                selection_id: (i + 1) as u64,
                description: descriptions[i]@,
                priority_queue: Book::spec_empty(),
            },
    )
}

/// A market as it is opened: taking bets, with nothing matched.
pub open spec fn spec_new_market(
    market_id: u64,
    event_id: u64,
    description: Seq<u8>,
    selection_descriptions: Seq<Vec<u8>>,
    close_timestamp: u64,
    created_at: u64,
) -> MarketView {
    MarketView {
        market_id,
        event_id,
        description,
        selections: spec_new_selections(selection_descriptions),
        liquidity: 0,
        close_timestamp,
        market_status: MarketStatus::Open,
        total_matched_amount: 0,
        created_at,
    }
}

/// Opening markets and looking them up.
pub trait MarketManagerModule: TrackerModule {
    /// Opens a market at the time `created_at`. A closing time that is not
    /// after that time is turned down, and the counter stays as it was.
    /// Otherwise the market gets the next id of the counter, and one
    /// selection with an empty book for each description.
    fn create_market(
        &self,
        counter: &mut Option<u64>,
        event_id: u64,
        description: Vec<u8>,
        selection_descriptions: Vec<Vec<u8>>,
        close_timestamp: u64,
        created_at: u64,
    ) -> (created: Result<Market, ExchangeError>)
        requires
            *old(counter) != Some(u64::MAX),
        ensures
            match created {
                Err(reason) => {
                    &&& close_timestamp <= created_at
                    &&& reason == ExchangeError::CloseTimestampNotInFuture
                    &&& *final(counter) == *old(counter)
                },
                Ok(market) => {
                    &&& close_timestamp > created_at
                    &&& *final(counter) == Some((spec_current_counter(*old(counter)) + 1) as u64)
                    &&& market@ == spec_new_market(
                        spec_current_counter(*old(counter)),
                        event_id,
                        description@,
                        selection_descriptions@,
                        close_timestamp,
                        created_at,
                    )
                    &&& market@.spec_valid()
                },
            },
    {
        if close_timestamp <= created_at {
            return Err(ExchangeError::CloseTimestampNotInFuture);
        }
        let market_id: u64 = self.get_and_increment_market_counter(counter);
        let selections: Vec<Selection> = self.create_selections(selection_descriptions);
        Ok(
            Market {
                market_id,
                event_id,
                description,
                selections,
                liquidity: 0,
                close_timestamp,
                market_status: MarketStatus::Open,
                total_matched_amount: 0,
                created_at,
            },
        )
    }

    /// Gives the id for the next market and moves the counter on. The first
    /// id is zero.
    fn get_and_increment_market_counter(&self, counter: &mut Option<u64>) -> (market_id: u64)
        requires
            *old(counter) != Some(u64::MAX),
        ensures
            market_id == spec_current_counter(*old(counter)),
            *final(counter) == Some((market_id + 1) as u64),
    {
        match *counter {
            None => {
                *counter = Some(1);
                0
            },
            Some(current_value) => {
                *counter = Some(current_value + 1);
                current_value
            },
        }
    }

    /// Builds the selections of a new market: one for each description,
    /// numbered from one in the order given, each with an empty book.
    fn create_selections(&self, descriptions: Vec<Vec<u8>>) -> (selections: Vec<Selection>)
        ensures
            spec_selection_views(selections@) == spec_new_selections(descriptions@),
            forall|i: int|
                0 <= i < selections@.len() ==> (#[trigger] selections@[i])@.priority_queue.spec_valid(),
    {
        let mut selections: Vec<Selection> = Vec::new();
        let mut selection_id: u64 = 0;
        assert(descriptions@.len() == descriptions.len());
        for description in iter: descriptions
            invariant
                iter.seq() == descriptions@,
                descriptions@.len() <= usize::MAX,
                selection_id == iter.index(),
                selections@.len() == iter.index(),
                forall|i: int|
                    0 <= i < selections@.len() ==> (#[trigger] selections@[i])@ == (SelectionView {
                        selection_id: (i + 1) as u64,
                        description: descriptions@[i]@,
                        priority_queue: Book::spec_empty(),
                    }),
        {
            selection_id = selection_id + 1;
            selections.push(
                Selection { selection_id, description, priority_queue: self.init_bet_scheduler() },
            );
        }
        assert(spec_selection_views(selections@) =~= spec_new_selections(descriptions@));
        selections
    }

    /// Looks up the first selection of a market that has the given id.
    fn get_selection<'a>(&self, market: &'a Market, selection_id: u64) -> (found: Result<
        &'a Selection,
        ExchangeError,
    >)
        ensures
            match found {
                Ok(selection) => {
                    &&& market@.spec_selection_index(selection_id) is Some
                    &&& *selection == market.selections@[market@.spec_selection_index(selection_id)->0]
                    &&& selection.selection_id == selection_id
                },
                Err(reason) => {
                    &&& market@.spec_selection_index(selection_id) is None
                    &&& reason == ExchangeError::SelectionNotFound
                },
            },
    {
        match selection_position(&market.selections, selection_id) {
            Some(at) => Ok(&market.selections[at]),
            None => Err(ExchangeError::SelectionNotFound),
        }
    }

    /// Says whether there is a market and its closing time is still ahead.
    fn is_market_open(&self, market: Option<&Market>, now: u64) -> (open: bool)
        ensures
            open == (market matches Some(m) && m@.spec_open_at(now)),
    {
        match market {
            Some(market) => now < market.close_timestamp,
            None => false,
        }
    }

    /// The id that the next market gets: zero where none was opened yet.
    fn get_current_market_counter(&self, counter: &Option<u64>) -> (next: u64)
        ensures
            next == spec_current_counter(*counter),
    {
        match counter {
            Some(next) => *next,
            None => 0,
        }
    }
}

} // verus!
