//! Markets and their selections, each selection with its order book.

use vstd::prelude::*;
use crate::book::Book;
use crate::types::{BetType, Tracker};

verus! {

/// Whether a market takes bets.
#[derive(Clone, Copy, Debug, PartialEq, Eq, Structural)]
pub enum MarketStatus {
    Open,
    Closed,
    Settled,
}

/// One outcome of a market that can be bet on, and its order book.
#[derive(Clone, Debug, PartialEq, Eq)]
pub struct Selection {
    pub selection_id: u64,
    pub description: Vec<u8>,
    pub priority_queue: Tracker,
}

/// A market: its selections, until when and whether it takes bets, and how
/// much was matched in it.
#[derive(Clone, Debug, PartialEq, Eq)]
pub struct Market {
    pub market_id: u64,
    pub event_id: u64,
    pub description: Vec<u8>,
    pub selections: Vec<Selection>,
    pub liquidity: u128,
    pub close_timestamp: u64,
    pub market_status: MarketStatus,
    pub total_matched_amount: u128,
    pub created_at: u64,
}

/// What a `Selection` holds.
pub struct SelectionView {
    pub selection_id: u64,
    pub description: Seq<u8>,
    pub priority_queue: Book,
}

/// What a `Market` holds.
pub struct MarketView {
    pub market_id: u64,
    pub event_id: u64,
    pub description: Seq<u8>,
    pub selections: Seq<SelectionView>,
    pub liquidity: nat,
    pub close_timestamp: u64,
    pub market_status: MarketStatus,
    pub total_matched_amount: nat,
    pub created_at: u64,
}

impl View for Selection {
    type V = SelectionView;

    open spec fn view(&self) -> SelectionView {
        SelectionView {
            selection_id: self.selection_id,
            description: self.description@,
            priority_queue: self.priority_queue@,
        }
    }
}

impl View for Market {
    type V = MarketView;

    open spec fn view(&self) -> MarketView {
        MarketView {
            market_id: self.market_id,
            event_id: self.event_id,
            description: self.description@,
            selections: spec_selection_views(self.selections@),
            liquidity: self.liquidity as nat,
            close_timestamp: self.close_timestamp,
            market_status: self.market_status,
            total_matched_amount: self.total_matched_amount as nat,
            created_at: self.created_at,
        }
    }
}

/// The selections, each by what it holds.
pub open spec fn spec_selection_views(selections: Seq<Selection>) -> Seq<SelectionView> {
    Seq::new(selections.len(), |i: int| selections[i]@)
}

/// The first place at or after `from` that holds a selection with the given
/// id; the number of selections where there is none.
pub open spec fn spec_selection_index_from(
    selections: Seq<SelectionView>,
    selection_id: u64,
    from: int,
) -> int
    decreases selections.len() - from,
{
    if from >= selections.len() {
        selections.len() as int
    } else if selections[from].selection_id == selection_id {
        from
    } else {
        spec_selection_index_from(selections, selection_id, from + 1)
    }
}

/// The find index lies between `from` and the number of selections; no
/// selection from `from` up to it has the id, and the selection at it has.
pub proof fn lemma_selection_index_from(
    selections: Seq<SelectionView>,
    selection_id: u64,
    from: int,
)
    requires
        0 <= from <= selections.len(),
    ensures
        from <= spec_selection_index_from(selections, selection_id, from) <= selections.len(),
        forall|k: int|
            from <= k < spec_selection_index_from(selections, selection_id, from) ==> (
            #[trigger] selections[k]).selection_id != selection_id,
        spec_selection_index_from(selections, selection_id, from) < selections.len()
            ==> selections[spec_selection_index_from(
            selections,
            selection_id,
            from,
        )].selection_id == selection_id,
    decreases selections.len() - from,
{
    if from < selections.len() && selections[from].selection_id != selection_id {
        lemma_selection_index_from(selections, selection_id, from + 1);
    }
}

/// Finds the first selection with the given id.
pub fn selection_position(selections: &Vec<Selection>, selection_id: u64) -> (found: Option<usize>)
    ensures
        match found {
            Some(at) => {
                &&& spec_selection_index_from(
                    spec_selection_views(selections@),
                    selection_id,
                    0,
                ) == at
                &&& at < selections@.len()
                &&& selections@[at as int].selection_id == selection_id
                &&& forall|k: int| 0 <= k < at ==> (#[trigger] selections@[k]).selection_id
                    != selection_id
            },
            None => {
                &&& spec_selection_index_from(
                    spec_selection_views(selections@),
                    selection_id,
                    0,
                ) == selections@.len()
                &&& forall|k: int|
                    0 <= k < selections@.len() ==> (#[trigger] selections@[k]).selection_id
                        != selection_id
            },
        },
{
    proof {
        let views = spec_selection_views(selections@);
        lemma_selection_index_from(views, selection_id, 0);
        assert forall|k: int|
            0 <= k < spec_selection_index_from(views, selection_id, 0) implies (
        #[trigger] selections@[k]).selection_id != selection_id by {
            assert(views[k].selection_id == selections@[k].selection_id);
        }
    }
    let mut i: usize = 0;
    while i < selections.len()
        invariant
            i <= selections.len(),
            spec_selection_index_from(
                spec_selection_views(selections@),
                selection_id,
                0,
            ) == spec_selection_index_from(
                spec_selection_views(selections@),
                selection_id,
                i as int,
            ),
            forall|k: int|
                0 <= k < spec_selection_index_from(
                    spec_selection_views(selections@),
                    selection_id,
                    0,
                ) ==> (#[trigger] selections@[k]).selection_id != selection_id,
        decreases selections.len() - i,
    {
        if selections[i].selection_id == selection_id {
            return Some(i);
        }
        i += 1;
    }
    None
}

impl MarketView {
    /// The place of the first selection with the given id, if there is one.
    pub open spec fn spec_selection_index(self, selection_id: u64) -> Option<int> {
        let found = spec_selection_index_from(self.selections, selection_id, 0);
        if found < self.selections.len() {
            Some(found)
        } else {
            None
        }
    }

    /// The book of every selection is valid.
    pub open spec fn spec_valid(self) -> bool {
        forall|i: int|
            0 <= i < self.selections.len() ==> (#[trigger] self.selections[i]).priority_queue.spec_valid()
    }

    /// A bet of `bet_type` placed with `total_amount` on the selection can be
    /// taken without the matched total of the market leaving its 128 bits or
    /// a count of the selection's book its 64.
    pub open spec fn spec_room(self, selection_id: u64, bet_type: BetType, total_amount: u64) -> bool {
        &&& self.total_matched_amount + total_amount <= u128::MAX
        &&& match self.spec_selection_index(selection_id) {
            Some(at) => self.selections[at].priority_queue.spec_room_for(bet_type),
            None => true,
        }
    }

    /// The market takes bets at the time `now`.
    pub open spec fn spec_open_at(self, now: u64) -> bool {
        now < self.close_timestamp
    }
}

} // verus!
