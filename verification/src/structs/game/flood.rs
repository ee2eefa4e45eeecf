//! The flood phase of a turn: flood cards are drawn, tiles flood and sink,
//! and adventurers leave the tiles that sink under them.

use vstd::prelude::*;

use super::chooser::{settle, settled, texts, Chooser};
use super::listing::{is_stable_order, stable_order};
use super::model::spec_distance;
use super::movement::distance;
use super::moves::{Action, MoveType};
use super::{Game, GameView};
use crate::structs::board::{lemma_island_coords, valid_coord, ISLAND_COORDS};
use crate::structs::cards::adventurer::AdventurerCardType;
use crate::structs::cards::island::{IslandCardName, IslandCardState};

verus! {

impl Game {
    /// Looks after the flood deck: where it has run out, the discard pile is
    /// shuffled and becomes the deck.
    pub fn tend_flood_deck(&mut self)
        ensures
            final(self)@.flood_tended_from(old(self)@),
    {
        if self.flood_deck.is_empty() {
            self.flood_discard_deck.shuffle(&mut self.rng);
            let ghost shuffled = self.flood_discard_deck@;
            self.flood_deck.stack(&mut self.flood_discard_deck);
            assert(self@.flood_deck =~= shuffled);
        }
    }

    /// Draws the top card of the flood deck and carries it out: the water
    /// rises once over the tile of the card, and the card goes to the
    /// discard pile unless the tile has sunk.  Then the flood deck is
    /// tended.  Returns the tile and whether it has sunk.
    pub fn draw_flood_card(&mut self) -> (drawn: (IslandCardName, bool))
        requires
            old(self)@.wf(),
            old(self)@.flood_deck.len() > 0,
        ensures
            final(self)@.wf(),
            final(self)@.flooded_from(old(self)@),
            drawn.0 == old(self)@.flood_deck[0].island_card,
            drawn.1 == (old(self)@.board.card(drawn.0).state == IslandCardState::Flooded),
            drawn.1 == (final(self)@.board.card(drawn.0).state == IslandCardState::Sunk),
    {
        let ghost before = self@;
        proof {
            before.lemma_flood_drawn();
        }
        let card = self.flood_deck.pop_next().unwrap();
        let name = card.get_type();
        let sunk = self.board.sink(&name);
        if !sunk {
            self.flood_discard_deck.insert(card);
        }
        assert(self@ == before.flood_drawn());
        self.tend_flood_deck();
        proof {
            self@.lemma_flood_tended(before.flood_drawn());
        }
        (name, sunk)
    }

    /// The place nearest to `from` whose tile has not sunk, if there is one;
    /// among places as near, the first one on the board.
    pub fn nearest(&self, from: &(usize, usize)) -> (place: Option<(usize, usize)>)
        requires
            self@.board.wf(),
            valid_coord(*from),
        ensures
            place == self@.nearest(*from),
            place matches Some(to) ==> valid_coord(to) && self@.state_at(to) != IslandCardState::Sunk,
    {
        proof {
            lemma_island_coords();
        }
        let mut keys: Vec<(usize, usize)> = Vec::with_capacity(24);
        let mut i: usize = 0;
        while i < 24
            invariant
                i <= 24,
                valid_coord(*from),
                keys@.len() == i,
                forall|k: int|
                    0 <= k < i ==> (#[trigger] keys@[k]) == (
                        spec_distance(ISLAND_COORDS[k], *from) as usize,
                        0usize,
                    ),
            decreases 24 - i,
        {
            proof {
                lemma_island_coords();
            }
            keys.push((distance(&ISLAND_COORDS[i], from), 0));
            i += 1;
        }
        let order = stable_order(&keys);
        let mut p: usize = 0;
        while p < order.len()
            invariant
                p <= order@.len(),
                self@.board.wf(),
                valid_coord(*from),
                keys@.len() == 24,
                forall|k: int|
                    0 <= k < 24 ==> (#[trigger] keys@[k]) == (
                        spec_distance(ISLAND_COORDS[k], *from) as usize,
                        0usize,
                    ),
                is_stable_order(keys@, order@),
                forall|q: int|
                    0 <= q < p ==> self@.board.cells[(#[trigger] order@[q]) as int].state
                        == IslandCardState::Sunk,
            decreases order@.len() - p,
        {
            let slot = order[p];
            if self.board.cells[slot].state != IslandCardState::Sunk {
                proof {
                    lemma_island_coords();
                    assert forall|other: int|
                        0 <= other < 24 && (#[trigger] self@.board.cells[other]).state
                            != IslandCardState::Sunk implies spec_distance(
                        ISLAND_COORDS[slot as int],
                        *from,
                    ) < spec_distance(ISLAND_COORDS[other], *from) || (spec_distance(
                        ISLAND_COORDS[slot as int],
                        *from,
                    ) == spec_distance(ISLAND_COORDS[other], *from) && slot <= other) by {
                        assert(order@.contains(other as usize));
                        let q = choose|q: int| 0 <= q < order@.len() && order@[q] == other as usize;
                        assert(keys@[other] == (
                            spec_distance(ISLAND_COORDS[other], *from) as usize,
                            0usize,
                        ));
                        assert(keys@[slot as int] == (
                            spec_distance(ISLAND_COORDS[slot as int], *from) as usize,
                            0usize,
                        ));
                        if q < p {
                            assert(self@.board.cells[order@[q] as int].state
                                == IslandCardState::Sunk);
                        } else if q > p {
                            assert(order@[p as int] == slot && order@[q] == other);
                        }
                    }
                    assert(self@.is_nearest(*from, slot as int));
                    let chosen = choose|chosen: int| self@.is_nearest(*from, chosen);
                    assert(self@.is_nearest(*from, chosen));
                    assert(chosen == slot);
                }
                return Some(ISLAND_COORDS[slot]);
            }
            p += 1;
        }
        proof {
            assert forall|slot: int| !self@.is_nearest(*from, slot) by {
                if 0 <= slot < 24 {
                    assert(order@.contains(slot as usize));
                    let q = choose|q: int| 0 <= q < order@.len() && order@[q] == slot as usize;
                    assert(self@.board.cells[order@[q] as int].state == IslandCardState::Sunk);
                }
            }
        }
        None
    }

    /// The places to which the adventurer at position `who` of the roster
    /// can get away from its place.
    pub fn evacuation_options(&self, who: usize) -> (places: Vec<(usize, usize)>)
        requires
            self@.wf(),
            who < self@.adventurers.len(),
        ensures
            places@ == self@.evacuation_options(who as int),
            forall|k: int|
                0 <= k < places@.len() ==> valid_coord(#[trigger] places@[k]) && self@.state_at(
                    places@[k],
                ) != IslandCardState::Sunk,
    {
        let leaver = &self.adventurers[who];
        assert(self@.adventurers[who as int] == leaver@);
        let from = leaver.pos;
        let list = Self::candidates(&leaver.card, true, &from);
        let ghost open_place = |to: (usize, usize)| self@.may_enter(from, to, false);
        let mut places: Vec<(usize, usize)> = Vec::new();
        let mut i: usize = 0;
        while i < list.len()
            invariant
                i <= list@.len(),
                self@.board.wf(),
                open_place == |to: (usize, usize)| self@.may_enter(from, to, false),
                places@ == list@.take(i as int).filter(open_place),
                forall|k: int|
                    0 <= k < places@.len() ==> valid_coord(#[trigger] places@[k]) && self@.state_at(
                        places@[k],
                    ) != IslandCardState::Sunk,
            decreases list@.len() - i,
        {
            broadcast use Seq::lemma_take_succ_push, Seq::lemma_filter_push;

            if self.may_enter(&from, &list[i], false) {
                places.push(list[i]);
            }
            i += 1;
        }
        assert(list@.take(i as int) =~= list@);
        if places.is_empty() && leaver.card == AdventurerCardType::Diver {
            match self.nearest(&from) {
                Some(place) => {
                    places.push(place);
                    assert(places@ =~= seq![place]);
                },
                None => {},
            }
        }
        places
    }

    /// Makes the adventurer at position `who` of the roster leave its place
    /// for one of the places it can get away to.  A single place is taken
    /// without asking.
    pub fn move_adventurer_flood<C: Chooser>(&mut self, who: usize, chooser: &mut C)
        requires
            old(self)@.wf(),
            who < old(self)@.adventurers.len(),
            old(self)@.evacuation_options(who as int).len() > 0,
        ensures
            final(self)@.wf(),
            final(self)@.adventurers.len() == old(self)@.adventurers.len(),
            final(self)@.state_at(final(self)@.adventurers[who as int].pos) != IslandCardState::Sunk,
            forall|j: int|
                0 <= j < old(self)@.adventurers.len() && j != who ==> final(self)@.adventurers[j]
                    == old(self)@.adventurers[j],
            final(self)@.adventurers[who as int].role == old(self)@.adventurers[who as int].role,
            final(self)@.escaped_by(old(self)@, who as int, *old(chooser), *final(chooser)),
    {
        let options = self.evacuation_options(who);
        let mut labels: Vec<String> = Vec::new();
        let mut i: usize = 0;
        while i < options.len()
            invariant
                i <= options@.len(),
                self@.board.wf(),
                who < self@.adventurers.len(),
                labels@.len() == i,
                forall|k: int|
                    0 <= k < i ==> (#[trigger] labels@[k])@ == self@.move_label(
                        who as int,
                        MoveType::Move(options@[k]),
                    ),
            decreases options@.len() - i,
        {
            labels.push(self.move_label(who, &MoveType::Move(options[i])));
            i += 1;
        }
        assert(texts(labels@) =~= self@.escape_labels(who as int));
        let choice = settle(chooser, Action::Move, &labels);
        self.place(who, options[choice]);
        assert(self@ == old(self)@.with_pos(
            old(self)@.adventurers[who as int].role,
            old(self)@.evacuation_options(who as int)[choice as int],
        ));
    }
}

impl GameView {
    /// The places to which the adventurer at `who` can get away, as text.
    pub open spec fn escape_labels(self, who: int) -> Seq<Seq<char>> {
        self.evacuation_options(who).map_values(
            |to: (usize, usize)| self.move_label(who, MoveType::Move(to)),
        )
    }

    /// Whether the game is `self` after the adventurer at `who` has left its
    /// place in `before`, decided by a source that went from `source` to
    /// `after`: the decision among the places it can get away to is
    /// settled, and it stands on the place settled on.
    pub open spec fn escaped_by<C: Chooser>(self, before: GameView, who: int, source: C, after: C) -> bool {
        exists|k: int|
            #![trigger before.evacuation_options(who)[k]]
            0 <= k < before.evacuation_options(who).len() && settled(
                source,
                after,
                Action::Move,
                before.escape_labels(who),
                k,
            ) && self == before.with_pos(
                before.adventurers[who].role,
                before.evacuation_options(who)[k],
            )
    }
}

} // verus!
