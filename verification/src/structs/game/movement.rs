//! Where adventurers can go and what they can shore up.

use vstd::prelude::*;

use super::model::{lands, spec_around, spec_distance, spec_steps, stepped};
use super::{Game, GameView};
use crate::structs::board::{slot_of, valid_coord, ISLAND_COORDS};
use crate::structs::cards::adventurer::{Adventurer, AdventurerCardType};
use crate::structs::cards::island::IslandCardState;

verus! {

/// The number of steps between two places, counted along rows and columns.
pub fn distance(a: &(usize, usize), b: &(usize, usize)) -> (steps: usize)
    requires
        a.0 <= 5 && a.1 <= 5 && b.0 <= 5 && b.1 <= 5,
    ensures
        steps == spec_distance(*a, *b),
{
    let across: usize = if a.0 <= b.0 {
        b.0 - a.0
    } else {
        a.0 - b.0
    };
    let along: usize = if a.1 <= b.1 {
        b.1 - a.1
    } else {
        a.1 - b.1
    };
    across + along
}

/// The steps to the places around a place and to the place itself.
pub fn steps(diagonal: bool) -> (list: Vec<(isize, isize)>)
    ensures
        list@ == spec_steps(diagonal),
{
    let mut list: Vec<(isize, isize)> = Vec::new();
    if diagonal {
        list.push((1, 1));
        list.push((0, 1));
        list.push((-1, 1));
        list.push((1, 0));
        list.push((0, 0));
        list.push((-1, 0));
        list.push((1, -1));
        list.push((0, -1));
        list.push((-1, -1));
    } else {
        list.push((0, 1));
        list.push((-1, 0));
        list.push((0, 0));
        list.push((1, 0));
        list.push((0, -1));
    }
    assert(list@ =~= spec_steps(diagonal));
    list
}

/// The places with a tile around `pos`, and `pos` itself, in a fixed order.
pub fn around(pos: &(usize, usize), diagonal: bool) -> (places: Vec<(usize, usize)>)
    requires
        pos.0 <= 5,
        pos.1 <= 5,
    ensures
        places@ == spec_around(*pos, diagonal),
{
    let list = steps(diagonal);
    let ghost on_island = |step: (isize, isize)| lands(*pos, step);
    let ghost target = |step: (isize, isize)| stepped(*pos, step);
    let mut places: Vec<(usize, usize)> = Vec::new();
    let mut i: usize = 0;
    while i < list.len()
        invariant
            i <= list@.len(),
            pos.0 <= 5,
            pos.1 <= 5,
            on_island == |step: (isize, isize)| lands(*pos, step),
            target == |step: (isize, isize)| stepped(*pos, step),
            forall|k: int| 0 <= k < list@.len() ==> -1 <= (#[trigger] list@[k]).0 <= 1 && -1 <= list@[k].1 <= 1,
            places@ == list@.take(i as int).filter(on_island).map_values(target),
        decreases list@.len() - i,
    {
        broadcast use Seq::lemma_take_succ_push, Seq::lemma_filter_push, Seq::lemma_push_map_commute;

        let (dx, dy) = list[i];
        let cx: isize = pos.0 as isize + dx;
        let cy: isize = pos.1 as isize + dy;
        if cx >= 0 && cy >= 0 && cx <= 5 && cy <= 5 {
            let place = (cx as usize, cy as usize);
            if slot_of(&place).is_some() {
                places.push(place);
            }
        }
        i += 1;
    }
    assert(list@.take(i as int) =~= list@);
    places
}

impl Game {
    /// The places that an adventurer's way of moving leads to from `pos`,
    /// whatever lies there.
    pub fn candidates(role: &AdventurerCardType, can_fly: bool, pos: &(usize, usize)) -> (places: Vec<
        (usize, usize),
    >)
        requires
            pos.0 <= 5,
            pos.1 <= 5,
        ensures
            places@ == GameView::candidates(*role, can_fly, *pos),
    {
        if *role == AdventurerCardType::Pilot && can_fly {
            vstd::slice::slice_to_vec(vstd::array::array_as_slice(&ISLAND_COORDS))
        } else {
            around(pos, *role == AdventurerCardType::Explorer)
        }
    }

    /// Whether an adventurer at `from` may end a move at `to`.
    pub fn may_enter(&self, from: &(usize, usize), to: &(usize, usize), dives: bool) -> (allowed:
        bool)
        requires
            self@.board.wf(),
        ensures
            allowed == self@.may_enter(*from, *to, dives),
    {
        if to.0 == from.0 && to.1 == from.1 {
            return false;
        }
        match self.board.get_card(to) {
            Some(tile) => dives || tile.state != IslandCardState::Sunk,
            None => false,
        }
    }

    /// The places that `adventurer` can move to in one action.
    pub fn get_moves(&self, adventurer: &Adventurer) -> (places: Vec<(usize, usize)>)
        requires
            self@.board.wf(),
            valid_coord(adventurer@.pos),
        ensures
            places@ == self@.moves(adventurer@),
    {
        let dives = adventurer.card == AdventurerCardType::Diver;
        let from = adventurer.pos;
        let list = Self::candidates(&adventurer.card, !self.used_pilot_move, &from);
        let ghost allowed = |to: (usize, usize)| self@.may_enter(from, to, dives);
        let mut places: Vec<(usize, usize)> = Vec::new();
        let mut i: usize = 0;
        while i < list.len()
            invariant
                i <= list@.len(),
                self@.board.wf(),
                allowed == |to: (usize, usize)| self@.may_enter(from, to, dives),
                places@ == list@.take(i as int).filter(allowed),
            decreases list@.len() - i,
        {
            broadcast use Seq::lemma_take_succ_push, Seq::lemma_filter_push;

            if self.may_enter(&from, &list[i], dives) {
                places.push(list[i]);
            }
            i += 1;
        }
        assert(list@.take(i as int) =~= list@);
        places
    }

    /// Whether `adventurer` can move at all.
    pub fn can_move(&self, adventurer: &Adventurer) -> (able: bool)
        requires
            self@.board.wf(),
            valid_coord(adventurer@.pos),
        ensures
            able == (self@.moves(adventurer@).len() > 0),
    {
        !self.get_moves(adventurer).is_empty()
    }

    /// The flooded places that an adventurer of role `adventurer_type` at
    /// `pos` can shore up: its own and those around it.
    pub fn get_shorable_by_adventurer(
        &self,
        adventurer_type: &AdventurerCardType,
        pos: &(usize, usize),
    ) -> (places: Vec<(usize, usize)>)
        requires
            self@.board.wf(),
            valid_coord(*pos),
        ensures
            places@ == self@.shorable_by(*adventurer_type, *pos),
    {
        let list = around(pos, *adventurer_type == AdventurerCardType::Explorer);
        let ghost flooded = |to: (usize, usize)| self@.board.is_at(to, IslandCardState::Flooded);
        let mut places: Vec<(usize, usize)> = Vec::new();
        let mut i: usize = 0;
        while i < list.len()
            invariant
                i <= list@.len(),
                self@.board.wf(),
                flooded == |to: (usize, usize)| self@.board.is_at(to, IslandCardState::Flooded),
                places@ == list@.take(i as int).filter(flooded),
            decreases list@.len() - i,
        {
            broadcast use Seq::lemma_take_succ_push, Seq::lemma_filter_push;

            let wet = match self.board.get_card(&list[i]) {
                Some(tile) => tile.state == IslandCardState::Flooded,
                None => false,
            };
            if wet {
                places.push(list[i]);
            }
            i += 1;
        }
        assert(list@.take(i as int) =~= list@);
        places
    }

    /// Whether an adventurer of role `adventurer_type` at `pos` can shore up
    /// a tile.
    pub fn can_shore_up(&self, adventurer_type: &AdventurerCardType, pos: &(usize, usize)) -> (able:
        bool)
        requires
            self@.board.wf(),
            valid_coord(*pos),
        ensures
            able == (self@.shorable_by(*adventurer_type, *pos).len() > 0),
    {
        !self.get_shorable_by_adventurer(adventurer_type, pos).is_empty()
    }
}

} // verus!
