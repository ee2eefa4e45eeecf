//! The game: decks, board, adventurers, water level and captured treasures,
//! with the rules that move it from one state to the next.

use rand_chacha::ChaCha20Rng;
use vstd::prelude::*;

use super::board::{Board, BoardView};
use super::cards::adventurer::{Adventurer, AdventurerView};
use super::cards::flood::FloodCard;
use super::cards::treasure::{TreasureCard, TreasureType};
use super::cards::Deck;

pub mod actions;
pub mod chooser;
pub mod draw;
pub mod flood;
pub mod laws;
pub mod lift;
pub mod listing;
pub mod model;
pub mod movement;
pub mod moves;
pub mod play;
pub mod setup;
pub mod special;
pub mod turn;

verus! {

/// The generator that a game shuffles with.  Nothing is known of its state.
#[verifier::external_type_specification]
#[verifier::external_body]
pub struct ExChaCha20Rng(ChaCha20Rng);

/// The treasures captured so far.
#[derive(Debug, Clone, Copy, PartialEq, Eq, Structural)]
pub struct TreasureSet {
    pub earth: bool,
    pub wind: bool,
    pub fire: bool,
    pub ocean: bool,
}

impl View for TreasureSet {
    type V = Set<TreasureType>;

    open spec fn view(&self) -> Set<TreasureType> {
        Set::new(
            |kind: TreasureType|
                match kind {
                    TreasureType::Earth => self.earth,
                    TreasureType::Wind => self.wind,
                    TreasureType::Fire => self.fire,
                    TreasureType::Ocean => self.ocean,
                },
        )
    }
}

impl TreasureSet {
    pub fn new() -> (set: TreasureSet)
        ensures
            set@ == Set::<TreasureType>::empty(),
    {
        let set = TreasureSet { earth: false, wind: false, fire: false, ocean: false };
        assert(set@ =~= Set::<TreasureType>::empty());
        set
    }

    pub fn contains(&self, kind: &TreasureType) -> (found: bool)
        ensures
            found == self@.contains(*kind),
    {
        match kind {
            TreasureType::Earth => self.earth,
            TreasureType::Wind => self.wind,
            TreasureType::Fire => self.fire,
            TreasureType::Ocean => self.ocean,
        }
    }

    pub fn insert(&mut self, kind: TreasureType)
        ensures
            final(self)@ == old(self)@.insert(kind),
    {
        match kind {
            TreasureType::Earth => {
                self.earth = true;
            },
            TreasureType::Wind => {
                self.wind = true;
            },
            TreasureType::Fire => {
                self.fire = true;
            },
            TreasureType::Ocean => {
                self.ocean = true;
            },
        }
        assert(self@ =~= old(self)@.insert(kind));
    }

    /// Whether all four treasures are in the set.
    pub fn is_complete(&self) -> (complete: bool)
        ensures
            complete == (forall|kind: TreasureType| self@.contains(kind)),
            complete == (self@.contains(TreasureType::Earth) && self@.contains(TreasureType::Wind)
                && self@.contains(TreasureType::Fire) && self@.contains(TreasureType::Ocean)),
    {
        let complete = self.earth && self.wind && self.fire && self.ocean;
        proof {
            if !complete {
                assert(!self@.contains(TreasureType::Earth) || !self@.contains(TreasureType::Wind)
                    || !self@.contains(TreasureType::Fire) || !self@.contains(
                    TreasureType::Ocean,
                ));
            }
        }
        complete
    }

    /// The number of treasures in the set.
    pub fn len(&self) -> (count: usize)
        ensures
            count == captured_count(self@),
    {
        let mut count: usize = 0;
        if self.earth {
            count += 1;
        }
        if self.wind {
            count += 1;
        }
        if self.fire {
            count += 1;
        }
        if self.ocean {
            count += 1;
        }
        count
    }
}

/// The number of treasures in `captured`.
pub open spec fn captured_count(captured: Set<TreasureType>) -> nat {
    (if captured.contains(TreasureType::Earth) {
        1nat
    } else {
        0nat
    }) + (if captured.contains(TreasureType::Wind) {
        1nat
    } else {
        0nat
    }) + (if captured.contains(TreasureType::Fire) {
        1nat
    } else {
        0nat
    }) + (if captured.contains(TreasureType::Ocean) {
        1nat
    } else {
        0nat
    })
}

/// A game in progress.
#[derive(Debug)]
pub struct Game {
    pub rng: ChaCha20Rng,
    pub treasure_deck: Deck<TreasureCard>,
    pub treasure_discard_deck: Deck<TreasureCard>,
    pub flood_deck: Deck<FloodCard>,
    pub flood_discard_deck: Deck<FloodCard>,
    /// The adventurers in the order in which they take their turns.
    pub adventurers: Vec<Adventurer>,
    pub board: Board,
    pub water_level: usize,
    pub captured_treasures: TreasureSet,
    /// Whether the pilot has flown during the current turn.
    pub used_pilot_move: bool,
}

/// A game as a mathematical value: everything but the generator.
pub struct GameView {
    pub treasure_deck: Seq<TreasureCard>,
    pub treasure_discard: Seq<TreasureCard>,
    pub flood_deck: Seq<FloodCard>,
    pub flood_discard: Seq<FloodCard>,
    pub adventurers: Seq<AdventurerView>,
    pub board: BoardView,
    pub water_level: usize,
    pub captured: Set<TreasureType>,
    pub used_pilot_move: bool,
}

impl View for Game {
    type V = GameView;

    open spec fn view(&self) -> GameView {
        GameView {
            treasure_deck: self.treasure_deck@,
            treasure_discard: self.treasure_discard_deck@,
            flood_deck: self.flood_deck@,
            flood_discard: self.flood_discard_deck@,
            adventurers: self.adventurers@.map_values(|a: Adventurer| a@),
            board: self.board@,
            water_level: self.water_level,
            captured: self.captured_treasures@,
            used_pilot_move: self.used_pilot_move,
        }
    }
}

} // verus!
