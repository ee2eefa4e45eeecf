//! The three starting decks of a game, unshuffled.

use vstd::prelude::*;

use crate::structs::cards::flood::FloodCard;
use crate::structs::cards::island::IslandCard;
use crate::structs::cards::treasure::TreasureCard;
use crate::structs::cards::{Card, Deck};

verus! {

/// The twenty-four island tiles, dry, in their fixed order.
pub fn get_island_deck() -> (deck: Deck<IslandCard>)
    ensures
        deck@ == IslandCard::spec_deck(),
{
    IslandCard::get_deck()
}

/// One flood card per island tile, in the fixed order of tiles.
pub fn get_flood_deck() -> (deck: Deck<FloodCard>)
    ensures
        deck@ == FloodCard::spec_deck(),
{
    FloodCard::get_deck()
}

/// The twenty-eight treasure cards in printed order.
pub fn get_treasure_deck() -> (deck: Deck<TreasureCard>)
    ensures
        deck@ == TreasureCard::spec_deck(),
{
    TreasureCard::get_deck()
}

} // verus!
