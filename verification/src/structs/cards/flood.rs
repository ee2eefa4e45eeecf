//! Flood cards: one per island tile.

use vstd::prelude::*;

use super::island::IslandCardName;
use super::{Card, CardType, Deck};

verus! {

/// A card of the flood deck.  Drawing it floods, or sinks, the tile it names.
#[derive(Debug, Clone, Copy, PartialEq, Eq, Structural)]
pub struct FloodCard {
    pub island_card: IslandCardName,
}

impl FloodCard {
    pub fn new(island_card: IslandCardName) -> (card: FloodCard)
        ensures
            card.island_card == island_card,
    {
        FloodCard { island_card }
    }

    pub fn from_name(name: &IslandCardName) -> (card: FloodCard)
        ensures
            card.island_card == *name,
    {
        FloodCard { island_card: *name }
    }

    pub fn get_type(&self) -> (name: IslandCardName)
        ensures
            name == self.island_card,
    {
        self.island_card
    }

    /// The full flood deck: one card per tile, in the fixed order of tiles.
    pub open spec fn spec_deck() -> Seq<FloodCard> {
        Seq::new(24, |i: int| FloodCard { island_card: IslandCardName::spec_from_index(i) })
    }
}

impl Card for FloodCard {
    fn card_type() -> (family: CardType)
        ensures
            family == CardType::Flood,
    {
        CardType::Flood
    }

    fn get_deck() -> (deck: Deck<FloodCard>)
        ensures
            deck@ == FloodCard::spec_deck(),
    {
        let names = IslandCardName::all();
        let mut deck: Deck<FloodCard> = Deck::with_capacity(24);
        let mut i: usize = 0;
        while i < 24
            invariant
                i <= 24,
                names@ == IslandCardName::spec_all(),
                deck@ == FloodCard::spec_deck().subrange(0, i as int),
            decreases 24 - i,
        {
            deck.insert(FloodCard::from_name(&names[i]));
            assert(deck@ =~= FloodCard::spec_deck().subrange(0, i + 1));
            i += 1;
        }
        assert(deck@ =~= FloodCard::spec_deck());
        deck
    }

    fn as_string(&self) -> (text: String)
        ensures
            text@ == self.island_card.spec_name(),
    {
        self.island_card.name()
    }

    fn same(&self, other: &Self) -> (b: bool) {
        self.island_card == other.island_card
    }
}

} // verus!
