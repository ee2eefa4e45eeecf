//! Treasure kinds and the cards of the treasure deck.

use vstd::prelude::*;
use vstd::string::*;

use super::{Card, CardType, Deck};

verus! {

/// The four treasures to be captured.
#[derive(Debug, Clone, Copy, PartialEq, Eq, Hash, Structural)]
pub enum TreasureType {
    Earth,
    Wind,
    Fire,
    Ocean,
}

impl TreasureType {
    /// The four kinds in their fixed order.
    pub open spec fn spec_all() -> Seq<TreasureType> {
        seq![TreasureType::Earth, TreasureType::Wind, TreasureType::Fire, TreasureType::Ocean]
    }

    /// The treasure's display name.
    pub open spec fn spec_name(self) -> Seq<char> {
        match self {
            TreasureType::Earth => "The Earth Stone"@,
            TreasureType::Wind => "The Statue of the Wind"@,
            TreasureType::Fire => "The Crystal of Fire"@,
            TreasureType::Ocean => "The Ocean's Chalice"@,
        }
    }

    pub fn all() -> (kinds: [TreasureType; 4])
        ensures
            kinds@ == Self::spec_all(),
    {
        let kinds = [
            TreasureType::Earth,
            TreasureType::Wind,
            TreasureType::Fire,
            TreasureType::Ocean,
        ];
        assert(kinds@ =~= Self::spec_all());
        kinds
    }

    pub fn iter() -> (kinds: Vec<TreasureType>)
        ensures
            kinds@ == Self::spec_all(),
    {
        let mut kinds: Vec<TreasureType> = Vec::new();
        kinds.push(TreasureType::Earth);
        kinds.push(TreasureType::Wind);
        kinds.push(TreasureType::Fire);
        kinds.push(TreasureType::Ocean);
        assert(kinds@ =~= Self::spec_all());
        kinds
    }

    pub fn get_name(&self) -> (name: String)
        ensures
            name@ == self.spec_name(),
    {
        match self {
            TreasureType::Earth => String::from_str("The Earth Stone"),
            TreasureType::Wind => String::from_str("The Statue of the Wind"),
            TreasureType::Fire => String::from_str("The Crystal of Fire"),
            TreasureType::Ocean => String::from_str("The Ocean's Chalice"),
        }
    }
}

/// The two special cards that may be played at any time, at no cost.
#[derive(Debug, Clone, Copy, PartialEq, Eq, Hash, Structural)]
pub enum SpecialActionType {
    Sandbag,
    HelicopterLift,
}

/// What a card of the treasure deck shows.
#[derive(Debug, Clone, Copy, PartialEq, Eq, Hash, Structural)]
pub enum TreasureCardType {
    Treasure(TreasureType),
    Sandbag,
    HelicopterLift,
    WaterRise,
}

impl TreasureCardType {
    /// The treasure deck as printed: five cards of each treasure, three
    /// water rises, three helicopter lifts, two sandbags.
    pub open spec fn spec_all() -> Seq<TreasureCardType> {
        Seq::new(
            28,
            |i: int|
                if i < 5 {
                    TreasureCardType::Treasure(TreasureType::Earth)
                } else if i < 10 {
                    TreasureCardType::Treasure(TreasureType::Wind)
                } else if i < 15 {
                    TreasureCardType::Treasure(TreasureType::Fire)
                } else if i < 20 {
                    TreasureCardType::Treasure(TreasureType::Ocean)
                } else if i < 23 {
                    TreasureCardType::WaterRise
                } else if i < 26 {
                    TreasureCardType::HelicopterLift
                } else {
                    TreasureCardType::Sandbag
                },
        )
    }

    /// The special action that the card stands for, if it is one.
    pub open spec fn spec_special(self) -> Option<SpecialActionType> {
        match self {
            TreasureCardType::Sandbag => Some(SpecialActionType::Sandbag),
            TreasureCardType::HelicopterLift => Some(SpecialActionType::HelicopterLift),
            _ => None,
        }
    }

    /// The card's display name.
    pub open spec fn spec_name(self) -> Seq<char> {
        match self {
            TreasureCardType::Treasure(kind) => kind.spec_name(),
            TreasureCardType::Sandbag => "Sandbag"@,
            TreasureCardType::HelicopterLift => "Helicopter Lift"@,
            TreasureCardType::WaterRise => "Water Rise"@,
        }
    }

    pub fn all() -> (types: [TreasureCardType; 28])
        ensures
            types@ == Self::spec_all(),
    {
        let types = [
            TreasureCardType::Treasure(TreasureType::Earth),
            TreasureCardType::Treasure(TreasureType::Earth),
            TreasureCardType::Treasure(TreasureType::Earth),
            TreasureCardType::Treasure(TreasureType::Earth),
            TreasureCardType::Treasure(TreasureType::Earth),
            TreasureCardType::Treasure(TreasureType::Wind),
            TreasureCardType::Treasure(TreasureType::Wind),
            TreasureCardType::Treasure(TreasureType::Wind),
            TreasureCardType::Treasure(TreasureType::Wind),
            TreasureCardType::Treasure(TreasureType::Wind),
            TreasureCardType::Treasure(TreasureType::Fire),
            TreasureCardType::Treasure(TreasureType::Fire),
            TreasureCardType::Treasure(TreasureType::Fire),
            TreasureCardType::Treasure(TreasureType::Fire),
            TreasureCardType::Treasure(TreasureType::Fire),
            TreasureCardType::Treasure(TreasureType::Ocean),
            TreasureCardType::Treasure(TreasureType::Ocean),
            TreasureCardType::Treasure(TreasureType::Ocean),
            TreasureCardType::Treasure(TreasureType::Ocean),
            TreasureCardType::Treasure(TreasureType::Ocean),
            TreasureCardType::WaterRise,
            TreasureCardType::WaterRise,
            TreasureCardType::WaterRise,
            TreasureCardType::HelicopterLift,
            TreasureCardType::HelicopterLift,
            TreasureCardType::HelicopterLift,
            TreasureCardType::Sandbag,
            TreasureCardType::Sandbag,
        ];
        assert(types@ =~= Self::spec_all());
        types
    }

    pub fn iter() -> (types: Vec<TreasureCardType>)
        ensures
            types@ == Self::spec_all(),
    {
        let all = Self::all();
        let types = vstd::slice::slice_to_vec(vstd::array::array_as_slice(&all));
        types
    }

    /// A number that stands for what the card shows: 0 to 3 for the four
    /// treasures, then sandbag, helicopter lift and water rise.
    pub open spec fn spec_code(self) -> u8 {
        match self {
            TreasureCardType::Treasure(TreasureType::Earth) => 0,
            TreasureCardType::Treasure(TreasureType::Wind) => 1,
            TreasureCardType::Treasure(TreasureType::Fire) => 2,
            TreasureCardType::Treasure(TreasureType::Ocean) => 3,
            TreasureCardType::Sandbag => 4,
            TreasureCardType::HelicopterLift => 5,
            TreasureCardType::WaterRise => 6,
        }
    }

    pub fn code(&self) -> (code: u8)
        ensures
            code == self.spec_code(),
    {
        match self {
            TreasureCardType::Treasure(TreasureType::Earth) => 0,
            TreasureCardType::Treasure(TreasureType::Wind) => 1,
            TreasureCardType::Treasure(TreasureType::Fire) => 2,
            TreasureCardType::Treasure(TreasureType::Ocean) => 3,
            TreasureCardType::Sandbag => 4,
            TreasureCardType::HelicopterLift => 5,
            TreasureCardType::WaterRise => 6,
        }
    }

    pub fn special(&self) -> (action: Option<SpecialActionType>)
        ensures
            action == self.spec_special(),
    {
        match self {
            TreasureCardType::Sandbag => Some(SpecialActionType::Sandbag),
            TreasureCardType::HelicopterLift => Some(SpecialActionType::HelicopterLift),
            _ => None,
        }
    }

    pub fn get_name(&self) -> (name: String)
        ensures
            name@ == self.spec_name(),
    {
        match self {
            TreasureCardType::Treasure(kind) => kind.get_name(),
            TreasureCardType::Sandbag => String::from_str("Sandbag"),
            TreasureCardType::HelicopterLift => String::from_str("Helicopter Lift"),
            TreasureCardType::WaterRise => String::from_str("Water Rise"),
        }
    }
}

/// Cards that show different things have different codes.
pub proof fn lemma_code_is_injective(a: TreasureCardType, b: TreasureCardType)
    ensures
        a.spec_code() == b.spec_code() <==> a == b,
{
}

/// One card of the treasure deck.
#[derive(Debug, Clone, Copy, PartialEq, Eq, Hash, Structural)]
pub struct TreasureCard {
    pub treasure_type: TreasureCardType,
}

impl TreasureCard {
    pub fn new(treasure_type: &TreasureCardType) -> (card: TreasureCard)
        ensures
            card.treasure_type == *treasure_type,
    {
        TreasureCard { treasure_type: *treasure_type }
    }

    pub fn get_type(&self) -> (treasure_type: TreasureCardType)
        ensures
            treasure_type == self.treasure_type,
    {
        self.treasure_type
    }

    /// The full treasure deck, in printed order.
    pub open spec fn spec_deck() -> Seq<TreasureCard> {
        Seq::new(28, |i: int| TreasureCard { treasure_type: TreasureCardType::spec_all()[i] })
    }
}

impl Card for TreasureCard {
    fn card_type() -> (family: CardType)
        ensures
            family == CardType::Treasure,
    {
        CardType::Treasure
    }

    fn get_deck() -> (deck: Deck<TreasureCard>)
        ensures
            deck@ == TreasureCard::spec_deck(),
    {
        let types = TreasureCardType::all();
        let mut deck: Deck<TreasureCard> = Deck::with_capacity(28);
        let mut i: usize = 0;
        while i < 28
            invariant
                i <= 28,
                types@ == TreasureCardType::spec_all(),
                deck@ == TreasureCard::spec_deck().subrange(0, i as int),
            decreases 28 - i,
        {
            deck.insert(TreasureCard::new(&types[i]));
            assert(deck@ =~= TreasureCard::spec_deck().subrange(0, i + 1));
            i += 1;
        }
        assert(deck@ =~= TreasureCard::spec_deck());
        deck
    }

    fn as_string(&self) -> (name: String)
        ensures
            name@ == self.treasure_type.spec_name(),
    {
        self.treasure_type.get_name()
    }

    fn same(&self, other: &Self) -> (b: bool) {
        self.treasure_type == other.treasure_type
    }
}

} // verus!
