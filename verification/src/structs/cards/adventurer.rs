//! Adventurer roles, their cards, and the adventurers in play.

use vstd::prelude::*;
use vstd::string::*;

use crate::structs::board::{valid_coord, Board};

use super::island::IslandCardName;
use super::treasure::TreasureCard;
use super::{Card, CardType, Deck};

verus! {

/// The six roles.  A role decides where an adventurer starts and which
/// special ability it has.
#[derive(Debug, Clone, Copy, PartialEq, Eq, Hash, Structural)]
pub enum AdventurerCardType {
    Explorer,
    Pilot,
    Engineer,
    Diver,
    Messenger,
    Navigator,
}

impl AdventurerCardType {
    /// The six roles in their fixed order.
    pub open spec fn spec_all() -> Seq<AdventurerCardType> {
        seq![
            AdventurerCardType::Explorer,
            AdventurerCardType::Pilot,
            AdventurerCardType::Engineer,
            AdventurerCardType::Diver,
            AdventurerCardType::Messenger,
            AdventurerCardType::Navigator,
        ]
    }

    /// The tile on which the role starts the game.
    pub open spec fn spec_start_card(self) -> IslandCardName {
        match self {
            AdventurerCardType::Explorer => IslandCardName::CopperGate,
            AdventurerCardType::Pilot => IslandCardName::FoolsLanding,
            AdventurerCardType::Engineer => IslandCardName::BronzeGate,
            AdventurerCardType::Diver => IslandCardName::IronGate,
            AdventurerCardType::Messenger => IslandCardName::SilverGate,
            AdventurerCardType::Navigator => IslandCardName::GoldGate,
        }
    }

    /// The role's name.
    pub open spec fn spec_name(self) -> Seq<char> {
        match self {
            AdventurerCardType::Explorer => "Explorer"@,
            AdventurerCardType::Pilot => "Pilot"@,
            AdventurerCardType::Engineer => "Engineer"@,
            AdventurerCardType::Diver => "Diver"@,
            AdventurerCardType::Messenger => "Messenger"@,
            AdventurerCardType::Navigator => "Navigator"@,
        }
    }

    pub fn all() -> (roles: [AdventurerCardType; 6])
        ensures
            roles@ == Self::spec_all(),
    {
        let roles = [
            AdventurerCardType::Explorer,
            AdventurerCardType::Pilot,
            AdventurerCardType::Engineer,
            AdventurerCardType::Diver,
            AdventurerCardType::Messenger,
            AdventurerCardType::Navigator,
        ];
        assert(roles@ =~= Self::spec_all());
        roles
    }

    pub fn iter() -> (roles: Vec<AdventurerCardType>)
        ensures
            roles@ == Self::spec_all(),
    {
        let all = Self::all();
        vstd::slice::slice_to_vec(vstd::array::array_as_slice(&all))
    }

    pub fn name(&self) -> (text: String)
        ensures
            text@ == self.spec_name(),
    {
        match self {
            AdventurerCardType::Explorer => String::from_str("Explorer"),
            AdventurerCardType::Pilot => String::from_str("Pilot"),
            AdventurerCardType::Engineer => String::from_str("Engineer"),
            AdventurerCardType::Diver => String::from_str("Diver"),
            AdventurerCardType::Messenger => String::from_str("Messenger"),
            AdventurerCardType::Navigator => String::from_str("Navigator"),
        }
    }
}

/// A card of the role deck.
#[derive(Debug, Clone, Copy, PartialEq, Eq, Structural)]
pub struct AdventurerCard {
    pub adventurer_type: AdventurerCardType,
}

impl AdventurerCard {
    pub fn new(adventurer_type: &AdventurerCardType) -> (card: AdventurerCard)
        ensures
            card.adventurer_type == *adventurer_type,
    {
        AdventurerCard { adventurer_type: *adventurer_type }
    }

    pub fn get_start_card(&self) -> (name: IslandCardName)
        ensures
            name == self.adventurer_type.spec_start_card(),
    {
        match self.adventurer_type {
            AdventurerCardType::Explorer => IslandCardName::CopperGate,
            AdventurerCardType::Pilot => IslandCardName::FoolsLanding,
            AdventurerCardType::Engineer => IslandCardName::BronzeGate,
            AdventurerCardType::Diver => IslandCardName::IronGate,
            AdventurerCardType::Messenger => IslandCardName::SilverGate,
            AdventurerCardType::Navigator => IslandCardName::GoldGate,
        }
    }

    pub fn get_type(&self) -> (role: AdventurerCardType)
        ensures
            role == self.adventurer_type,
    {
        self.adventurer_type
    }

    /// The full role deck: one card per role, in the fixed order of roles.
    pub open spec fn spec_deck() -> Seq<AdventurerCard> {
        Seq::new(6, |i: int| AdventurerCard { adventurer_type: AdventurerCardType::spec_all()[i] })
    }
}

impl Card for AdventurerCard {
    fn card_type() -> (family: CardType)
        ensures
            family == CardType::Adventurer,
    {
        CardType::Adventurer
    }

    fn get_deck() -> (deck: Deck<AdventurerCard>)
        ensures
            deck@ == AdventurerCard::spec_deck(),
    {
        let roles = AdventurerCardType::all();
        let mut deck: Deck<AdventurerCard> = Deck::with_capacity(6);
        let mut i: usize = 0;
        while i < 6
            invariant
                i <= 6,
                roles@ == AdventurerCardType::spec_all(),
                deck@ == AdventurerCard::spec_deck().subrange(0, i as int),
            decreases 6 - i,
        {
            deck.insert(AdventurerCard::new(&roles[i]));
            assert(deck@ =~= AdventurerCard::spec_deck().subrange(0, i + 1));
            i += 1;
        }
        assert(deck@ =~= AdventurerCard::spec_deck());
        deck
    }

    fn as_string(&self) -> (text: String)
        ensures
            text@ == self.adventurer_type.spec_name(),
    {
        self.adventurer_type.name()
    }

    fn same(&self, other: &Self) -> (b: bool) {
        self.adventurer_type == other.adventurer_type
    }
}

/// An adventurer as a mathematical value.
pub struct AdventurerView {
    pub role: AdventurerCardType,
    pub pos: (usize, usize),
    /// The hand, in the order in which the cards were received.
    pub hand: Seq<TreasureCard>,
}

/// An adventurer in play: a role, a place on the board and a hand of
/// treasure cards.
#[derive(Debug, PartialEq, Eq, Hash)]
pub struct Adventurer {
    pub card: AdventurerCardType,
    pub pos: (usize, usize),
    pub hand: Deck<TreasureCard>,
}

impl View for Adventurer {
    type V = AdventurerView;

    open spec fn view(&self) -> AdventurerView {
        AdventurerView { role: self.card, pos: self.pos, hand: self.hand@ }
    }
}

impl Clone for Adventurer {
    fn clone(&self) -> (copy: Adventurer)
        ensures
            copy@ == self@,
    {
        let mut hand: Deck<TreasureCard> = Deck::with_capacity(10);
        let mut i: usize = 0;
        while i < self.hand.len()
            invariant
                i <= self.hand@.len(),
                hand@ == self.hand@.take(i as int),
            decreases self.hand@.len() - i,
        {
            hand.insert(self.hand.cards[i]);
            assert(hand@ =~= self.hand@.take(i + 1));
            i += 1;
        }
        assert(hand@ =~= self.hand@);
        Adventurer { card: self.card, pos: self.pos, hand }
    }
}

impl Adventurer {
    /// The adventurer of role `card`, with an empty hand, on the role's
    /// starting tile.
    pub fn new(card: AdventurerCard, board: &Board) -> (adventurer: Adventurer)
        requires
            board@.wf(),
        ensures
            adventurer@ == (AdventurerView {
                role: card.adventurer_type,
                pos: board@.location(card.adventurer_type.spec_start_card()),
                hand: Seq::<TreasureCard>::empty(),
            }),
            valid_coord(adventurer.pos),
    {
        let start_card = card.get_start_card();
        Adventurer {
            card: card.get_type(),
            pos: board.get_location(&start_card),
            hand: Deck::with_capacity(10),
        }
    }

    pub fn get_type(&self) -> (role: &AdventurerCardType)
        ensures
            *role == self@.role,
    {
        &self.card
    }

    pub fn get_card_count(&self) -> (count: usize)
        ensures
            count == self@.hand.len(),
    {
        self.hand.len()
    }

    pub fn get_hand(&self) -> (hand: &Deck<TreasureCard>)
        ensures
            hand@ == self@.hand,
    {
        &self.hand
    }

    pub fn has_cards(&self) -> (any: bool)
        ensures
            any == (self@.hand.len() > 0),
    {
        !self.hand.is_empty()
    }

    /// Takes the card at `index` out of the hand.
    pub fn remove_card(&mut self, index: usize) -> (card: TreasureCard)
        requires
            index < old(self)@.hand.len(),
        ensures
            card == old(self)@.hand[index as int],
            final(self)@ == (AdventurerView {
                hand: old(self)@.hand.remove(index as int),
                ..old(self)@
            }),
    {
        self.hand.pop_card(index).unwrap()
    }

    /// Adds `card` at the end of the hand.
    pub fn receive_card(&mut self, card: TreasureCard)
        ensures
            final(self)@ == (AdventurerView { hand: old(self)@.hand.push(card), ..old(self)@ }),
    {
        self.hand.insert(card);
    }

    pub fn get_pos(&self) -> (pos: &(usize, usize))
        ensures
            *pos == self@.pos,
    {
        &self.pos
    }

    pub fn move_to(&mut self, dest: (usize, usize))
        ensures
            final(self)@ == (AdventurerView { pos: dest, ..old(self)@ }),
    {
        self.pos = dest
    }
}

} // verus!
