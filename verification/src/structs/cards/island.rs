//! Island tiles: their names, their flood state and the tile cards.

use vstd::prelude::*;
use vstd::string::*;

use super::treasure::TreasureType;
use super::{Card, CardType, Deck};

verus! {

/// How far a tile has gone under water.  The three states are ordered:
/// a tile sinks one step at a time and is shored up one step at a time.
#[derive(Debug, Clone, Copy, PartialEq, Eq, Structural)]
pub enum IslandCardState {
    Normal,
    Flooded,
    Sunk,
}

impl IslandCardState {
    /// The state's rank: 0 for dry land, 2 for the sea floor.
    pub open spec fn level(self) -> nat {
        match self {
            IslandCardState::Normal => 0,
            IslandCardState::Flooded => 1,
            IslandCardState::Sunk => 2,
        }
    }

    /// The state that follows when the water rises: flooded after dry,
    /// sunk after that.
    pub open spec fn spec_next(self) -> IslandCardState {
        match self {
            IslandCardState::Normal => IslandCardState::Flooded,
            _ => IslandCardState::Sunk,
        }
    }

    /// The state that follows when the tile is shored up.
    pub open spec fn spec_prev(self) -> IslandCardState {
        match self {
            IslandCardState::Sunk => IslandCardState::Flooded,
            _ => IslandCardState::Normal,
        }
    }

    /// The state one step deeper; a sunk tile has none.
    pub fn next(&self) -> (state: IslandCardState)
        requires
            *self != IslandCardState::Sunk,
        ensures
            state == self.spec_next(),
            state.level() == self.level() + 1,
    {
        match self {
            IslandCardState::Normal => IslandCardState::Flooded,
            _ => IslandCardState::Sunk,
        }
    }

    /// The state one step drier; a dry tile has none.
    pub fn prev(&self) -> (state: IslandCardState)
        requires
            *self != IslandCardState::Normal,
        ensures
            state == self.spec_prev(),
            state.level() + 1 == self.level(),
    {
        match self {
            IslandCardState::Sunk => IslandCardState::Flooded,
            _ => IslandCardState::Normal,
        }
    }

    /// Moves the state one step deeper.
    pub fn step(&mut self)
        requires
            *old(self) != IslandCardState::Sunk,
        ensures
            *final(self) == old(self).spec_next(),
            final(self).level() == old(self).level() + 1,
    {
        *self = self.next();
    }

    /// Moves the state one step drier.
    pub fn step_back(&mut self)
        requires
            *old(self) != IslandCardState::Normal,
        ensures
            *final(self) == old(self).spec_prev(),
            final(self).level() + 1 == old(self).level(),
    {
        *self = self.prev();
    }
}

/// A tile changes its state one step at a time: when the water rises the
/// rank goes up by one, when the tile is shored up it goes down by one, and
/// each of the two steps undoes the other.  The rank never leaves the range
/// from dry to sunk.
pub proof fn lemma_one_step_at_a_time(state: IslandCardState)
    ensures
        state.level() <= 2,
        state != IslandCardState::Sunk ==> state.spec_next().level() == state.level() + 1
            && state.spec_next().spec_prev() == state,
        state != IslandCardState::Normal ==> state.spec_prev().level() + 1 == state.level()
            && state.spec_prev().spec_next() == state,
{
}

/// The twenty-four tiles of the island.
#[derive(Debug, Clone, Copy, Hash, PartialEq, Eq, Structural)]
pub enum IslandCardName {
    CliffsOfAbandon,
    Watchtower,
    PhantomRock,
    LostLagoon,
    MistyMarsh,
    TwilightHollow,
    CrimsonForest,
    Observatory,
    BreakersBridge,
    DunesOfDeception,
    FoolsLanding,
    BronzeGate,
    GoldGate,
    SilverGate,
    CopperGate,
    IronGate,
    TempleOfTheSun,
    TempleOfTheMoon,
    WhisperingGarden,
    HowlingGarden,
    CaveOfEmbers,
    CaveOfShadows,
    TidalPalace,
    CoralPalace,
}

impl IslandCardName {
    /// The tile's place in the fixed list of all tiles, from 0 to 23.
    pub open spec fn spec_index(self) -> nat {
        match self {
            IslandCardName::CliffsOfAbandon => 0,
            IslandCardName::Watchtower => 1,
            IslandCardName::PhantomRock => 2,
            IslandCardName::LostLagoon => 3,
            IslandCardName::MistyMarsh => 4,
            IslandCardName::TwilightHollow => 5,
            IslandCardName::CrimsonForest => 6,
            IslandCardName::Observatory => 7,
            IslandCardName::BreakersBridge => 8,
            IslandCardName::DunesOfDeception => 9,
            IslandCardName::FoolsLanding => 10,
            IslandCardName::BronzeGate => 11,
            IslandCardName::GoldGate => 12,
            IslandCardName::SilverGate => 13,
            IslandCardName::CopperGate => 14,
            IslandCardName::IronGate => 15,
            IslandCardName::TempleOfTheSun => 16,
            IslandCardName::TempleOfTheMoon => 17,
            IslandCardName::WhisperingGarden => 18,
            IslandCardName::HowlingGarden => 19,
            IslandCardName::CaveOfEmbers => 20,
            IslandCardName::CaveOfShadows => 21,
            IslandCardName::TidalPalace => 22,
            IslandCardName::CoralPalace => 23,
        }
    }

    /// The tile at place `index` of the fixed list of all tiles.
    pub open spec fn spec_from_index(index: int) -> IslandCardName {
        if index <= 0 {
            IslandCardName::CliffsOfAbandon
        } else if index == 1 {
            IslandCardName::Watchtower
        } else if index == 2 {
            IslandCardName::PhantomRock
        } else if index == 3 {
            IslandCardName::LostLagoon
        } else if index == 4 {
            IslandCardName::MistyMarsh
        } else if index == 5 {
            IslandCardName::TwilightHollow
        } else if index == 6 {
            IslandCardName::CrimsonForest
        } else if index == 7 {
            IslandCardName::Observatory
        } else if index == 8 {
            IslandCardName::BreakersBridge
        } else if index == 9 {
            IslandCardName::DunesOfDeception
        } else if index == 10 {
            IslandCardName::FoolsLanding
        } else if index == 11 {
            IslandCardName::BronzeGate
        } else if index == 12 {
            IslandCardName::GoldGate
        } else if index == 13 {
            IslandCardName::SilverGate
        } else if index == 14 {
            IslandCardName::CopperGate
        } else if index == 15 {
            IslandCardName::IronGate
        } else if index == 16 {
            IslandCardName::TempleOfTheSun
        } else if index == 17 {
            IslandCardName::TempleOfTheMoon
        } else if index == 18 {
            IslandCardName::WhisperingGarden
        } else if index == 19 {
            IslandCardName::HowlingGarden
        } else if index == 20 {
            IslandCardName::CaveOfEmbers
        } else if index == 21 {
            IslandCardName::CaveOfShadows
        } else if index == 22 {
            IslandCardName::TidalPalace
        } else {
            IslandCardName::CoralPalace
        }
    }

    /// All tiles in their fixed order.
    pub open spec fn spec_all() -> Seq<IslandCardName> {
        Seq::new(24, |i: int| Self::spec_from_index(i))
    }

    /// The three characters that stand for the tile on a drawn board.
    pub open spec fn spec_shorthand(self) -> Seq<char> {
        match self {
            IslandCardName::CliffsOfAbandon => "C A"@,
            IslandCardName::Watchtower => " W "@,
            IslandCardName::PhantomRock => "P R"@,
            IslandCardName::LostLagoon => "L L"@,
            IslandCardName::MistyMarsh => "M M"@,
            IslandCardName::TwilightHollow => "T H"@,
            IslandCardName::CrimsonForest => "C F"@,
            IslandCardName::Observatory => " O "@,
            IslandCardName::BreakersBridge => "B B"@,
            IslandCardName::DunesOfDeception => "D D"@,
            IslandCardName::FoolsLanding => "F L"@,
            IslandCardName::BronzeGate => "B G"@,
            IslandCardName::GoldGate => "G G"@,
            IslandCardName::SilverGate => "S G"@,
            IslandCardName::CopperGate => "C G"@,
            IslandCardName::IronGate => "I G"@,
            IslandCardName::TempleOfTheSun => "T S"@,
            IslandCardName::TempleOfTheMoon => "T M"@,
            IslandCardName::WhisperingGarden => "W G"@,
            IslandCardName::HowlingGarden => "H G"@,
            IslandCardName::CaveOfEmbers => "C E"@,
            IslandCardName::CaveOfShadows => "C S"@,
            IslandCardName::TidalPalace => "T P"@,
            IslandCardName::CoralPalace => "C P"@,
        }
    }

    /// The tile's full name.
    pub open spec fn spec_name(self) -> Seq<char> {
        match self {
            IslandCardName::CliffsOfAbandon => "Cliffs Of Abandon"@,
            IslandCardName::Watchtower => "Watchtower"@,
            IslandCardName::PhantomRock => "Phantom Rock"@,
            IslandCardName::LostLagoon => "Lost Lagoon"@,
            IslandCardName::MistyMarsh => "Misty Marsh"@,
            IslandCardName::TwilightHollow => "Twilight Hollow"@,
            IslandCardName::CrimsonForest => "Crimson Forest"@,
            IslandCardName::Observatory => "Observatory"@,
            IslandCardName::BreakersBridge => "Breakers Bridge"@,
            IslandCardName::DunesOfDeception => "Dunes Of Deception"@,
            IslandCardName::FoolsLanding => "Fools Landing"@,
            IslandCardName::BronzeGate => "Bronze Gate"@,
            IslandCardName::GoldGate => "Gold Gate"@,
            IslandCardName::SilverGate => "Silver Gate"@,
            IslandCardName::CopperGate => "Copper Gate"@,
            IslandCardName::IronGate => "Iron Gate"@,
            IslandCardName::TempleOfTheSun => "Temple Of The Sun"@,
            IslandCardName::TempleOfTheMoon => "Temple Of The Moon"@,
            IslandCardName::WhisperingGarden => "Whispering Garden"@,
            IslandCardName::HowlingGarden => "Howling Garden"@,
            IslandCardName::CaveOfEmbers => "Cave Of Embers"@,
            IslandCardName::CaveOfShadows => "Cave Of Shadows"@,
            IslandCardName::TidalPalace => "Tidal Palace"@,
            IslandCardName::CoralPalace => "Coral Palace"@,
        }
    }

    /// The treasure that can be captured on the tile, if any: each treasure
    /// has two such tiles.
    pub open spec fn spec_affinity(self) -> Option<TreasureType> {
        match self {
            IslandCardName::TempleOfTheSun => Some(TreasureType::Earth),
            IslandCardName::TempleOfTheMoon => Some(TreasureType::Earth),
            IslandCardName::WhisperingGarden => Some(TreasureType::Wind),
            IslandCardName::HowlingGarden => Some(TreasureType::Wind),
            IslandCardName::CaveOfEmbers => Some(TreasureType::Fire),
            IslandCardName::CaveOfShadows => Some(TreasureType::Fire),
            IslandCardName::TidalPalace => Some(TreasureType::Ocean),
            IslandCardName::CoralPalace => Some(TreasureType::Ocean),
            _ => None,
        }
    }

    pub fn all() -> (names: [IslandCardName; 24])
        ensures
            names@ == Self::spec_all(),
    {
        let names = [
            IslandCardName::CliffsOfAbandon,
            IslandCardName::Watchtower,
            IslandCardName::PhantomRock,
            IslandCardName::LostLagoon,
            IslandCardName::MistyMarsh,
            IslandCardName::TwilightHollow,
            IslandCardName::CrimsonForest,
            IslandCardName::Observatory,
            IslandCardName::BreakersBridge,
            IslandCardName::DunesOfDeception,
            IslandCardName::FoolsLanding,
            IslandCardName::BronzeGate,
            IslandCardName::GoldGate,
            IslandCardName::SilverGate,
            IslandCardName::CopperGate,
            IslandCardName::IronGate,
            IslandCardName::TempleOfTheSun,
            IslandCardName::TempleOfTheMoon,
            IslandCardName::WhisperingGarden,
            IslandCardName::HowlingGarden,
            IslandCardName::CaveOfEmbers,
            IslandCardName::CaveOfShadows,
            IslandCardName::TidalPalace,
            IslandCardName::CoralPalace,
        ];
        assert(names@ =~= Self::spec_all());
        names
    }

    pub fn iter() -> (names: Vec<IslandCardName>)
        ensures
            names@ == Self::spec_all(),
    {
        let all = Self::all();
        vstd::slice::slice_to_vec(vstd::array::array_as_slice(&all))
    }

    pub fn index(&self) -> (index: usize)
        ensures
            index == self.spec_index(),
            index < 24,
    {
        match self {
            IslandCardName::CliffsOfAbandon => 0,
            IslandCardName::Watchtower => 1,
            IslandCardName::PhantomRock => 2,
            IslandCardName::LostLagoon => 3,
            IslandCardName::MistyMarsh => 4,
            IslandCardName::TwilightHollow => 5,
            IslandCardName::CrimsonForest => 6,
            IslandCardName::Observatory => 7,
            IslandCardName::BreakersBridge => 8,
            IslandCardName::DunesOfDeception => 9,
            IslandCardName::FoolsLanding => 10,
            IslandCardName::BronzeGate => 11,
            IslandCardName::GoldGate => 12,
            IslandCardName::SilverGate => 13,
            IslandCardName::CopperGate => 14,
            IslandCardName::IronGate => 15,
            IslandCardName::TempleOfTheSun => 16,
            IslandCardName::TempleOfTheMoon => 17,
            IslandCardName::WhisperingGarden => 18,
            IslandCardName::HowlingGarden => 19,
            IslandCardName::CaveOfEmbers => 20,
            IslandCardName::CaveOfShadows => 21,
            IslandCardName::TidalPalace => 22,
            IslandCardName::CoralPalace => 23,
        }
    }

    pub fn from_index(index: usize) -> (name: IslandCardName)
        requires
            index < 24,
        ensures
            name == Self::spec_from_index(index as int),
            name.spec_index() == index,
    {
        match index {
            0 => IslandCardName::CliffsOfAbandon,
            1 => IslandCardName::Watchtower,
            2 => IslandCardName::PhantomRock,
            3 => IslandCardName::LostLagoon,
            4 => IslandCardName::MistyMarsh,
            5 => IslandCardName::TwilightHollow,
            6 => IslandCardName::CrimsonForest,
            7 => IslandCardName::Observatory,
            8 => IslandCardName::BreakersBridge,
            9 => IslandCardName::DunesOfDeception,
            10 => IslandCardName::FoolsLanding,
            11 => IslandCardName::BronzeGate,
            12 => IslandCardName::GoldGate,
            13 => IslandCardName::SilverGate,
            14 => IslandCardName::CopperGate,
            15 => IslandCardName::IronGate,
            16 => IslandCardName::TempleOfTheSun,
            17 => IslandCardName::TempleOfTheMoon,
            18 => IslandCardName::WhisperingGarden,
            19 => IslandCardName::HowlingGarden,
            20 => IslandCardName::CaveOfEmbers,
            21 => IslandCardName::CaveOfShadows,
            22 => IslandCardName::TidalPalace,
            _ => IslandCardName::CoralPalace,
        }
    }

    pub fn shorthand(&self) -> (text: &'static str)
        ensures
            text@ == self.spec_shorthand(),
    {
        match self {
            IslandCardName::CliffsOfAbandon => "C A",
            IslandCardName::Watchtower => " W ",
            IslandCardName::PhantomRock => "P R",
            IslandCardName::LostLagoon => "L L",
            IslandCardName::MistyMarsh => "M M",
            IslandCardName::TwilightHollow => "T H",
            IslandCardName::CrimsonForest => "C F",
            IslandCardName::Observatory => " O ",
            IslandCardName::BreakersBridge => "B B",
            IslandCardName::DunesOfDeception => "D D",
            IslandCardName::FoolsLanding => "F L",
            IslandCardName::BronzeGate => "B G",
            IslandCardName::GoldGate => "G G",
            IslandCardName::SilverGate => "S G",
            IslandCardName::CopperGate => "C G",
            IslandCardName::IronGate => "I G",
            IslandCardName::TempleOfTheSun => "T S",
            IslandCardName::TempleOfTheMoon => "T M",
            IslandCardName::WhisperingGarden => "W G",
            IslandCardName::HowlingGarden => "H G",
            IslandCardName::CaveOfEmbers => "C E",
            IslandCardName::CaveOfShadows => "C S",
            IslandCardName::TidalPalace => "T P",
            IslandCardName::CoralPalace => "C P",
        }
    }

    pub fn name(&self) -> (text: String)
        ensures
            text@ == self.spec_name(),
    {
        String::from_str(
            match self {
                IslandCardName::CliffsOfAbandon => "Cliffs Of Abandon",
                IslandCardName::Watchtower => "Watchtower",
                IslandCardName::PhantomRock => "Phantom Rock",
                IslandCardName::LostLagoon => "Lost Lagoon",
                IslandCardName::MistyMarsh => "Misty Marsh",
                IslandCardName::TwilightHollow => "Twilight Hollow",
                IslandCardName::CrimsonForest => "Crimson Forest",
                IslandCardName::Observatory => "Observatory",
                IslandCardName::BreakersBridge => "Breakers Bridge",
                IslandCardName::DunesOfDeception => "Dunes Of Deception",
                IslandCardName::FoolsLanding => "Fools Landing",
                IslandCardName::BronzeGate => "Bronze Gate",
                IslandCardName::GoldGate => "Gold Gate",
                IslandCardName::SilverGate => "Silver Gate",
                IslandCardName::CopperGate => "Copper Gate",
                IslandCardName::IronGate => "Iron Gate",
                IslandCardName::TempleOfTheSun => "Temple Of The Sun",
                IslandCardName::TempleOfTheMoon => "Temple Of The Moon",
                IslandCardName::WhisperingGarden => "Whispering Garden",
                IslandCardName::HowlingGarden => "Howling Garden",
                IslandCardName::CaveOfEmbers => "Cave Of Embers",
                IslandCardName::CaveOfShadows => "Cave Of Shadows",
                IslandCardName::TidalPalace => "Tidal Palace",
                IslandCardName::CoralPalace => "Coral Palace",
            },
        )
    }

    pub fn affinity(&self) -> (kind: Option<TreasureType>)
        ensures
            kind == self.spec_affinity(),
    {
        match self {
            IslandCardName::TempleOfTheSun => Some(TreasureType::Earth),
            IslandCardName::TempleOfTheMoon => Some(TreasureType::Earth),
            IslandCardName::WhisperingGarden => Some(TreasureType::Wind),
            IslandCardName::HowlingGarden => Some(TreasureType::Wind),
            IslandCardName::CaveOfEmbers => Some(TreasureType::Fire),
            IslandCardName::CaveOfShadows => Some(TreasureType::Fire),
            IslandCardName::TidalPalace => Some(TreasureType::Ocean),
            IslandCardName::CoralPalace => Some(TreasureType::Ocean),
            _ => None,
        }
    }
}

/// One island tile as it lies on the board: which tile it is, how far it
/// has flooded, and which treasure can be captured on it.
#[derive(Debug, Clone, Copy, PartialEq, Eq, Structural)]
pub struct IslandCard {
    pub state: IslandCardState,
    pub can_retrieve: Option<TreasureType>,
    pub name: IslandCardName,
}

impl IslandCard {
    /// A tile card is well formed when it offers the treasure of its tile.
    pub open spec fn wf(self) -> bool {
        self.can_retrieve == self.name.spec_affinity()
    }

    /// The dry card of tile `name`.
    pub open spec fn spec_from_name(name: IslandCardName) -> IslandCard {
        IslandCard {
            state: IslandCardState::Normal,
            can_retrieve: name.spec_affinity(),
            name,
        }
    }

    /// The card after the water has risen over it once.
    pub open spec fn spec_sink(self) -> IslandCard {
        IslandCard { state: self.state.spec_next(), ..self }
    }

    /// The card after it has been shored up once.
    pub open spec fn spec_raise(self) -> IslandCard {
        IslandCard { state: self.state.spec_prev(), ..self }
    }

    /// The frame drawn around a tile in the given state: the horizontal
    /// rule and the vertical bar.
    pub open spec fn spec_frame(state: IslandCardState) -> (Seq<char>, Seq<char>) {
        match state {
            IslandCardState::Normal => ("==="@, "\u{2551}"@),
            IslandCardState::Flooded => ("---"@, "|"@),
            IslandCardState::Sunk => ("   "@, " "@),
        }
    }

    /// The three text lines that draw the tile, separated by line feeds.
    pub open spec fn spec_tile_str(self) -> Seq<char> {
        let (rule, bar) = Self::spec_frame(self.state);
        "+"@ + rule + "+\n"@ + bar + self.name.spec_shorthand() + bar + "\n+"@ + rule + "+"@
    }

    /// One of the three text lines that draw the tile: the top rule for
    /// `part` 0, the shorthand between its bars for `part` 1, and the bottom
    /// rule otherwise.
    pub open spec fn spec_tile_line(self, part: int) -> Seq<char> {
        let (rule, bar) = Self::spec_frame(self.state);
        if part == 1 {
            bar + self.name.spec_shorthand() + bar
        } else {
            "+"@ + rule + "+"@
        }
    }

    pub fn from_name(name: &IslandCardName) -> (card: IslandCard)
        ensures
            card == Self::spec_from_name(*name),
            card.wf(),
    {
        IslandCard { state: IslandCardState::Normal, can_retrieve: name.affinity(), name: *name }
    }

    pub fn state(&self) -> (state: &IslandCardState)
        ensures
            *state == self.state,
    {
        &self.state
    }

    pub fn name(&self) -> (name: IslandCardName)
        ensures
            name == self.name,
    {
        self.name
    }

    /// Floods a dry tile, sinks a flooded one.
    pub fn sink(&mut self)
        requires
            old(self).state != IslandCardState::Sunk,
        ensures
            *final(self) == old(self).spec_sink(),
            final(self).state.level() == old(self).state.level() + 1,
    {
        self.state.step();
    }

    /// Shores up a flooded tile.
    pub fn raise(&mut self)
        requires
            old(self).state == IslandCardState::Flooded,
        ensures
            *final(self) == old(self).spec_raise(),
            final(self).state == IslandCardState::Normal,
    {
        self.state.step_back();
    }

    pub fn tile_str(&self) -> (text: String)
        ensures
            text@ == self.spec_tile_str(),
    {
        let (rule, bar) = match self.state {
            IslandCardState::Normal => ("===", "\u{2551}"),
            IslandCardState::Flooded => ("---", "|"),
            IslandCardState::Sunk => ("   ", " "),
        };
        let mut text = String::from_str("+");
        text.append(rule);
        text.append("+\n");
        text.append(bar);
        text.append(self.name.shorthand());
        text.append(bar);
        text.append("\n+");
        text.append(rule);
        text.append("+");
        text
    }

    /// One of the three text lines that draw the tile.
    pub fn tile_line(&self, part: usize) -> (text: String)
        ensures
            text@ == self.spec_tile_line(part as int),
    {
        let (rule, bar) = match self.state {
            IslandCardState::Normal => ("===", "\u{2551}"),
            IslandCardState::Flooded => ("---", "|"),
            IslandCardState::Sunk => ("   ", " "),
        };
        if part == 1 {
            let mut text = String::from_str(bar);
            text.append(self.name.shorthand());
            text.append(bar);
            text
        } else {
            let mut text = String::from_str("+");
            text.append(rule);
            text.append("+");
            text
        }
    }

    pub fn can_retrieve(&self) -> (kind: Option<TreasureType>)
        ensures
            kind == self.can_retrieve,
    {
        self.can_retrieve
    }

    /// The full island deck: every tile once, dry, in the fixed order.
    pub open spec fn spec_deck() -> Seq<IslandCard> {
        Seq::new(24, |i: int| Self::spec_from_name(IslandCardName::spec_from_index(i)))
    }
}

impl Card for IslandCard {
    fn card_type() -> (family: CardType)
        ensures
            family == CardType::Island,
    {
        CardType::Island
    }

    fn get_deck() -> (deck: Deck<IslandCard>)
        ensures
            deck@ == IslandCard::spec_deck(),
    {
        let names = IslandCardName::all();
        let mut deck: Deck<IslandCard> = Deck::with_capacity(24);
        let mut i: usize = 0;
        while i < 24
            invariant
                i <= 24,
                names@ == IslandCardName::spec_all(),
                deck@ == IslandCard::spec_deck().subrange(0, i as int),
            decreases 24 - i,
        {
            deck.insert(IslandCard::from_name(&names[i]));
            assert(deck@ =~= IslandCard::spec_deck().subrange(0, i + 1));
            i += 1;
        }
        assert(deck@ =~= IslandCard::spec_deck());
        deck
    }

    fn as_string(&self) -> (text: String)
        ensures
            text@ == self.name.spec_name(),
    {
        self.name.name()
    }

    fn same(&self, other: &Self) -> (b: bool) {
        self.state == other.state && self.can_retrieve == other.can_retrieve && self.name
            == other.name
    }
}

/// The drawing of a tile is made of its three lines.
pub proof fn lemma_tile_str_lines(card: IslandCard)
    ensures
        card.spec_tile_str() == card.spec_tile_line(0) + "\n"@ + card.spec_tile_line(1) + "\n"@
            + card.spec_tile_line(2),
{
    reveal_strlit("+\n");
    reveal_strlit("\n+");
    reveal_strlit("\n");
    reveal_strlit("+");
    let (rule, bar) = IslandCard::spec_frame(card.state);
    assert(card.spec_tile_str() =~= card.spec_tile_line(0) + "\n"@ + card.spec_tile_line(1) + "\n"@
        + card.spec_tile_line(2));
}

/// Places and tiles correspond one to one.
pub proof fn lemma_index_round_trip(name: IslandCardName, index: int)
    ensures
        name.spec_index() < 24,
        IslandCardName::spec_from_index(name.spec_index() as int) == name,
        0 <= index < 24 ==> IslandCardName::spec_from_index(index).spec_index() == index,
{
}

} // verus!
