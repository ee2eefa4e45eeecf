//! The course of a game: turn after turn until it is won or lost.

use vstd::prelude::*;
use vstd::string::*;

use super::chooser::Chooser;
use super::model::spec_flood_draw_count;
use super::{Game, GameView};
use crate::structs::cards::adventurer::AdventurerCardType;
use crate::structs::cards::island::{IslandCardName, IslandCardState};
use crate::structs::cards::treasure::{TreasureCard, TreasureCardType, TreasureType};

verus! {

/// How a game has ended.
#[derive(Debug, Clone, Copy, PartialEq, Eq, Structural)]
pub enum Ending {
    /// All treasures are captured and everybody has flown out.
    Win,
    /// The water has reached the top of the scale.
    WaterTooHigh,
    /// The landing site has sunk.
    ExtractionSunk,
    /// Both tiles of a treasure that is not captured have sunk.
    TreasureUnreachable(TreasureType),
    /// An adventurer's tile has sunk and it can get away to no other.
    CannotEvacuate(AdventurerCardType),
    /// The count of rounds has run out before the game was decided.
    Unfinished,
}

/// The outcome of a game: how it ended, and after how many turns.
#[derive(Debug, Clone, Copy, PartialEq, Eq, Structural)]
pub struct Outcome {
    pub ending: Ending,
    /// The number of turns completed before the one that ended the game.
    pub rounds: u64,
}

impl Ending {
    /// What the players are told at the end.
    pub open spec fn spec_reason(self) -> Seq<char> {
        match self {
            Ending::Win => "You captured all 4 treasures and used a helicopter lift card to get off fools landing, you win!"@,
            Ending::WaterTooHigh => "Water level too high, you lose!"@,
            Ending::ExtractionSunk => "Fools landing sinks, you lose!"@,
            Ending::TreasureUnreachable(kind) => "Cannot retrieve "@ + kind.spec_name()
                + ", you lose!"@,
            Ending::CannotEvacuate(role) => role.spec_name() + " cannot move to safety, you lose!"@,
            Ending::Unfinished => "The game has not come to an end"@,
        }
    }

    pub fn reason(&self) -> (text: String)
        ensures
            text@ == self.spec_reason(),
    {
        match self {
            Ending::Win => String::from_str(
                "You captured all 4 treasures and used a helicopter lift card to get off fools landing, you win!",
            ),
            Ending::WaterTooHigh => String::from_str("Water level too high, you lose!"),
            Ending::ExtractionSunk => String::from_str("Fools landing sinks, you lose!"),
            Ending::TreasureUnreachable(kind) => {
                let mut text = String::from_str("Cannot retrieve ");
                text.append(kind.get_name().as_str());
                text.append(", you lose!");
                text
            },
            Ending::CannotEvacuate(role) => {
                let mut text = role.name();
                text.append(" cannot move to safety, you lose!");
                text
            },
            Ending::Unfinished => String::from_str("The game has not come to an end"),
        }
    }
}

impl Outcome {
    /// Whether the game was won.
    pub fn won(&self) -> (won: bool)
        ensures
            won == (self.ending == Ending::Win),
    {
        self.ending == Ending::Win
    }

    /// The outcome as a triple: whether the game was won, what the players
    /// are told, and the number of turns completed.
    pub fn summary(&self) -> (triple: (bool, String, u64))
        ensures
            triple.0 == (self.ending == Ending::Win),
            triple.1@ == self.ending.spec_reason(),
            triple.2 == self.rounds,
    {
        (self.won(), self.ending.reason(), self.rounds)
    }
}

impl GameView {
    /// Whether the adventurer at `who` stands on a sunk tile and can get
    /// away to no other place.
    pub open spec fn is_stranded(self, who: int) -> bool {
        &&& self.state_at(self.adventurers[who].pos) == IslandCardState::Sunk
        &&& self.evacuation_options(who).len() == 0
    }

    /// What is checked after each flood card: the game is lost when the
    /// landing site has sunk, and else when a treasure is out of reach.
    pub open spec fn flood_loss(self) -> Option<Ending> {
        if self.extraction_sunk() {
            Some(Ending::ExtractionSunk)
        } else {
            match self.first_unreachable() {
                Some(kind) => Some(Ending::TreasureUnreachable(kind)),
                None => None,
            }
        }
    }

    /// Whether the game, in this state, has ended as `ending` says.
    pub open spec fn ended_by(self, ending: Ending) -> bool {
        match ending {
            Ending::Win => self.wins(),
            Ending::WaterTooHigh => self.water_too_high(),
            Ending::ExtractionSunk => self.extraction_sunk(),
            Ending::TreasureUnreachable(kind) => self.flood_loss() == Some(
                Ending::TreasureUnreachable(kind),
            ),
            Ending::CannotEvacuate(role) => exists|who: int|
                0 <= who < self.adventurers.len() && (#[trigger] self.adventurers[who]).role == role
                    && self.is_stranded(who),
            Ending::Unfinished => false,
        }
    }

    /// Whether the adventurers of `self` are those of `before`, with the
    /// same hands, wherever they stand.
    pub open spec fn same_hands(self, before: GameView) -> bool {
        &&& self.adventurers.len() == before.adventurers.len()
        &&& forall|who: int|
            0 <= who < self.adventurers.len() ==> (#[trigger] self.adventurers[who]).role
                == before.adventurers[who].role && self.adventurers[who].hand
                == before.adventurers[who].hand
    }

    /// Whether the game is `self` after the adventurer at `who` has been
    /// looked after in `before`, with a decision source that went from
    /// `source` to `after`: where its tile has sunk, it has left for one of
    /// the places it can get away to.
    pub open spec fn rescued_one_by<C: Chooser>(
        self,
        before: GameView,
        who: int,
        source: C,
        after: C,
    ) -> bool {
        if before.state_at(before.adventurers[who].pos) == IslandCardState::Sunk {
            self.escaped_by(before, who, source, after)
        } else {
            self == before && after == source
        }
    }

    /// Whether the game is `self` after the first `upto` adventurers of the
    /// roster have been looked after in `before`, one after the other, with
    /// a decision source that went from `source` to `after`.
    pub open spec fn rescued_by<C: Chooser>(
        self,
        before: GameView,
        upto: nat,
        source: C,
        after: C,
    ) -> bool
        decreases upto,
    {
        if upto == 0 {
            self == before && after == source
        } else {
            exists|middle: GameView, then: C|
                #![trigger self.rescued_one_by(middle, upto - 1, then, after)]
                middle.rescued_by(before, (upto - 1) as nat, source, then) && self.rescued_one_by(
                    middle,
                    upto - 1,
                    then,
                    after,
                )
        }
    }

    /// Whether the game is `self` after the adventurers have left the sunk
    /// tiles in `before`, with the result `loss` and a decision source that
    /// went from `source` to `after`: all of them have been looked after,
    /// or those before the first who is stranded.
    pub open spec fn evacuated_by<C: Chooser>(
        self,
        before: GameView,
        loss: Option<Ending>,
        source: C,
        after: C,
    ) -> bool {
        match loss {
            None => self.rescued_by(before, before.adventurers.len(), source, after),
            Some(ending) => exists|who: int|
                #![trigger self.is_stranded(who)]
                0 <= who < before.adventurers.len() && self.rescued_by(
                    before,
                    who as nat,
                    source,
                    after,
                ) && self.is_stranded(who) && ending == Ending::CannotEvacuate(
                    self.adventurers[who].role,
                ),
        }
    }

    /// Whether the game is `self` after one flood card has been drawn and
    /// dealt with in `before`, with the result `loss` and a decision source
    /// that went from `source` to `after`: the card is carried out, the game
    /// is checked, and unless it is lost the adventurers leave the sunk
    /// tiles.
    pub open spec fn flood_card_by<C: Chooser>(
        self,
        before: GameView,
        loss: Option<Ending>,
        source: C,
        after: C,
    ) -> bool {
        exists|drawn: GameView|
            #![trigger drawn.flooded_from(before)]
            drawn.flooded_from(before) && if drawn.flood_loss() is Some {
                self == drawn && loss == drawn.flood_loss() && after == source
            } else {
                self.evacuated_by(drawn, loss, source, after)
            }
    }

    /// Whether the game is `self` after `count` flood cards have been drawn
    /// and dealt with in `before`, one after the other, without loss, with a
    /// decision source that went from `source` to `after`.
    pub open spec fn flood_cards_by<C: Chooser>(
        self,
        before: GameView,
        count: nat,
        source: C,
        after: C,
    ) -> bool
        decreases count,
    {
        if count == 0 {
            self == before && after == source
        } else {
            exists|middle: GameView, then: C|
                #![trigger self.flood_card_by(middle, None, then, after)]
                middle.flood_cards_by(before, (count - 1) as nat, source, then)
                    && middle.flood_deck.len() > 0 && self.flood_card_by(middle, None, then, after)
        }
    }

    /// Whether the game is `self` after the flood phase in `before`, with
    /// the result `loss` and a decision source that went from `source` to
    /// `after`.  At the top of the water scale the game is lost at once.
    /// Else flood cards are drawn and dealt with until one of them loses the
    /// game, the number for the water level is reached, or no flood card is
    /// left.
    pub open spec fn flood_phase_by<C: Chooser>(
        self,
        before: GameView,
        loss: Option<Ending>,
        source: C,
        after: C,
    ) -> bool {
        if before.water_too_high() {
            self == before && loss == Some(Ending::WaterTooHigh) && after == source
        } else {
            exists|middle: GameView, drawn: nat, then: C|
                #![trigger middle.flood_cards_by(before, drawn, source, then)]
                drawn <= spec_flood_draw_count(before.water_level) && middle.flood_cards_by(
                    before,
                    drawn,
                    source,
                    then,
                ) && match loss {
                    None => self == middle && after == then && (drawn == spec_flood_draw_count(
                        before.water_level,
                    ) || middle.flood_deck.len() == 0),
                    Some(_) => drawn < spec_flood_draw_count(before.water_level)
                        && middle.flood_deck.len() > 0 && self.flood_card_by(
                        middle,
                        loss,
                        then,
                        after,
                    ),
                }
        }
    }

    /// Whether the game is `self` after the adventurer at `who` got rid of
    /// `cards` cards in `before`, one after the other, each time holding
    /// more than five, with a decision source that went from `source` to
    /// `after`.
    pub open spec fn pruned_by<C: Chooser>(
        self,
        before: GameView,
        who: int,
        cards: nat,
        source: C,
        after: C,
    ) -> bool
        decreases cards,
    {
        if cards == 0 {
            self == before && after == source
        } else {
            exists|middle: GameView, then: C|
                #![trigger self.discarded_by(middle, who, then, after)]
                middle.pruned_by(before, who, (cards - 1) as nat, source, then)
                    && middle.adventurers[who].hand.len() > 5 && self.discarded_by(
                    middle,
                    who,
                    then,
                    after,
                )
        }
    }

    /// The game with the pilot free to fly again.
    pub open spec fn rested(self) -> GameView {
        GameView { used_pilot_move: false, ..self }
    }

    /// Whether the game is `self` after the adventurer at `who` has taken
    /// its actions and drawn its two cards in `before`, with a decision
    /// source that went from `source` to `after`.
    pub open spec fn after_draws<C: Chooser>(
        self,
        before: GameView,
        who: int,
        source: C,
        after: C,
    ) -> bool {
        exists|acted: GameView|
            #![trigger acted.after_actions(before, who, 3, source, after)]
            acted.after_actions(before, who, 3, source, after) && self.drew_twice_from(
                acted.rested(),
                who,
            )
    }

    /// Whether the game is `self` after the adventurer at `who` has taken
    /// its actions, drawn its two cards and cut its hand down to five cards
    /// in `before`, with a decision source that went from `source` to
    /// `after`.
    pub open spec fn after_discards<C: Chooser>(
        self,
        before: GameView,
        who: int,
        source: C,
        after: C,
    ) -> bool {
        exists|drawn: GameView, cards: nat, then: C|
            #![trigger self.pruned_by(drawn, who, cards, then, after)]
            drawn.after_draws(before, who, source, then) && self.pruned_by(
                drawn,
                who,
                cards,
                then,
                after,
            ) && self.adventurers[who].hand.len() <= 5
    }

    /// Whether the game is `self` after the turn of the adventurer at `who`
    /// in `before`, with the result `end` and a decision source that went
    /// from `source` to `after`.  A game that is won is left as it is, and
    /// the source is not asked.  Else the adventurer takes its actions,
    /// draws, cuts its hand down, and the flood phase follows.
    pub open spec fn turn_played_by<C: Chooser>(
        self,
        before: GameView,
        who: int,
        end: Option<Ending>,
        source: C,
        after: C,
    ) -> bool {
        if before.wins() {
            self == before && end == Some(Ending::Win) && after == source
        } else {
            exists|cut: GameView, then: C|
                #![trigger cut.after_discards(before, who, source, then)]
                cut.after_discards(before, who, source, then) && self.flood_phase_by(
                    cut,
                    end,
                    then,
                    after,
                )
        }
    }

    /// Whether the game is `self` after the turn number `round`, counted
    /// from one, has been played in `before` by the adventurer whose turn it
    /// is among `seats`, and has not ended the game.
    pub open spec fn round_by<C: Chooser>(
        self,
        before: GameView,
        seats: nat,
        round: nat,
        source: C,
        after: C,
    ) -> bool {
        self.turn_played_by(before, (round - 1) % (seats as int), None, source, after)
    }

    /// Whether the game is `self` after `rounds` turns in `before` that did
    /// not end the game, taken by the adventurers in the order of the
    /// roster, again and again, with a decision source that went from
    /// `source` to `after`.
    pub open spec fn rounds_by<C: Chooser>(
        self,
        before: GameView,
        rounds: nat,
        source: C,
        after: C,
    ) -> bool
        decreases rounds,
    {
        if rounds == 0 {
            self == before && after == source
        } else {
            exists|middle: GameView, then: C|
                #![trigger self.round_by(middle, before.adventurers.len(), rounds, then, after)]
                middle.rounds_by(before, (rounds - 1) as nat, source, then) && self.round_by(
                    middle,
                    before.adventurers.len(),
                    rounds,
                    then,
                    after,
                )
        }
    }

    /// Whether the game is `self` after it has been played from `before`
    /// with the outcome `outcome` and a decision source that went from
    /// `source` to `after`: the turns counted did not end the game, and the
    /// next turn ended it as the outcome says, unless the count of rounds
    /// has run out.
    pub open spec fn game_played_by<C: Chooser>(
        self,
        before: GameView,
        outcome: Outcome,
        source: C,
        after: C,
    ) -> bool {
        exists|middle: GameView, then: C|
            #![trigger middle.rounds_by(before, outcome.rounds as nat, source, then)]
            middle.rounds_by(before, outcome.rounds as nat, source, then)
                && if outcome.ending is Unfinished {
                self == middle && after == then && outcome.rounds == u64::MAX
            } else {
                self.turn_played_by(
                    middle,
                    outcome.rounds as int % (before.adventurers.len() as int),
                    Some(outcome.ending),
                    then,
                    after,
                )
            }
    }

    /// Whether every adventurer stands on a tile that has not sunk.
    pub open spec fn all_afloat(self) -> bool {
        forall|who: int|
            0 <= who < self.adventurers.len() ==> self.state_at(
                (#[trigger] self.adventurers[who]).pos,
            ) != IslandCardState::Sunk
    }
}

impl Game {
    /// Whether an adventurer holds a card that shows `card_type`.
    pub fn someone_holds(&self, card_type: &TreasureCardType) -> (found: bool)
        ensures
            found == self@.someone_holds(*card_type),
    {
        let wanted = TreasureCard::new(card_type);
        let mut i: usize = 0;
        while i < self.adventurers.len()
            invariant
                i <= self.adventurers@.len(),
                wanted.treasure_type == *card_type,
                forall|a: int, c: int|
                    0 <= a < i && 0 <= c < self@.adventurers[a].hand.len() ==> (
                    #[trigger] self@.adventurers[a].hand[c]).treasure_type != *card_type,
            decreases self.adventurers@.len() - i,
        {
            assert(self@.adventurers[i as int] == self.adventurers@[i as int]@);
            if self.adventurers[i].hand.contains(&wanted) {
                let ghost at = choose|c: int|
                    0 <= c < self@.adventurers[i as int].hand.len() && self@.adventurers[i as int].hand[c]
                        == wanted;
                assert(self@.adventurers[i as int].hand[at].treasure_type == *card_type);
                return true;
            }
            assert forall|c: int| 0 <= c < self@.adventurers[i as int].hand.len() implies (
            #[trigger] self@.adventurers[i as int].hand[c]).treasure_type != *card_type by {
                if self@.adventurers[i as int].hand[c].treasure_type == *card_type {
                    assert(self@.adventurers[i as int].hand[c] == wanted);
                    assert(self@.adventurers[i as int].hand.contains(wanted));
                }
            }
            i += 1;
        }
        false
    }

    /// The win check: all four treasures are captured, every adventurer
    /// stands on the landing site, and one of them holds a helicopter lift.
    pub fn is_won(&self) -> (won: bool)
        requires
            self@.board.wf(),
        ensures
            won == self@.wins(),
    {
        if !self.captured_treasures.is_complete() {
            proof {
                if self@.wins() {
                    assert(self@.captured.contains(TreasureType::Earth));
                    assert(self@.captured.contains(TreasureType::Wind));
                    assert(self@.captured.contains(TreasureType::Fire));
                    assert(self@.captured.contains(TreasureType::Ocean));
                }
            }
            return false;
        }
        let landing = self.board.get_location(&IslandCardName::FoolsLanding);
        let mut i: usize = 0;
        while i < self.adventurers.len()
            invariant
                i <= self.adventurers@.len(),
                landing == self@.board.location(IslandCardName::FoolsLanding),
                forall|a: int| 0 <= a < i ==> (#[trigger] self@.adventurers[a]).pos == landing,
            decreases self.adventurers@.len() - i,
        {
            assert(self@.adventurers[i as int] == self.adventurers@[i as int]@);
            let pos = self.adventurers[i].pos;
            if pos.0 != landing.0 || pos.1 != landing.1 {
                return false;
            }
            i += 1;
        }
        self.someone_holds(&TreasureCardType::HelicopterLift)
    }

    /// Whether treasure `kind` is out of reach: it is not captured, and
    /// both of its tiles have sunk.
    pub fn is_unreachable(&self, kind: &TreasureType) -> (lost: bool)
        requires
            self@.board.wf(),
        ensures
            lost == self@.unreachable(*kind),
    {
        let (first, second) = match kind {
            TreasureType::Earth => (IslandCardName::TempleOfTheSun, IslandCardName::TempleOfTheMoon),
            TreasureType::Wind => (IslandCardName::WhisperingGarden, IslandCardName::HowlingGarden),
            TreasureType::Fire => (IslandCardName::CaveOfEmbers, IslandCardName::CaveOfShadows),
            TreasureType::Ocean => (IslandCardName::TidalPalace, IslandCardName::CoralPalace),
        };
        !self.captured_treasures.contains(kind) && self.board.get_by_type(&first).state
            == IslandCardState::Sunk && self.board.get_by_type(&second).state
            == IslandCardState::Sunk
    }

    /// What is checked after each flood card: the game is lost when the
    /// landing site has sunk, and else when a treasure is out of reach.
    pub fn flood_loss(&self) -> (loss: Option<Ending>)
        requires
            self@.board.wf(),
        ensures
            loss == self@.flood_loss(),
            loss matches Some(ending) ==> self@.ended_by(ending),
    {
        if self.board.get_by_type(&IslandCardName::FoolsLanding).state == IslandCardState::Sunk {
            Some(Ending::ExtractionSunk)
        } else if self.is_unreachable(&TreasureType::Earth) {
            Some(Ending::TreasureUnreachable(TreasureType::Earth))
        } else if self.is_unreachable(&TreasureType::Wind) {
            Some(Ending::TreasureUnreachable(TreasureType::Wind))
        } else if self.is_unreachable(&TreasureType::Fire) {
            Some(Ending::TreasureUnreachable(TreasureType::Fire))
        } else if self.is_unreachable(&TreasureType::Ocean) {
            Some(Ending::TreasureUnreachable(TreasureType::Ocean))
        } else {
            None
        }
    }

    /// How many flood cards are drawn at the end of a turn.
    pub fn flood_draw_count(&self) -> (count: usize)
        ensures
            count == spec_flood_draw_count(self@.water_level),
    {
        if self.water_level <= 1 {
            2
        } else if self.water_level <= 4 {
            3
        } else if self.water_level <= 6 {
            4
        } else {
            5
        }
    }

    /// Makes every adventurer whose tile has sunk leave it, in the order of
    /// the roster.  The game is lost when one of them can get away to no
    /// other place.
    pub fn evacuate<C: Chooser>(&mut self, chooser: &mut C) -> (loss: Option<Ending>)
        requires
            old(self)@.wf(),
        ensures
            final(self)@.wf(),
            final(self)@ == (GameView { adventurers: final(self)@.adventurers, ..old(self)@ }),
            final(self)@.same_hands(old(self)@),
            match loss {
                Some(ending) => ending is CannotEvacuate && final(self)@.ended_by(ending),
                None => final(self)@.all_afloat(),
            },
            old(self)@.all_afloat() ==> loss is None && final(self)@ == old(self)@,
            final(self)@.evacuated_by(old(self)@, loss, *old(chooser), *final(chooser)),
    {
        let mut i: usize = 0;
        while i < self.adventurers.len()
            invariant
                i <= self.adventurers@.len(),
                self@.wf(),
                self@ == (GameView { adventurers: self@.adventurers, ..old(self)@ }),
                self@.same_hands(old(self)@),
                forall|who: int|
                    0 <= who < i ==> self@.state_at((#[trigger] self@.adventurers[who]).pos)
                        != IslandCardState::Sunk,
                old(self)@.all_afloat() ==> self@ == old(self)@,
                self@.rescued_by(old(self)@, i as nat, *old(chooser), *chooser),
            decreases self.adventurers@.len() - i,
        {
            let ghost before = self@;
            let ghost source = *chooser;
            assert(self@.adventurers[i as int] == self.adventurers@[i as int]@);
            let tile = self.board.get_card(&self.adventurers[i].pos).unwrap();
            if tile.state == IslandCardState::Sunk {
                if self.evacuation_options(i).is_empty() {
                    assert(self@.is_stranded(i as int));
                    return Some(Ending::CannotEvacuate(self.adventurers[i].card));
                }
                self.move_adventurer_flood(i, chooser);
            }
            proof {
                let upto = (i + 1) as nat;
                assert(before.rescued_by(old(self)@, (upto - 1) as nat, *old(chooser), source));
                assert(self@.rescued_one_by(before, upto - 1, source, *chooser));
                assert(self@.rescued_by(old(self)@, upto, *old(chooser), *chooser));
            }
            i += 1;
        }
        None
    }

    /// The flood phase of a turn.  The game is lost at once when the water
    /// stands at the top of the scale.  Else as many flood cards are drawn
    /// as the water level asks for; after each of them the game is lost
    /// where the landing site has sunk or a treasure is out of reach, and
    /// the adventurers whose tile has sunk leave it.
    pub fn flood_phase<C: Chooser>(&mut self, chooser: &mut C) -> (loss: Option<Ending>)
        requires
            old(self)@.wf(),
        ensures
            final(self)@.wf(),
            final(self)@.same_hands(old(self)@),
            loss matches Some(ending) ==> ending !is Win && ending !is Unfinished
                && final(self)@.ended_by(ending),
            old(self)@.water_too_high() <==> loss == Some(Ending::WaterTooHigh),
            old(self)@.water_too_high() ==> final(self)@ == old(self)@,
            final(self)@.treasure_deck == old(self)@.treasure_deck,
            final(self)@.treasure_discard == old(self)@.treasure_discard,
            final(self)@.water_level == old(self)@.water_level,
            final(self)@.captured == old(self)@.captured,
            final(self)@.used_pilot_move == old(self)@.used_pilot_move,
            final(self)@.flood_phase_by(old(self)@, loss, *old(chooser), *final(chooser)),
    {
        if self.water_level == 9 {
            return Some(Ending::WaterTooHigh);
        }
        let count = self.flood_draw_count();
        let mut drawn: usize = 0;
        while drawn < count
            invariant
                drawn <= count,
                self@.wf(),
                self@.same_hands(old(self)@),
                self@.treasure_deck == old(self)@.treasure_deck,
                self@.treasure_discard == old(self)@.treasure_discard,
                self@.water_level == old(self)@.water_level,
                self@.captured == old(self)@.captured,
                self@.used_pilot_move == old(self)@.used_pilot_move,
                !old(self)@.water_too_high(),
                count == spec_flood_draw_count(old(self)@.water_level),
                self@.flood_cards_by(old(self)@, drawn as nat, *old(chooser), *chooser),
            decreases count - drawn,
        {
            let ghost middle = self@;
            let ghost then = *chooser;
            if self.flood_deck.is_empty() {
                return None;
            }
            self.draw_flood_card();
            let ghost flooded = self@;
            match self.flood_loss() {
                Some(ending) => {
                    assert(flooded.flooded_from(middle) && self@.flood_card_by(
                        middle,
                        Some(ending),
                        then,
                        *chooser,
                    ));
                    assert(middle.flood_cards_by(old(self)@, drawn as nat, *old(chooser), then));
                    return Some(ending);
                },
                None => {},
            }
            match self.evacuate(chooser) {
                Some(ending) => {
                    assert(flooded.flooded_from(middle) && self@.flood_card_by(
                        middle,
                        Some(ending),
                        then,
                        *chooser,
                    ));
                    assert(middle.flood_cards_by(old(self)@, drawn as nat, *old(chooser), then));
                    return Some(ending);
                },
                None => {},
            }
            assert(flooded.flooded_from(middle) && self@.flood_card_by(middle, None, then, *chooser));
            drawn += 1;
        }
        assert(self@.flood_cards_by(old(self)@, drawn as nat, *old(chooser), *chooser));
        None
    }

    /// The turn of the adventurer at position `who` of the roster.  The
    /// game is won at once where the win check holds.  Else the adventurer
    /// takes up to three actions, draws two treasure cards, gets rid of
    /// cards until it holds five at most, and the flood phase follows.
    /// Returns how the game has ended, if it has.
    pub fn play_turn<C: Chooser>(&mut self, who: usize, chooser: &mut C) -> (end: Option<Ending>)
        requires
            old(self)@.wf(),
            who < old(self)@.adventurers.len(),
        ensures
            final(self)@.wf(),
            final(self)@.adventurers.len() == old(self)@.adventurers.len(),
            end matches Some(ending) ==> ending !is Unfinished && final(self)@.ended_by(ending),
            old(self)@.wins() <==> end == Some(Ending::Win),
            old(self)@.wins() ==> final(self)@ == old(self)@ && *final(chooser) == *old(chooser),
            !old(self)@.wins() ==> final(self)@.adventurers[who as int].hand.len() <= 5
                && !final(self)@.used_pilot_move,
            final(self)@.turn_played_by(
                old(self)@,
                who as int,
                end,
                *old(chooser),
                *final(chooser),
            ),
    {
        if self.is_won() {
            return Some(Ending::Win);
        }
        self.initial_actions(who, chooser, 3);
        let ghost acted = self@;
        let ghost decided = *chooser;
        self.used_pilot_move = false;
        assert(self@ == acted.rested());
        self.draw_treasure_cards(who);
        let ghost drawn = self@;
        assert(acted.after_actions(old(self)@, who as int, 3, *old(chooser), decided)
            && drawn.drew_twice_from(acted.rested(), who as int));
        assert(drawn.after_draws(old(self)@, who as int, *old(chooser), decided));
        let ghost mut cards: nat = 0;
        assert(self@.adventurers[who as int] == self.adventurers@[who as int]@);
        while self.adventurers[who].hand.len() > 5
            invariant
                self@.wf(),
                who < self@.adventurers.len(),
                self@.adventurers.len() == old(self)@.adventurers.len(),
                !self@.used_pilot_move,
                self@.pruned_by(drawn, who as int, cards, decided, *chooser),
            decreases self@.adventurers[who as int].hand.len(),
        {
            let ghost middle = self@;
            let ghost then = *chooser;
            assert(self@.adventurers[who as int] == self.adventurers@[who as int]@);
            self.discard_cards(who, chooser);
            assert(self@.adventurers[who as int] == self.adventurers@[who as int]@);
            proof {
                assert(self@.discarded_by(middle, who as int, then, *chooser));
                cards = cards + 1;
                assert(self@.pruned_by(drawn, who as int, cards, decided, *chooser));
            }
        }
        assert(self@.adventurers[who as int] == self.adventurers@[who as int]@);
        let ghost cut = self@;
        let ghost pruned = *chooser;
        assert(drawn.after_draws(old(self)@, who as int, *old(chooser), decided) && cut.pruned_by(
            drawn,
            who as int,
            cards,
            decided,
            pruned,
        ));
        assert(cut.after_discards(old(self)@, who as int, *old(chooser), pruned));
        self.flood_phase(chooser)
    }
}

/// The seat after seat `rounds % count` is seat `(rounds + 1) % count`.
pub proof fn lemma_next_seat(rounds: int, count: int)
    requires
        0 <= rounds,
        0 < count,
    ensures
        (rounds + 1) % count == if rounds % count + 1 < count {
            rounds % count + 1
        } else {
            0
        },
{
    assert((rounds + 1) % count == if rounds % count + 1 < count {
        rounds % count + 1
    } else {
        0
    }) by (nonlinear_arith)
        requires
            0 <= rounds,
            0 < count,
    ;
}

impl Game {
    /// Plays the game to its end: the adventurers take their turns in the
    /// order of the roster, again and again, until a turn ends the game.
    /// The turns completed before that one are counted; a game that is
    /// still undecided when the count runs out is given up as unfinished.
    pub fn play<C: Chooser>(&mut self, chooser: &mut C) -> (outcome: Outcome)
        requires
            old(self)@.wf(),
            old(self)@.adventurers.len() > 0,
        ensures
            final(self)@.wf(),
            final(self)@.adventurers.len() == old(self)@.adventurers.len(),
            outcome.ending !is Unfinished ==> final(self)@.ended_by(outcome.ending),
            outcome.ending is Unfinished ==> outcome.rounds == u64::MAX,
            old(self)@.wins() ==> outcome == (Outcome { ending: Ending::Win, rounds: 0 })
                && final(self)@ == old(self)@ && *final(chooser) == *old(chooser),
            final(self)@.game_played_by(old(self)@, outcome, *old(chooser), *final(chooser)),
    {
        let count = self.adventurers.len();
        let mut rounds: u64 = 0;
        let mut who: usize = 0;
        while rounds < u64::MAX
            invariant
                self@.wf(),
                self@.adventurers.len() == old(self)@.adventurers.len(),
                count == self@.adventurers.len(),
                who < count,
                rounds == 0 ==> self@ == old(self)@ && *chooser == *old(chooser),
                rounds > 0 ==> !old(self)@.wins(),
                who == rounds as int % count as int,
                self@.rounds_by(old(self)@, rounds as nat, *old(chooser), *chooser),
            decreases u64::MAX - rounds,
        {
            let ghost middle = self@;
            let ghost then = *chooser;
            match self.play_turn(who, chooser) {
                Some(ending) => {
                    let outcome = Outcome { ending, rounds };
                    assert(middle.rounds_by(
                        old(self)@,
                        outcome.rounds as nat,
                        *old(chooser),
                        then,
                    ) && self@.turn_played_by(
                        middle,
                        outcome.rounds as int % (old(self)@.adventurers.len() as int),
                        Some(outcome.ending),
                        then,
                        *chooser,
                    ));
                    return outcome;
                },
                None => {},
            }
            proof {
                let next = (rounds + 1) as nat;
                assert(middle.rounds_by(old(self)@, (next - 1) as nat, *old(chooser), then));
                assert(self@.round_by(middle, old(self)@.adventurers.len(), next, then, *chooser));
                assert(self@.rounds_by(old(self)@, next, *old(chooser), *chooser));
                lemma_next_seat(rounds as int, count as int);
            }
            rounds += 1;
            who = if who + 1 < count {
                who + 1
            } else {
                0
            };
        }
        let outcome = Outcome { ending: Ending::Unfinished, rounds };
        assert(self@.rounds_by(old(self)@, outcome.rounds as nat, *old(chooser), *chooser));
        outcome
    }
}

} // verus!
