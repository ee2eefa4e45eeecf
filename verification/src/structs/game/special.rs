//! The special cards, which cost no action, and the discarding of cards.

use vstd::prelude::*;
use vstd::string::*;

use super::chooser::{settle, settled, texts, Chooser};
use super::model::{cards_in_hands, lemma_cards_in_hands_update};
use super::moves::Action;
use super::{Game, GameView};
use crate::structs::board::{lemma_island_coords, BoardView};
use crate::structs::cards::adventurer::AdventurerView;
use crate::structs::cards::island::{
    lemma_index_round_trip, IslandCard, IslandCardName, IslandCardState,
};
use crate::structs::cards::treasure::{SpecialActionType, TreasureCard, TreasureCardType};

verus! {

/// The positions `0..n`, in rising order.
pub open spec fn positions(n: nat) -> Seq<usize> {
    Seq::new(n, |i: int| i as usize)
}

/// The special action for which `card` stands: the sandbag for a sandbag
/// card, and the helicopter lift otherwise.
pub open spec fn special_of(card: TreasureCard) -> SpecialActionType {
    if card.treasure_type == TreasureCardType::Sandbag {
        SpecialActionType::Sandbag
    } else {
        SpecialActionType::HelicopterLift
    }
}

/// A special card in a hand, ready to be played: the holder's position in
/// the roster, the card's position in the hand, and what the card does.
pub type Play = (usize, usize, SpecialActionType);

impl BoardView {
    /// Every tile among the flooded ones is flooded, and where a tile is
    /// flooded there is one among them.
    pub proof fn lemma_shorable(self)
        requires
            self.wf(),
        ensures
            forall|k: int|
                0 <= k < self.shorable().len() ==> self.card(#[trigger] self.shorable()[k]).state
                    == IslandCardState::Flooded,
            self.has_shorable() ==> self.shorable().len() > 0,
    {
        let flooded = |card: IslandCard| card.state == IslandCardState::Flooded;
        let wet = self.cells.filter(flooded);
        assert forall|k: int| 0 <= k < self.shorable().len() implies self.card(
            #[trigger] self.shorable()[k],
        ).state == IslandCardState::Flooded by {
            let card = wet[k];
            assert(wet.contains(card));
            self.cells.lemma_filter_contains_rev(flooded, card);
            let at = choose|at: int| 0 <= at < self.cells.len() && self.cells[at] == card;
            assert(self.slots[self.cells[at].name.spec_index() as int] == at);
        }
        if self.has_shorable() {
            let at = choose|at: int|
                0 <= at < self.cells.len() && (#[trigger] self.cells[at]).state
                    == IslandCardState::Flooded;
            self.cells.lemma_filter_contains(flooded, at);
        }
    }
}

impl GameView {
    // ----- discarding -----
    /// The game after the adventurer at `seat` has discarded the card at
    /// position `card` of its hand.
    pub open spec fn discard_from(self, seat: int, card: int) -> GameView {
        GameView {
            adventurers: self.adventurers.update(
                seat,
                AdventurerView {
                    hand: self.adventurers[seat].hand.remove(card),
                    ..self.adventurers[seat]
                },
            ),
            treasure_discard: self.treasure_discard.push(self.adventurers[seat].hand[card]),
            ..self
        }
    }

    // ----- the sandbag -----
    /// The text that offers to shore up tile `name`.
    pub open spec fn sandbag_label(name: IslandCardName) -> Seq<char> {
        "Shore up "@ + name.spec_name()
    }

    // ----- playing a special card -----
    /// Whether `card` can be played now: a helicopter lift always, a
    /// sandbag while a tile is flooded.
    pub open spec fn playable(self, card: TreasureCard) -> bool {
        card.treasure_type == TreasureCardType::HelicopterLift || (card.treasure_type
            == TreasureCardType::Sandbag && self.board.has_shorable())
    }

    /// Whether the card at position `card` of `hand` can be played now.
    pub open spec fn playable_at(self, hand: Seq<TreasureCard>, card: usize) -> bool {
        self.playable(hand[card as int])
    }

    /// The play of the card at position `card` of the hand of the adventurer
    /// at `seat`.
    pub open spec fn play_of(self, seat: usize, card: usize) -> Play {
        (seat, card, special_of(self.adventurers[seat as int].hand[card as int]))
    }

    /// The special cards that the adventurer at `seat` can play now, in the
    /// order of its hand.
    pub open spec fn plays_by(self, seat: usize) -> Seq<Play> {
        positions(self.adventurers[seat as int].hand.len()).filter(
            |card: usize| self.playable_at(self.adventurers[seat as int].hand, card),
        ).map_values(|card: usize| self.play_of(seat, card))
    }

    /// The special cards that can be played now, adventurer by adventurer in
    /// the order of the roster.
    pub open spec fn play_options(self) -> Seq<Play> {
        positions(self.adventurers.len()).flat_map(|seat: usize| self.plays_by(seat))
    }

    /// The text that offers the play `option`.
    pub open spec fn play_label(self, option: Play) -> Seq<char> {
        "Play "@ + self.adventurers[option.0 as int].role.spec_name() + "'s "@
            + self.adventurers[option.0 as int].hand[option.1 as int].treasure_type.spec_name()
            + " card"@
    }

    /// Whether `option` names a special card that is held and can be played.
    pub open spec fn is_play(self, option: Play) -> bool {
        &&& option.0 < self.adventurers.len()
        &&& option.1 < self.adventurers[option.0 as int].hand.len()
        &&& option.2 == special_of(self.adventurers[option.0 as int].hand[option.1 as int])
        &&& self.playable(self.adventurers[option.0 as int].hand[option.1 as int])
    }

    // ----- discarding down to the hand limit -----
    /// The ways to get rid of the card at position `card` of `hand`: to use
    /// it, where it is a special card that can be played now, and to
    /// discard it.
    pub open spec fn discards_of(self, hand: Seq<TreasureCard>, card: usize) -> Seq<(usize, bool)> {
        if self.playable(hand[card as int]) {
            seq![(card, true), (card, false)]
        } else {
            seq![(card, false)]
        }
    }

    /// The ways in which the adventurer at `who` can get rid of a card,
    /// card by card in the order of its hand: the position of the card, and
    /// whether it is used.
    pub open spec fn discard_options(self, who: int) -> Seq<(usize, bool)> {
        positions(self.adventurers[who].hand.len()).flat_map(
            |card: usize| self.discards_of(self.adventurers[who].hand, card),
        )
    }

    /// The text that offers the way `option` to get rid of a card of the
    /// adventurer at `who`.
    pub open spec fn discard_label(self, who: int, option: (usize, bool)) -> Seq<char> {
        (if option.1 {
            "Use "@
        } else {
            "Discard "@
        }) + self.adventurers[who].hand[option.0 as int].treasure_type.spec_name() + " card"@
    }

    /// Whether `option` names a card of the hand of the adventurer at `who`
    /// and uses it only where it can be played.
    pub open spec fn is_discard(self, who: int, option: (usize, bool)) -> bool {
        &&& option.0 < self.adventurers[who].hand.len()
        &&& option.1 ==> self.playable(self.adventurers[who].hand[option.0 as int])
    }
}

impl Game {
    /// Moves the card at position `card` of the hand of the adventurer at
    /// `seat` to the discard pile.
    pub fn discard_from(&mut self, seat: usize, card: usize)
        requires
            old(self)@.wf(),
            seat < old(self)@.adventurers.len(),
            card < old(self)@.adventurers[seat as int].hand.len(),
        ensures
            final(self)@ == old(self)@.discard_from(seat as int, card as int),
            final(self)@.wf(),
            final(self)@.acted_from(old(self)@),
            cards_in_hands(final(self)@.adventurers) + 1 == cards_in_hands(old(self)@.adventurers),
    {
        let ghost before = self@;
        assert(self@.adventurers[seat as int] == self.adventurers@[seat as int]@);
        let dropped = self.adventurers[seat].remove_card(card);
        self.treasure_discard_deck.insert(dropped);
        proof {
            let after = before.discard_from(seat as int, card as int);
            assert(self@.adventurers =~= after.adventurers);
            lemma_cards_in_hands_update(before.adventurers, seat as int, after.adventurers[seat as int]);
            let hand = before.adventurers[seat as int].hand;
            vstd::seq_lib::to_multiset_remove(hand, card as int);
            hand.to_multiset_ensures();
            assert(hand.contains(dropped));
            vstd::seq_lib::to_multiset_build(before.treasure_discard, dropped);
            assert forall|other: TreasureCard|
                self@.all_treasure_cards().count(other) == before.all_treasure_cards().count(
                    other,
                ) by {
                super::model::lemma_cards_held_count(
                    before.adventurers,
                    seat as int,
                    after.adventurers[seat as int],
                    other,
                );
            }
            assert(self@.all_treasure_cards() =~= before.all_treasure_cards());
        }
    }

    /// The special card "sandbag": one of the flooded tiles is shored up.
    /// A single tile is shored up without asking.
    pub fn sandbag<C: Chooser>(&mut self, chooser: &mut C)
        requires
            old(self)@.wf(),
            old(self)@.board.has_shorable(),
        ensures
            final(self)@.wf(),
            final(self)@.acted_from(old(self)@),
            cards_in_hands(final(self)@.adventurers) == cards_in_hands(old(self)@.adventurers),
            final(self)@.sandbagged_by(old(self)@, *old(chooser), *final(chooser)),
    {
        let shorable = self.board.get_shorable();
        proof {
            self@.board.lemma_shorable();
        }
        let mut labels: Vec<String> = Vec::new();
        let mut i: usize = 0;
        while i < shorable.len()
            invariant
                i <= shorable@.len(),
                labels@.len() == i,
                forall|k: int|
                    0 <= k < i ==> (#[trigger] labels@[k])@ == GameView::sandbag_label(shorable@[k]),
            decreases shorable@.len() - i,
        {
            let mut text = String::from_str("Shore up ");
            text.append(shorable[i].name().as_str());
            labels.push(text);
            i += 1;
        }
        assert(texts(labels@) =~= self@.sandbag_labels());
        let choice = settle(chooser, Action::Sandbag, &labels);
        let place = self.board.get_location(&shorable[choice]);
        proof {
            lemma_island_coords();
            lemma_index_round_trip(shorable@[choice as int], 0);
            self@.lemma_shore_up_acts(place);
        }
        self.apply_shore_up(&place);
        assert(self@ == old(self)@.apply_shore_up(
            old(self)@.board.location(old(self)@.board.shorable()[choice as int]),
        ));
    }

    /// Whether `card` can be played now.
    pub fn playable(&self, card: &TreasureCard) -> (able: bool)
        ensures
            able == self@.playable(*card),
    {
        card.treasure_type == TreasureCardType::HelicopterLift || (card.treasure_type
            == TreasureCardType::Sandbag && self.board.has_shorable())
    }

    /// The special cards that can be played now.
    pub fn play_options(&self) -> (options: Vec<(usize, usize, SpecialActionType)>)
        ensures
            options@ == self@.play_options(),
            forall|k: int| 0 <= k < options@.len() ==> self@.is_play(#[trigger] options@[k]),
    {
        let ghost seats = positions(self@.adventurers.len());
        let ghost by_seat = |seat: usize| self@.plays_by(seat);
        let mut options: Vec<(usize, usize, SpecialActionType)> = Vec::new();
        let mut seat: usize = 0;
        proof {
            super::model::lemma_flat_map_of_none(seats, by_seat);
        }
        while seat < self.adventurers.len()
            invariant
                seat <= self.adventurers@.len(),
                seats == positions(self@.adventurers.len()),
                by_seat == |seat: usize| self@.plays_by(seat),
                options@ == seats.take(seat as int).flat_map(by_seat),
                forall|k: int| 0 <= k < options@.len() ==> self@.is_play(#[trigger] options@[k]),
            decreases self.adventurers@.len() - seat,
        {
            let holder = &self.adventurers[seat];
            assert(self@.adventurers[seat as int] == holder@);
            let ghost before = options@;
            let ghost cards = positions(holder@.hand.len());
            let ghost able = |card: usize| self@.playable_at(holder@.hand, card);
            let ghost play = |card: usize| self@.play_of(seat, card);
            let mut card: usize = 0;
            while card < holder.hand.len()
                invariant
                    card <= holder@.hand.len(),
                    seat < self@.adventurers.len(),
                    self@.adventurers[seat as int] == holder@,
                    cards == positions(holder@.hand.len()),
                    able == |card: usize| self@.playable_at(holder@.hand, card),
                    play == |card: usize| self@.play_of(seat, card),
                    options@ == before + cards.take(card as int).filter(able).map_values(play),
                    forall|k: int| 0 <= k < options@.len() ==> self@.is_play(#[trigger] options@[k]),
                decreases holder@.hand.len() - card,
            {
                broadcast use
                    Seq::lemma_take_succ_push,
                    Seq::lemma_filter_push,
                    Seq::lemma_push_map_commute,
                ;

                let held = holder.hand.cards[card];
                assert(cards[card as int] == card);
                if self.playable(&held) {
                    let special = if held.treasure_type == TreasureCardType::Sandbag {
                        SpecialActionType::Sandbag
                    } else {
                        SpecialActionType::HelicopterLift
                    };
                    options.push((seat, card, special));
                }
                assert(options@ =~= before + cards.take(card + 1).filter(able).map_values(play));
                card += 1;
            }
            proof {
                assert(cards.take(card as int) =~= cards);
                assert(seats[seat as int] == seat);
                assert(seats.take(seat + 1) =~= seats.take(seat as int).push(seat));
                seats.take(seat as int).lemma_flat_map_push(by_seat, seat);
            }
            seat += 1;
        }
        assert(seats.take(seat as int) =~= seats);
        options
    }

    /// Whether a special card can be played now.
    pub fn can_play_special(&self) -> (able: bool)
        ensures
            able == (self@.play_options().len() > 0),
    {
        !self.play_options().is_empty()
    }

    /// Carries out the special action `special`.
    pub fn special_action<C: Chooser>(&mut self, special: SpecialActionType, chooser: &mut C)
        requires
            old(self)@.wf(),
            special == SpecialActionType::Sandbag ==> old(self)@.board.has_shorable(),
        ensures
            final(self)@.wf(),
            final(self)@.acted_from(old(self)@),
            cards_in_hands(final(self)@.adventurers) == cards_in_hands(old(self)@.adventurers),
            final(self)@.special_by(old(self)@, special, *old(chooser), *final(chooser)),
    {
        match special {
            SpecialActionType::Sandbag => self.sandbag(chooser),
            SpecialActionType::HelicopterLift => self.helicopter_lift(chooser),
        }
    }

    /// Plays a special card: one of the special cards that can be played
    /// goes from its holder's hand to the discard pile, and its action is
    /// carried out.  A single card is played without asking.
    pub fn play_action_card<C: Chooser>(&mut self, chooser: &mut C)
        requires
            old(self)@.wf(),
            old(self)@.play_options().len() > 0,
        ensures
            final(self)@.wf(),
            final(self)@.acted_from(old(self)@),
            cards_in_hands(final(self)@.adventurers) + 1 == cards_in_hands(old(self)@.adventurers),
            final(self)@.played_by(old(self)@, *old(chooser), *final(chooser)),
    {
        let options = self.play_options();
        let mut labels: Vec<String> = Vec::new();
        let mut i: usize = 0;
        while i < options.len()
            invariant
                i <= options@.len(),
                forall|k: int| 0 <= k < options@.len() ==> self@.is_play(#[trigger] options@[k]),
                labels@.len() == i,
                forall|k: int| 0 <= k < i ==> (#[trigger] labels@[k])@ == self@.play_label(options@[k]),
            decreases options@.len() - i,
        {
            let (seat, card, _) = options[i];
            assert(self@.is_play(options@[i as int]));
            assert(self@.adventurers[seat as int] == self.adventurers@[seat as int]@);
            let mut text = String::from_str("Play ");
            text.append(self.adventurers[seat].card.name().as_str());
            text.append("'s ");
            text.append(self.adventurers[seat].hand.cards[card].treasure_type.get_name().as_str());
            text.append(" card");
            labels.push(text);
            i += 1;
        }
        assert(texts(labels@) =~= self@.play_labels());
        let choice = settle(chooser, Action::PlayActionCard, &labels);
        let ghost then = *chooser;
        let (seat, card, special) = options[choice];
        assert(self@.is_play(options@[choice as int]));
        self.discard_from(seat, card);
        self.special_action(special, chooser);
        assert(settled(
            *old(chooser),
            then,
            Action::PlayActionCard,
            old(self)@.play_labels(),
            choice as int,
        ) && self@.special_by(
            old(self)@.discard_from(
                old(self)@.play_options()[choice as int].0 as int,
                old(self)@.play_options()[choice as int].1 as int,
            ),
            old(self)@.play_options()[choice as int].2,
            then,
            *chooser,
        ));
    }

    /// The ways in which the adventurer at position `who` of the roster can
    /// get rid of a card.
    pub fn discard_options(&self, who: usize) -> (options: Vec<(usize, bool)>)
        requires
            who < self@.adventurers.len(),
        ensures
            options@ == self@.discard_options(who as int),
            forall|k: int|
                0 <= k < options@.len() ==> self@.is_discard(who as int, #[trigger] options@[k]),
            options@.len() >= self@.adventurers[who as int].hand.len(),
    {
        let owner = &self.adventurers[who];
        assert(self@.adventurers[who as int] == owner@);
        let ghost cards = positions(owner@.hand.len());
        let ghost ways = |card: usize| self@.discards_of(owner@.hand, card);
        let mut options: Vec<(usize, bool)> = Vec::new();
        let mut card: usize = 0;
        proof {
            super::model::lemma_flat_map_of_none(cards, ways);
        }
        while card < owner.hand.len()
            invariant
                card <= owner@.hand.len(),
                self@.adventurers[who as int] == owner@,
                cards == positions(owner@.hand.len()),
                ways == |card: usize| self@.discards_of(owner@.hand, card),
                options@ == cards.take(card as int).flat_map(ways),
                forall|k: int|
                    0 <= k < options@.len() ==> self@.is_discard(who as int, #[trigger] options@[k]),
                options@.len() >= card,
            decreases owner@.hand.len() - card,
        {
            let ghost before = options@;
            if self.playable(&owner.hand.cards[card]) {
                options.push((card, true));
            }
            options.push((card, false));
            proof {
                assert(cards[card as int] == card);
                assert(options@ =~= before + ways(card));
                assert(cards.take(card + 1) =~= cards.take(card as int).push(card));
                cards.take(card as int).lemma_flat_map_push(ways, card);
            }
            card += 1;
        }
        assert(cards.take(card as int) =~= cards);
        options
    }

    /// Makes the adventurer at position `who` of the roster get rid of one
    /// card: it goes to the discard pile, and where it is a special card
    /// that is used rather than discarded, its action is carried out.  A
    /// single way is taken without asking.
    pub fn discard_cards<C: Chooser>(&mut self, who: usize, chooser: &mut C)
        requires
            old(self)@.wf(),
            who < old(self)@.adventurers.len(),
            old(self)@.adventurers[who as int].hand.len() > 0,
        ensures
            final(self)@.wf(),
            final(self)@.acted_from(old(self)@),
            final(self)@.adventurers[who as int].hand.len() + 1 == old(self)@.adventurers[who as int].hand.len(),
            final(self)@.discarded_by(old(self)@, who as int, *old(chooser), *final(chooser)),
    {
        let options = self.discard_options(who);
        let mut labels: Vec<String> = Vec::new();
        let mut i: usize = 0;
        while i < options.len()
            invariant
                i <= options@.len(),
                who < self@.adventurers.len(),
                forall|k: int|
                    0 <= k < options@.len() ==> self@.is_discard(who as int, #[trigger] options@[k]),
                labels@.len() == i,
                forall|k: int|
                    0 <= k < i ==> (#[trigger] labels@[k])@ == self@.discard_label(
                        who as int,
                        options@[k],
                    ),
            decreases options@.len() - i,
        {
            let (card, used) = options[i];
            assert(self@.is_discard(who as int, options@[i as int]));
            assert(self@.adventurers[who as int] == self.adventurers@[who as int]@);
            let mut text = if used {
                String::from_str("Use ")
            } else {
                String::from_str("Discard ")
            };
            text.append(self.adventurers[who].hand.cards[card].treasure_type.get_name().as_str());
            text.append(" card");
            labels.push(text);
            i += 1;
        }
        assert(texts(labels@) =~= self@.discard_labels(who as int));
        let choice = settle(chooser, Action::DiscardCards, &labels);
        let ghost then = *chooser;
        let (card, used) = options[choice];
        assert(self@.is_discard(who as int, options@[choice as int]));
        assert(self@.adventurers[who as int] == self.adventurers@[who as int]@);
        let held = self.adventurers[who].hand.cards[card];
        self.discard_from(who, card);
        if used {
            let special = if held.treasure_type == TreasureCardType::Sandbag {
                SpecialActionType::Sandbag
            } else {
                SpecialActionType::HelicopterLift
            };
            self.special_action(special, chooser);
        }
        assert(settled(
            *old(chooser),
            then,
            Action::DiscardCards,
            old(self)@.discard_labels(who as int),
            choice as int,
        ) && self@.discarded_in(
            old(self)@,
            who as int,
            old(self)@.discard_options(who as int)[choice as int],
            then,
            *chooser,
        ));
    }
}

impl GameView {
    // ----- the decisions about special cards and discards -----
    /// The flooded tiles, as text.
    pub open spec fn sandbag_labels(self) -> Seq<Seq<char>> {
        self.board.shorable().map_values(|name: IslandCardName| Self::sandbag_label(name))
    }

    /// Whether the game is `self` after a sandbag played in `before`,
    /// decided by a source that went from `source` to `after`: the decision
    /// among the flooded tiles is settled, and the tile settled on is
    /// shored up.
    pub open spec fn sandbagged_by<C: Chooser>(self, before: GameView, source: C, after: C) -> bool {
        exists|k: int|
            #![trigger before.board.shorable()[k]]
            0 <= k < before.board.shorable().len() && settled(
                source,
                after,
                Action::Sandbag,
                before.sandbag_labels(),
                k,
            ) && self == before.apply_shore_up(before.board.location(before.board.shorable()[k]))
    }

    /// Whether the game is `self` after the special action `special`
    /// carried out in `before`, decided by a source that went from `source`
    /// to `after`.
    pub open spec fn special_by<C: Chooser>(
        self,
        before: GameView,
        special: SpecialActionType,
        source: C,
        after: C,
    ) -> bool {
        match special {
            SpecialActionType::Sandbag => self.sandbagged_by(before, source, after),
            SpecialActionType::HelicopterLift => self.lifted_by(before, source, after),
        }
    }

    /// The special cards that can be played, as text.
    pub open spec fn play_labels(self) -> Seq<Seq<char>> {
        self.play_options().map_values(|option: Play| self.play_label(option))
    }

    /// Whether the game is `self` after a special card was played in
    /// `before`, decided by a source that went from `source` to `after`: the
    /// decision among the cards that can be played is settled, the card
    /// settled on goes to the discard pile, and its action is carried out.
    pub open spec fn played_by<C: Chooser>(self, before: GameView, source: C, after: C) -> bool {
        exists|k: int, then: C|
            #![trigger settled(source, then, Action::PlayActionCard, before.play_labels(), k)]
            0 <= k < before.play_options().len() && settled(
                source,
                then,
                Action::PlayActionCard,
                before.play_labels(),
                k,
            ) && self.special_by(
                before.discard_from(
                    before.play_options()[k].0 as int,
                    before.play_options()[k].1 as int,
                ),
                before.play_options()[k].2,
                then,
                after,
            )
    }

    /// The ways in which the adventurer at `who` can get rid of a card, as
    /// text.
    pub open spec fn discard_labels(self, who: int) -> Seq<Seq<char>> {
        self.discard_options(who).map_values(
            |option: (usize, bool)| self.discard_label(who, option),
        )
    }

    /// Whether the game is `self` after the adventurer at `who` got rid of a
    /// card in the way `option` in `before`, with a source that went from
    /// `source` to `after`: the card goes to the discard pile, and where it
    /// is used, its action is carried out.
    pub open spec fn discarded_in<C: Chooser>(
        self,
        before: GameView,
        who: int,
        option: (usize, bool),
        source: C,
        after: C,
    ) -> bool {
        if option.1 {
            self.special_by(
                before.discard_from(who, option.0 as int),
                special_of(before.adventurers[who].hand[option.0 as int]),
                source,
                after,
            )
        } else {
            self == before.discard_from(who, option.0 as int) && after == source
        }
    }

    /// Whether the game is `self` after the adventurer at `who` got rid of a
    /// card in `before`, decided by a source that went from `source` to
    /// `after`: the decision among the ways to do so is settled, and the way
    /// settled on is taken.
    pub open spec fn discarded_by<C: Chooser>(
        self,
        before: GameView,
        who: int,
        source: C,
        after: C,
    ) -> bool {
        exists|k: int, then: C|
            #![trigger settled(source, then, Action::DiscardCards, before.discard_labels(who), k)]
            0 <= k < before.discard_options(who).len() && settled(
                source,
                then,
                Action::DiscardCards,
                before.discard_labels(who),
                k,
            ) && self.discarded_in(before, who, before.discard_options(who)[k], then, after)
    }
}

} // verus!
