//! The actions of a turn: move, shore up, give a card, capture a treasure.

use vstd::prelude::*;
use vstd::string::*;

use super::chooser::{ask, asked, settle, settled, texts, Chooser};
use super::listing::first_of_each;
use super::model::{
    classify, count_card, first_copies, lemma_cards_held_count, lemma_cards_held_same,
    lemma_cards_in_hands_same, lemma_cards_in_hands_update, lemma_hand_within_total, target,
    treasure_card, without_first,
};
use super::movement::distance;
use super::moves::{Action, MoveType};
use super::{Game, GameView};
use crate::structs::board::valid_coord;
use crate::structs::cards::adventurer::{Adventurer, AdventurerCardType, AdventurerView};
use crate::structs::cards::island::IslandCardState;
use crate::structs::cards::treasure::{TreasureCard, TreasureCardType, TreasureType};
use crate::structs::cards::Deck;

verus! {

impl Game {
    /// The position in the roster of the adventurer of role `role`.
    pub fn find_adventurer(&self, role: &AdventurerCardType) -> (index: Option<usize>)
        ensures
            match index {
                Some(i) => i < self@.adventurers.len() && self@.adventurers[i as int].role == *role,
                None => forall|i: int|
                    0 <= i < self@.adventurers.len() ==> (#[trigger] self@.adventurers[i]).role
                        != *role,
            },
    {
        let mut i: usize = 0;
        while i < self.adventurers.len()
            invariant
                i <= self.adventurers@.len(),
                forall|j: int| 0 <= j < i ==> (#[trigger] self@.adventurers[j]).role != *role,
            decreases self.adventurers@.len() - i,
        {
            if self.adventurers[i].card == *role {
                return Some(i);
            }
            i += 1;
        }
        None
    }

    /// The adventurer of role `adventurer_type`, if it takes part.
    pub fn get_adventurer(&self, adventurer_type: &AdventurerCardType) -> (adventurer: Option<
        &Adventurer,
    >)
        ensures
            match adventurer {
                Some(a) => a@.role == *adventurer_type && self@.adventurers.contains(a@),
                None => forall|i: int|
                    0 <= i < self@.adventurers.len() ==> (#[trigger] self@.adventurers[i]).role
                        != *adventurer_type,
            },
    {
        match self.find_adventurer(adventurer_type) {
            Some(i) => {
                assert(self@.adventurers[i as int] == self.adventurers@[i as int]@);
                Some(&self.adventurers[i])
            },
            None => None,
        }
    }

    /// The adventurer of role `adventurer_type`, if it takes part, to be
    /// changed in place.
    pub fn get_adventurer_mut(&mut self, adventurer_type: &AdventurerCardType) -> (adventurer: Option<
        &mut Adventurer,
    >)
        ensures
            match adventurer {
                Some(a) => a@.role == *adventurer_type && exists|i: int|
                    0 <= i < old(self).adventurers@.len() && *a == #[trigger] old(
                        self,
                    ).adventurers@[i] && final(self).adventurers@ == old(self).adventurers@.update(
                        i,
                        *final(a),
                    ),
                None => final(self)@ == old(self)@ && forall|i: int|
                    0 <= i < old(self)@.adventurers.len() ==> (#[trigger] old(
                        self,
                    )@.adventurers[i]).role != *adventurer_type,
            },
    {
        match self.find_adventurer(adventurer_type) {
            Some(i) => {
                assert(self@.adventurers[i as int] == self.adventurers@[i as int]@);
                Some(&mut self.adventurers[i])
            },
            None => None,
        }
    }

    /// The moves on offer to the adventurer at position `who` of the roster.
    pub fn move_options(&self, who: usize) -> (options: Vec<MoveType>)
        requires
            self@.wf(),
            who < self@.adventurers.len(),
        ensures
            options@ == self@.move_options(who as int),
    {
        let actor = &self.adventurers[who];
        assert(self@.adventurers[who as int] == actor@);
        let places = self.get_moves(actor);
        let ghost kind = |to: (usize, usize)| classify(actor@, to);
        assert forall|k: int| 0 <= k < places@.len() implies valid_coord(#[trigger] places@[k]) by {
            broadcast use Seq::lemma_filter_pred;

        }
        let mut options: Vec<MoveType> = Vec::new();
        let mut i: usize = 0;
        while i < places.len()
            invariant
                i <= places@.len(),
                valid_coord(actor@.pos),
                forall|k: int| 0 <= k < places@.len() ==> valid_coord(#[trigger] places@[k]),
                kind == |to: (usize, usize)| classify(actor@, to),
                options@ == places@.take(i as int).map_values(kind),
            decreases places@.len() - i,
        {
            broadcast use Seq::lemma_take_succ_push, Seq::lemma_push_map_commute;

            let to = places[i];
            if actor.card == AdventurerCardType::Pilot && distance(&actor.pos, &to) > 1 {
                options.push(MoveType::PilotMove(to));
            } else {
                options.push(MoveType::Move(to));
            }
            i += 1;
        }
        assert(places@.take(i as int) =~= places@);
        if actor.card == AdventurerCardType::Navigator {
            let ghost own = options@;
            let ghost sent = |a: AdventurerView| self@.sent_moves(a);
            let mut j: usize = 0;
            while j < self.adventurers.len()
                invariant
                    j <= self.adventurers@.len(),
                    self@.wf(),
                    sent == |a: AdventurerView| self@.sent_moves(a),
                    options@ == own + self@.adventurers.take(j as int).flat_map(sent),
                decreases self.adventurers@.len() - j,
            {
                let other = &self.adventurers[j];
                assert(self@.adventurers[j as int] == other@);
                let ghost before = options@;
                if other.card != AdventurerCardType::Navigator {
                    let reach = self.get_moves(other);
                    let ghost send = |to: (usize, usize)| MoveType::NavigatorMove(other@.role, to);
                    let mut k: usize = 0;
                    while k < reach.len()
                        invariant
                            k <= reach@.len(),
                            send == |to: (usize, usize)| MoveType::NavigatorMove(other@.role, to),
                            options@ == before + reach@.take(k as int).map_values(send),
                        decreases reach@.len() - k,
                    {
                        broadcast use Seq::lemma_take_succ_push, Seq::lemma_push_map_commute;

                        options.push(MoveType::NavigatorMove(other.card, reach[k]));
                        assert(options@ =~= before + reach@.take(k + 1).map_values(send));
                        k += 1;
                    }
                    assert(reach@.take(k as int) =~= reach@);
                }
                proof {
                    let seen = self@.adventurers.take(j as int);
                    assert(self@.adventurers[j as int] == other@);
                    assert(self@.adventurers.take(j + 1) =~= seen.push(other@));
                    seen.lemma_flat_map_push(sent, other@);
                    assert(options@ =~= own + self@.adventurers.take(j + 1).flat_map(sent));
                }
                j += 1;
            }
            assert(self@.adventurers.take(j as int) =~= self@.adventurers);
        } else {
            assert(options@ =~= self@.move_options(who as int));
        }
        options
    }
}

impl Game {
    /// The name of the tile at `coord`; no text for a place without a tile.
    pub fn place_name(&self, coord: &(usize, usize)) -> (text: String)
        requires
            self@.board.wf(),
        ensures
            text@ == self@.place_name(*coord),
    {
        match self.board.get_card(coord) {
            Some(tile) => tile.name.name(),
            None => String::new(),
        }
    }

    /// The text that offers the move `option` to the adventurer at `who`.
    pub fn move_label(&self, who: usize, option: &MoveType) -> (text: String)
        requires
            self@.board.wf(),
            who < self@.adventurers.len(),
        ensures
            text@ == self@.move_label(who as int, *option),
    {
        assert(self@.adventurers[who as int] == self.adventurers@[who as int]@);
        match option {
            MoveType::Move(to) => {
                let mut text = String::from_str("Move ");
                text.append(self.adventurers[who].card.name().as_str());
                text.append(" to ");
                text.append(self.place_name(to).as_str());
                text
            },
            MoveType::PilotMove(to) => {
                let mut text = String::from_str("Use Pilot skill to move to ");
                text.append(self.place_name(to).as_str());
                text
            },
            MoveType::NavigatorMove(role, to) => {
                let mut text = String::from_str("Move ");
                text.append(role.name().as_str());
                text.append(" to ");
                text.append(self.place_name(to).as_str());
                text
            },
        }
    }

    /// Puts the adventurer at position `who` of the roster on the place `to`.
    pub fn place(&mut self, who: usize, to: (usize, usize))
        requires
            old(self)@.wf(),
            who < old(self)@.adventurers.len(),
            valid_coord(to),
        ensures
            final(self)@ == old(self)@.with_pos(old(self)@.adventurers[who as int].role, to),
            final(self)@.wf(),
    {
        let ghost before = self@;
        self.adventurers[who].move_to(to);
        proof {
            let after = before.with_pos(before.adventurers[who as int].role, to);
            assert(self@.adventurers =~= after.adventurers);
            lemma_cards_in_hands_same(before.adventurers, self@.adventurers);
            lemma_cards_held_same(before.adventurers, self@.adventurers);
        }
    }

    /// Carries out the move `option` for the adventurer at position `who`.
    pub fn apply_move(&mut self, who: usize, option: MoveType)
        requires
            old(self)@.wf(),
            who < old(self)@.adventurers.len(),
            valid_coord(target(option)),
        ensures
            final(self)@ == old(self)@.apply_move(who as int, option),
            final(self)@.wf(),
    {
        match option {
            MoveType::Move(to) => {
                self.place(who, to);
            },
            MoveType::PilotMove(to) => {
                self.place(who, to);
                self.used_pilot_move = true;
            },
            MoveType::NavigatorMove(role, to) => {
                match self.find_adventurer(&role) {
                    Some(other) => {
                        self.place(other, to);
                    },
                    None => {
                        assert(self@.adventurers =~= self@.with_pos(role, to).adventurers);
                    },
                }
            },
        }
    }

    /// The action "move": the adventurer at position `who` of the roster,
    /// or for the navigator another adventurer, makes one of the moves on
    /// offer.  A single move is made without asking.
    pub fn move_adventurer<C: Chooser>(&mut self, who: usize, chooser: &mut C)
        requires
            old(self)@.wf(),
            who < old(self)@.adventurers.len(),
            old(self)@.move_options(who as int).len() > 0,
        ensures
            final(self)@.wf(),
            final(self)@.acted_from(old(self)@),
            final(self)@.moved_by(old(self)@, who as int, *old(chooser), *final(chooser)),
    {
        let options = self.move_options(who);
        let mut labels: Vec<String> = Vec::new();
        let mut i: usize = 0;
        while i < options.len()
            invariant
                i <= options@.len(),
                self@.board.wf(),
                who < self@.adventurers.len(),
                labels@.len() == i,
                forall|k: int|
                    0 <= k < i ==> (#[trigger] labels@[k])@ == self@.move_label(
                        who as int,
                        options@[k],
                    ),
            decreases options@.len() - i,
        {
            labels.push(self.move_label(who, &options[i]));
            i += 1;
        }
        assert(texts(labels@) =~= self@.move_labels(who as int));
        let choice = settle(chooser, Action::Move, &labels);
        proof {
            self@.lemma_move_options_are_valid(who as int);
            self@.lemma_move_acts(who as int, options@[choice as int]);
        }
        self.apply_move(who, options[choice]);
        assert(self@ == old(self)@.apply_move(
            who as int,
            old(self)@.move_options(who as int)[choice as int],
        ));
    }
}

impl Game {
    /// Shores up the flooded tile at `coord`.
    pub fn apply_shore_up(&mut self, coord: &(usize, usize))
        requires
            old(self)@.wf(),
            old(self)@.board.is_at(*coord, IslandCardState::Flooded),
        ensures
            final(self)@ == old(self)@.apply_shore_up(*coord),
            final(self)@.wf(),
    {
        let ghost before = self@;
        self.board.shore_up(coord);
        proof {
            let slot = crate::structs::board::spec_slot(*coord);
            before.board.lemma_sunk_among_update(slot, before.board.cells[slot].spec_raise(), 24);
            assert(self@.flood_pile() == before.flood_pile());
            assert forall|name: crate::structs::cards::island::IslandCardName| #[trigger]
                self@.flood_pile().contains(
                    crate::structs::cards::flood::FloodCard { island_card: name },
                ) <==> self@.board.card(name).state != IslandCardState::Sunk by {
                assert(before.flood_pile().contains(
                    crate::structs::cards::flood::FloodCard { island_card: name },
                ) <==> before.board.card(name).state != IslandCardState::Sunk);
                crate::structs::cards::island::lemma_index_round_trip(name, 0);
            }
        }
    }

    /// One shoring up by the adventurer at position `who` of the roster, on
    /// one of the flooded tiles in its reach.  A single tile is shored up
    /// without asking.
    pub fn shore_up_sub<C: Chooser>(&mut self, who: usize, chooser: &mut C)
        requires
            old(self)@.wf(),
            who < old(self)@.adventurers.len(),
            old(self)@.shore_options(who as int).len() > 0,
        ensures
            final(self)@.wf(),
            final(self)@.acted_from(old(self)@),
            final(self)@.shored_once_by(old(self)@, who as int, *old(chooser), *final(chooser)),
    {
        assert(self@.adventurers[who as int] == self.adventurers@[who as int]@);
        let options = self.get_shorable_by_adventurer(
            &self.adventurers[who].card,
            &self.adventurers[who].pos,
        );
        let mut labels: Vec<String> = Vec::new();
        let mut i: usize = 0;
        while i < options.len()
            invariant
                i <= options@.len(),
                self@.board.wf(),
                labels@.len() == i,
                forall|k: int|
                    0 <= k < i ==> (#[trigger] labels@[k])@ == self@.shore_label(options@[k]),
            decreases options@.len() - i,
        {
            let mut text = String::from_str("Shore up ");
            text.append(self.place_name(&options[i]).as_str());
            labels.push(text);
            i += 1;
        }
        assert(texts(labels@) =~= self@.shore_labels(who as int));
        let choice = settle(chooser, Action::ShoreUp, &labels);
        proof {
            self@.lemma_shorable_is_flooded(
                self@.adventurers[who as int].role,
                self@.adventurers[who as int].pos,
            );
            self@.lemma_shore_up_acts(options@[choice as int]);
        }
        self.apply_shore_up(&options[choice]);
        assert(self@ == old(self)@.apply_shore_up(
            old(self)@.shore_options(who as int)[choice as int],
        ));
    }

    /// The action "shore up": the adventurer at position `who` shores up a
    /// tile; the engineer may then shore up a second one, if one is in
    /// reach, as part of the same action.
    pub fn shore_up<C: Chooser>(&mut self, who: usize, chooser: &mut C)
        requires
            old(self)@.wf(),
            who < old(self)@.adventurers.len(),
            old(self)@.shore_options(who as int).len() > 0,
        ensures
            final(self)@.wf(),
            final(self)@.acted_from(old(self)@),
            final(self)@.shored_up_by(old(self)@, who as int, *old(chooser), *final(chooser)),
    {
        self.shore_up_sub(who, chooser);
        let ghost once = self@;
        let ghost then = *chooser;
        assert(self@.adventurers[who as int] == self.adventurers@[who as int]@);
        if self.adventurers[who].card == AdventurerCardType::Engineer && self.can_shore_up(
            &self.adventurers[who].card,
            &self.adventurers[who].pos,
        ) {
            let mut labels: Vec<String> = Vec::new();
            labels.push(String::from_str("Use engineer skill to shore up another tile"));
            labels.push(String::from_str("End action"));
            assert(texts(labels@) =~= GameView::engineer_labels());
            let choice = ask(chooser, Action::ShoreUp, &labels);
            let ghost answered = *chooser;
            if choice == 0 {
                self.shore_up_sub(who, chooser);
            }
            assert(asked(then, answered, Action::ShoreUp, GameView::engineer_labels(), choice as int));
            assert(self@.followed_by(once, who as int, then, *chooser));
        }
        assert(once.shored_once_by(old(self)@, who as int, *old(chooser), then));
    }
}

impl Game {
    /// The gifts on offer to the adventurer at position `who` of the roster.
    pub fn give_options(&self, who: usize) -> (options: Vec<(usize, AdventurerCardType)>)
        requires
            who < self@.adventurers.len(),
        ensures
            options@ == self@.give_options(who as int),
    {
        let giver = &self.adventurers[who];
        assert(self@.adventurers[who as int] == giver@);
        let ghost code = |card: TreasureCard| card.treasure_type.spec_code();
        let mut codes: Vec<u8> = Vec::new();
        let mut c: usize = 0;
        while c < giver.hand.len()
            invariant
                c <= giver.hand@.len(),
                code == |card: TreasureCard| card.treasure_type.spec_code(),
                codes@ == giver.hand@.take(c as int).map_values(code),
            decreases giver.hand@.len() - c,
        {
            broadcast use Seq::lemma_take_succ_push, Seq::lemma_push_map_commute;

            codes.push(giver.hand.cards[c].treasure_type.code());
            c += 1;
        }
        assert(giver.hand@.take(c as int) =~= giver.hand@);
        let firsts = first_of_each(&codes);
        assert(firsts@ == first_copies(giver@.hand));
        let ghost gifts = |other: AdventurerView| self@.gifts_to(who as int, other);
        let mut options: Vec<(usize, AdventurerCardType)> = Vec::new();
        let mut j: usize = 0;
        while j < self.adventurers.len()
            invariant
                j <= self.adventurers@.len(),
                who < self@.adventurers.len(),
                giver@ == self@.adventurers[who as int],
                firsts@ == first_copies(giver@.hand),
                gifts == |other: AdventurerView| self@.gifts_to(who as int, other),
                options@ == self@.adventurers.take(j as int).flat_map(gifts),
            decreases self.adventurers@.len() - j,
        {
            let other = &self.adventurers[j];
            assert(self@.adventurers[j as int] == other@);
            let ghost before = options@;
            if other.card != giver.card && (giver.card == AdventurerCardType::Messenger || (
            other.pos.0 == giver.pos.0 && other.pos.1 == giver.pos.1)) {
                let ghost gift = |card: usize| (card, other@.role);
                let mut k: usize = 0;
                while k < firsts.len()
                    invariant
                        k <= firsts@.len(),
                        gift == |card: usize| (card, other@.role),
                        options@ == before + firsts@.take(k as int).map_values(gift),
                    decreases firsts@.len() - k,
                {
                    broadcast use Seq::lemma_take_succ_push, Seq::lemma_push_map_commute;

                    options.push((firsts[k], other.card));
                    assert(options@ =~= before + firsts@.take(k + 1).map_values(gift));
                    k += 1;
                }
                assert(firsts@.take(k as int) =~= firsts@);
            }
            proof {
                let seen = self@.adventurers.take(j as int);
                assert(self@.adventurers.take(j + 1) =~= seen.push(other@));
                seen.lemma_flat_map_push(gifts, other@);
                assert(options@ =~= self@.adventurers.take(j + 1).flat_map(gifts));
            }
            j += 1;
        }
        assert(self@.adventurers.take(j as int) =~= self@.adventurers);
        options
    }

    /// The text that offers the gift `option` to the adventurer at `who`.
    pub fn give_label(&self, who: usize, option: &(usize, AdventurerCardType)) -> (text: String)
        requires
            who < self@.adventurers.len(),
            option.0 < self@.adventurers[who as int].hand.len(),
        ensures
            text@ == self@.give_label(who as int, *option),
    {
        assert(self@.adventurers[who as int] == self.adventurers@[who as int]@);
        let mut text = String::from_str("Give ");
        text.append(self.adventurers[who].hand.cards[option.0].treasure_type.get_name().as_str());
        text.append(" card to ");
        text.append(option.1.name().as_str());
        text
    }

    /// Hands the card at position `card` of the hand of the adventurer at
    /// `who` to the adventurer of role `to`, who takes it last in hand.
    pub fn apply_give(&mut self, who: usize, card: usize, to: AdventurerCardType)
        requires
            old(self)@.wf(),
            who < old(self)@.adventurers.len(),
            old(self)@.is_gift(who as int, (card, to)),
        ensures
            final(self)@ == old(self)@.apply_give(who as int, card as int, to),
            final(self)@.wf(),
    {
        let ghost before = self@;
        assert(self@.adventurers[who as int] == self.adventurers@[who as int]@);
        let receiver = self.find_adventurer(&to).unwrap();
        let given = self.adventurers[who].remove_card(card);
        let ghost between = self@;
        assert(between.adventurers =~= before.adventurers.update(
            who as int,
            AdventurerView {
                hand: before.adventurers[who as int].hand.remove(card as int),
                ..before.adventurers[who as int]
            },
        ));
        self.adventurers[receiver].receive_card(given);
        proof {
            assert(self@.adventurers =~= between.adventurers.update(
                receiver as int,
                AdventurerView {
                    hand: between.adventurers[receiver as int].hand.push(given),
                    ..between.adventurers[receiver as int]
                },
            ));
            lemma_cards_in_hands_update(
                before.adventurers,
                who as int,
                between.adventurers[who as int],
            );
            lemma_cards_in_hands_update(
                between.adventurers,
                receiver as int,
                self@.adventurers[receiver as int],
            );
            assert(self@.adventurers =~= before.apply_give(who as int, card as int, to).adventurers);
            let hand = before.adventurers[who as int].hand;
            let taking = between.adventurers[receiver as int].hand;
            vstd::seq_lib::to_multiset_remove(hand, card as int);
            hand.to_multiset_ensures();
            assert(hand.contains(given));
            vstd::seq_lib::to_multiset_build(taking, given);
            assert forall|other: TreasureCard|
                self@.all_treasure_cards().count(other) == before.all_treasure_cards().count(
                    other,
                ) by {
                lemma_cards_held_count(
                    before.adventurers,
                    who as int,
                    between.adventurers[who as int],
                    other,
                );
                lemma_cards_held_count(
                    between.adventurers,
                    receiver as int,
                    self@.adventurers[receiver as int],
                    other,
                );
            }
            assert(self@.all_treasure_cards() =~= before.all_treasure_cards());
        }
    }

    /// The action "give a card": the adventurer at position `who` of the
    /// roster hands one of its cards to another adventurer.  A single gift
    /// is made without asking.
    pub fn give_card<C: Chooser>(&mut self, who: usize, chooser: &mut C)
        requires
            old(self)@.wf(),
            who < old(self)@.adventurers.len(),
            old(self)@.give_options(who as int).len() > 0,
        ensures
            final(self)@.wf(),
            final(self)@.acted_from(old(self)@),
            final(self)@.given_by(old(self)@, who as int, *old(chooser), *final(chooser)),
    {
        let options = self.give_options(who);
        proof {
            assert(self@.adventurers.take(self@.adventurers.len() as int) =~= self@.adventurers);
            lemma_hand_within_total(self@.adventurers, who as int);
            assert forall|k: int| 0 <= k < options@.len() implies self@.is_gift(
                who as int,
                #[trigger] options@[k],
            ) by {
                self@.lemma_gifts_are_gifts(who as int, self@.adventurers.len() as int, k);
            }
        }
        let mut labels: Vec<String> = Vec::new();
        let mut i: usize = 0;
        while i < options.len()
            invariant
                i <= options@.len(),
                who < self@.adventurers.len(),
                forall|k: int| 0 <= k < options@.len() ==> self@.is_gift(who as int, #[trigger] options@[k]),
                labels@.len() == i,
                forall|k: int|
                    0 <= k < i ==> (#[trigger] labels@[k])@ == self@.give_label(
                        who as int,
                        options@[k],
                    ),
            decreases options@.len() - i,
        {
            labels.push(self.give_label(who, &options[i]));
            i += 1;
        }
        assert(texts(labels@) =~= self@.give_labels(who as int));
        let choice = settle(chooser, Action::GiveCard, &labels);
        let (card, to) = options[choice];
        proof {
            assert(self@.is_gift(who as int, options@[choice as int]));
            self@.lemma_give_acts(who as int, card as int, to);
        }
        self.apply_give(who, card, to);
        assert(self@ == old(self)@.apply_give(
            who as int,
            old(self)@.give_options(who as int)[choice as int].0 as int,
            old(self)@.give_options(who as int)[choice as int].1,
        ));
    }

    /// The number of cards `card` in the hand of the adventurer at `who`.
    pub fn count_in_hand(&self, who: usize, card: &TreasureCard) -> (count: usize)
        requires
            who < self@.adventurers.len(),
        ensures
            count == count_card(self@.adventurers[who as int].hand, *card),
    {
        let owner = &self.adventurers[who];
        assert(self@.adventurers[who as int] == owner@);
        let mut count: usize = 0;
        let mut i: usize = 0;
        assert(owner.hand@.skip(0) =~= owner.hand@);
        while i < owner.hand.len()
            invariant
                i <= owner.hand@.len(),
                count <= i,
                count + count_card(owner.hand@.skip(i as int), *card) == count_card(
                    owner.hand@,
                    *card,
                ),
            decreases owner.hand@.len() - i,
        {
            assert(owner.hand@.skip(i as int).drop_first() =~= owner.hand@.skip(i + 1));
            if owner.hand.cards[i].treasure_type == card.treasure_type {
                count += 1;
            }
            i += 1;
        }
        count
    }

    /// The treasure that the adventurer at position `who` can capture.
    pub fn capturable(&self, who: usize) -> (kind: Option<TreasureType>)
        requires
            self@.wf(),
            who < self@.adventurers.len(),
        ensures
            kind == self@.capturable(who as int),
    {
        assert(self@.adventurers[who as int] == self.adventurers@[who as int]@);
        let tile = self.board.get_card(&self.adventurers[who].pos).unwrap();
        match tile.can_retrieve {
            Some(kind) => {
                if tile.state != IslandCardState::Sunk && !self.captured_treasures.contains(&kind)
                    && self.count_in_hand(
                    who,
                    &TreasureCard::new(&TreasureCardType::Treasure(kind)),
                ) >= 4 {
                    Some(kind)
                } else {
                    None
                }
            },
            None => None,
        }
    }

    /// The action "capture a treasure": the first four cards of treasure
    /// `treasure_type` leave the hand of the adventurer at `who`, and the
    /// treasure is captured.
    pub fn capture_treasure(&mut self, who: usize, treasure_type: TreasureType)
        requires
            old(self)@.wf(),
            who < old(self)@.adventurers.len(),
            old(self)@.capturable(who as int) == Some(treasure_type),
        ensures
            final(self)@ == old(self)@.apply_capture(who as int, treasure_type),
            final(self)@.wf(),
            final(self)@.acted_from(old(self)@),
            final(self)@.captured.contains(treasure_type),
            count_card(final(self)@.adventurers[who as int].hand, treasure_card(treasure_type)) + 4
                == count_card(old(self)@.adventurers[who as int].hand, treasure_card(treasure_type)),
            final(self)@.adventurers[who as int].hand.len() + 4
                == old(self)@.adventurers[who as int].hand.len(),
    {
        let ghost before = self@;
        let wanted = TreasureCard::new(&TreasureCardType::Treasure(treasure_type));
        assert(self@.adventurers[who as int] == self.adventurers@[who as int]@);
        let ghost hand = self.adventurers@[who as int].hand@;
        let mut kept: Deck<TreasureCard> = Deck::with_capacity(10);
        let mut taken: usize = 0;
        let mut i: usize = 0;
        assert(hand.skip(0) =~= hand);
        while i < self.adventurers[who].hand.len()
            invariant
                who < self.adventurers@.len(),
                self.adventurers@[who as int].hand@ == hand,
                self@ == before,
                i <= hand.len(),
                taken <= 4,
                wanted == treasure_card(treasure_type),
                kept@ + without_first(hand.skip(i as int), wanted, (4 - taken) as nat)
                    == without_first(hand, wanted, 4),
            decreases hand.len() - i,
        {
            let card = self.adventurers[who].hand.cards[i];
            assert(hand.skip(i as int).drop_first() =~= hand.skip(i + 1));
            assert(hand.skip(i as int)[0] == card);
            let ghost rest = kept@;
            if taken < 4 && card.treasure_type == wanted.treasure_type {
                taken += 1;
            } else {
                kept.insert(card);
                assert(kept@ + without_first(hand.skip(i + 1), wanted, (4 - taken) as nat) =~= rest
                    + (seq![card] + without_first(hand.skip(i + 1), wanted, (4 - taken) as nat)));
            }
            i += 1;
        }
        assert(kept@ =~= without_first(hand, wanted, 4));
        self.adventurers[who].hand = kept;
        self.captured_treasures.insert(treasure_type);
        proof {
            let after = before.apply_capture(who as int, treasure_type);
            assert(self@.adventurers =~= after.adventurers);
            assert(self@ == after);
            before.lemma_capture_keeps_cards(who as int, treasure_type);
            before.lemma_capture_acts(who as int, treasure_type);
        }
    }
}

impl GameView {
    // ----- the decisions of the actions -----
    /// The moves on offer to the adventurer at `who`, as text.
    pub open spec fn move_labels(self, who: int) -> Seq<Seq<char>> {
        self.move_options(who).map_values(|option: MoveType| self.move_label(who, option))
    }

    /// Whether the game is `self` after the action "move" of the adventurer
    /// at `who` in `before`, decided by a source that went from `source` to
    /// `after`: the decision among the moves on offer is settled, and the
    /// move settled on is made.
    pub open spec fn moved_by<C: Chooser>(self, before: GameView, who: int, source: C, after: C) -> bool {
        exists|k: int|
            #![trigger before.move_options(who)[k]]
            0 <= k < before.move_options(who).len() && settled(
                source,
                after,
                Action::Move,
                before.move_labels(who),
                k,
            ) && self == before.apply_move(who, before.move_options(who)[k])
    }

    /// The places that the adventurer at `who` can shore up, as text.
    pub open spec fn shore_labels(self, who: int) -> Seq<Seq<char>> {
        self.shore_options(who).map_values(|coord: (usize, usize)| self.shore_label(coord))
    }

    /// Whether the game is `self` after one shoring up by the adventurer at
    /// `who` in `before`, decided by a source that went from `source` to
    /// `after`.
    pub open spec fn shored_once_by<C: Chooser>(
        self,
        before: GameView,
        who: int,
        source: C,
        after: C,
    ) -> bool {
        exists|k: int|
            #![trigger before.shore_options(who)[k]]
            0 <= k < before.shore_options(who).len() && settled(
                source,
                after,
                Action::ShoreUp,
                before.shore_labels(who),
                k,
            ) && self == before.apply_shore_up(before.shore_options(who)[k])
    }

    /// What the engineer is asked after its first shoring up.
    pub open spec fn engineer_labels() -> Seq<Seq<char>> {
        seq!["Use engineer skill to shore up another tile"@, "End action"@]
    }

    /// Whether the game is `self` after the engineer at `who`, having shored
    /// up once in `once`, was asked whether to go on: on the first answer it
    /// shores up a second tile, on the other nothing happens.
    pub open spec fn followed_by<C: Chooser>(self, once: GameView, who: int, source: C, after: C) -> bool {
        exists|answer: int, then: C|
            #![trigger asked(source, then, Action::ShoreUp, Self::engineer_labels(), answer)]
            asked(source, then, Action::ShoreUp, Self::engineer_labels(), answer) && if answer == 0 {
                self.shored_once_by(once, who, then, after)
            } else {
                self == once && after == then
            }
    }

    /// Whether the game is `self` after the action "shore up" of the
    /// adventurer at `who` in `before`, decided by a source that went from
    /// `source` to `after`: one shoring up, and for the engineer, where
    /// another flooded tile is in reach, the question whether to go on.
    pub open spec fn shored_up_by<C: Chooser>(
        self,
        before: GameView,
        who: int,
        source: C,
        after: C,
    ) -> bool {
        exists|once: GameView, then: C|
            #![trigger once.shored_once_by(before, who, source, then)]
            once.shored_once_by(before, who, source, then) && if before.adventurers[who].role
                == AdventurerCardType::Engineer && once.shore_options(who).len() > 0 {
                self.followed_by(once, who, then, after)
            } else {
                self == once && after == then
            }
    }

    /// The gifts on offer to the adventurer at `who`, as text.
    pub open spec fn give_labels(self, who: int) -> Seq<Seq<char>> {
        self.give_options(who).map_values(
            |option: (usize, AdventurerCardType)| self.give_label(who, option),
        )
    }

    /// Whether the game is `self` after the action "give a card" of the
    /// adventurer at `who` in `before`, decided by a source that went from
    /// `source` to `after`.
    pub open spec fn given_by<C: Chooser>(self, before: GameView, who: int, source: C, after: C) -> bool {
        exists|k: int|
            #![trigger before.give_options(who)[k]]
            0 <= k < before.give_options(who).len() && settled(
                source,
                after,
                Action::GiveCard,
                before.give_labels(who),
                k,
            ) && self == before.apply_give(
                who,
                before.give_options(who)[k].0 as int,
                before.give_options(who)[k].1,
            )
    }
}

} // verus!
