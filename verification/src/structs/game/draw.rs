//! Drawing treasure cards, and the rising of the water.

use vstd::prelude::*;

use super::model::{lemma_cards_in_hands_update, lemma_shuffle_keeps, lemma_shuffle_of_parts};
use super::{Game, GameView};
use crate::structs::cards::adventurer::AdventurerView;
use crate::structs::cards::flood::FloodCard;
use crate::structs::cards::island::IslandCardName;
use crate::structs::cards::treasure::{TreasureCard, TreasureCardType};

verus! {

broadcast use vstd::multiset::group_multiset_axioms;

impl Game {
    /// Shuffles the treasure discard pile and puts it under the treasure deck.
    pub fn restock_treasure_deck(&mut self)
        ensures
            final(self)@.restocked_from(old(self)@),
            old(self)@.sound() ==> final(self)@.sound(),
            final(self)@.treasure_cards() == old(self)@.treasure_cards(),
            final(self)@.all_treasure_cards() == old(self)@.all_treasure_cards(),
    {
        let ghost before = self@;
        self.treasure_discard_deck.shuffle(&mut self.rng);
        let ghost shuffled = self.treasure_discard_deck@;
        self.treasure_deck.stack(&mut self.treasure_discard_deck);
        proof {
            vstd::seq_lib::lemma_multiset_commutative(before.treasure_deck, shuffled);
            assert(Seq::<TreasureCard>::empty().to_multiset() =~= vstd::multiset::Multiset::empty())
                by {
                Seq::<TreasureCard>::empty().to_multiset_ensures();
            }
            assert(self@.all_treasure_cards() =~= before.all_treasure_cards());
            lemma_shuffle_keeps(shuffled, before.treasure_discard);
            assert(self@.treasure_deck.take(before.treasure_deck.len() as int)
                =~= before.treasure_deck);
            assert(self@.treasure_deck.skip(before.treasure_deck.len() as int) =~= shuffled);
        }
    }

    /// Looks after the treasure deck: a deck that has run out is restocked
    /// from the discard pile.
    pub fn tend_treasure_deck(&mut self)
        ensures
            final(self)@.tended_from(old(self)@),
            old(self)@.sound() ==> final(self)@.sound(),
            final(self)@.treasure_cards() == old(self)@.treasure_cards(),
            final(self)@.all_treasure_cards() == old(self)@.all_treasure_cards(),
    {
        if self.treasure_deck.is_empty() {
            self.restock_treasure_deck();
        }
    }

    /// Draws the top card of the treasure deck.  The deck is restocked from
    /// the discard pile as soon as it runs out; no card is drawn where both
    /// are empty.  The card drawn is in nobody's hand yet.
    pub fn draw_treasure(&mut self) -> (card: Option<TreasureCard>)
        ensures
            final(self)@.drawn_from(old(self)@, card),
            old(self)@.sound() ==> final(self)@.sound(),
            final(self)@.treasure_cards() + (if card is Some {
                1nat
            } else {
                0nat
            }) == old(self)@.treasure_cards(),
            match card {
                Some(top) => final(self)@.all_treasure_cards().insert(top) == old(
                    self,
                )@.all_treasure_cards(),
                None => final(self)@.all_treasure_cards() == old(self)@.all_treasure_cards(),
            },
    {
        self.tend_treasure_deck();
        let ghost ready = self@;
        match self.treasure_deck.pop_next() {
            None => None,
            Some(top) => {
                let ghost popped = self@;
                proof {
                    assert(popped.treasure_deck =~= ready.treasure_deck.remove(0));
                    vstd::seq_lib::to_multiset_remove(ready.treasure_deck, 0);
                    ready.treasure_deck.to_multiset_ensures();
                    assert(ready.treasure_deck.contains(top));
                    assert(popped.all_treasure_cards().insert(top) =~= ready.all_treasure_cards());
                }
                self.tend_treasure_deck();
                Some(top)
            },
        }
    }

    /// Makes the water rise: the water level goes up by one, but not beyond
    /// the top of the scale, and the flood discard pile is shuffled and put
    /// on top of the flood deck.
    pub fn rise_water(&mut self)
        requires
            old(self)@.sound(),
        ensures
            final(self)@.risen_from(old(self)@),
            final(self)@.sound(),
            final(self)@.treasure_cards() == old(self)@.treasure_cards(),
            final(self)@.all_treasure_cards() == old(self)@.all_treasure_cards(),
    {
        let ghost before = self@;
        if self.water_level < 9 {
            self.water_level += 1;
        }
        self.flood_discard_deck.shuffle(&mut self.rng);
        let ghost shuffled = self.flood_discard_deck@;
        self.flood_deck.stack_front(&mut self.flood_discard_deck);
        proof {
            lemma_shuffle_keeps(shuffled, before.flood_discard);
            assert(self@.flood_deck.skip(before.flood_discard.len() as int) =~= before.flood_deck);
            assert(self@.flood_deck.take(before.flood_discard.len() as int) =~= shuffled);
            assert(self@.flood_pile() =~= shuffled + before.flood_deck);
            lemma_shuffle_of_parts(before.flood_deck, before.flood_discard, shuffled);
            lemma_shuffle_keeps(self@.flood_pile(), before.flood_pile());
            assert forall|name: IslandCardName| #[trigger]
                self@.flood_pile().contains(FloodCard { island_card: name })
                    <==> self@.board.card(name).state
                    != crate::structs::cards::island::IslandCardState::Sunk by {
                assert(before.flood_pile().contains(FloodCard { island_card: name })
                    <==> before.board.card(name).state
                    != crate::structs::cards::island::IslandCardState::Sunk);
            }
        }
    }

    /// Gives the drawn card `card` to the adventurer at position `who` of
    /// the roster, unless it is a water rise: that card goes to the discard
    /// pile and makes the water rise.
    pub fn take_treasure_card(&mut self, who: usize, card: TreasureCard)
        requires
            old(self)@.sound(),
            who < old(self)@.adventurers.len(),
        ensures
            final(self)@.taken_from(old(self)@, who as int, card),
            final(self)@.sound(),
            final(self)@.treasure_cards() == old(self)@.treasure_cards() + 1,
            final(self)@.all_treasure_cards() == old(self)@.all_treasure_cards().insert(card),
    {
        let ghost before = self@;
        if card.treasure_type == TreasureCardType::WaterRise {
            self.treasure_discard_deck.insert(card);
            proof {
                vstd::seq_lib::to_multiset_build(before.treasure_discard, card);
                assert(self@.all_treasure_cards() =~= before.all_treasure_cards().insert(card));
            }
            self.rise_water();
        } else {
            assert(self@.adventurers[who as int] == self.adventurers@[who as int]@);
            self.adventurers[who].receive_card(card);
            proof {
                let holder = AdventurerView {
                    hand: before.adventurers[who as int].hand.push(card),
                    ..before.adventurers[who as int]
                };
                assert(self@.adventurers =~= before.adventurers.update(who as int, holder));
                lemma_cards_in_hands_update(before.adventurers, who as int, holder);
                vstd::seq_lib::to_multiset_build(before.adventurers[who as int].hand, card);
                assert forall|other: TreasureCard|
                    self@.all_treasure_cards().count(other) == before.all_treasure_cards().insert(
                        card,
                    ).count(other) by {
                    super::model::lemma_cards_held_count(
                        before.adventurers,
                        who as int,
                        holder,
                        other,
                    );
                }
                assert(self@.all_treasure_cards() =~= before.all_treasure_cards().insert(card));
            }
        }
    }

    /// Draws one treasure card for the adventurer at position `who` of the
    /// roster.  Returns the card drawn, if there was one to draw.
    pub fn draw_treasure_card(&mut self, who: usize) -> (card: Option<TreasureCard>)
        requires
            old(self)@.wf(),
            who < old(self)@.adventurers.len(),
        ensures
            final(self)@.wf(),
            final(self)@.adventurers.len() == old(self)@.adventurers.len(),
            final(self)@.drew_from(old(self)@, who as int, card),
    {
        let card = self.draw_treasure();
        let ghost drawn = self@;
        match card {
            Some(top) => {
                self.take_treasure_card(who, top);
            },
            None => {},
        }
        assert(drawn.drawn_from(old(self)@, card) && self@.held_from(drawn, who as int, card));
        card
    }

    /// The draw phase of a turn: two treasure cards are drawn, one after the
    /// other, and then the adventurer at position `who` of the roster takes
    /// them in that order.  Returns the cards drawn.
    pub fn draw_treasure_cards(&mut self, who: usize) -> (cards: (
        Option<TreasureCard>,
        Option<TreasureCard>,
    ))
        requires
            old(self)@.wf(),
            who < old(self)@.adventurers.len(),
        ensures
            final(self)@.wf(),
            final(self)@.adventurers.len() == old(self)@.adventurers.len(),
            final(self)@.drew_both_from(old(self)@, who as int, cards.0, cards.1),
            final(self)@.drew_twice_from(old(self)@, who as int),
    {
        let first = self.draw_treasure();
        let ghost once = self@;
        let second = self.draw_treasure();
        let ghost twice = self@;
        match first {
            Some(card) => {
                self.take_treasure_card(who, card);
            },
            None => {},
        }
        let ghost held = self@;
        match second {
            Some(card) => {
                self.take_treasure_card(who, card);
            },
            None => {},
        }
        let cards = (first, second);
        assert(self@.all_treasure_cards() =~= old(self)@.all_treasure_cards());
        assert(once.drawn_from(old(self)@, cards.0) && twice.drawn_from(once, cards.1));
        assert(twice.drawn_twice_from(old(self)@, cards.0, cards.1));
        assert(held.held_from(twice, who as int, cards.0) && self@.held_from(
            held,
            who as int,
            cards.1,
        ));
        assert(self@.held_both_from(twice, who as int, cards.0, cards.1));
        assert(self@.drew_both_from(old(self)@, who as int, cards.0, cards.1));
        cards
    }
}

impl GameView {
    /// Whether the game is `self` after the adventurer at `who` has taken
    /// what was drawn in `before`, if anything was.
    pub open spec fn held_from(self, before: GameView, who: int, card: Option<TreasureCard>) -> bool {
        match card {
            Some(top) => self.taken_from(before, who, top),
            None => self == before,
        }
    }

    /// Whether the game is `self` after the adventurer at `who` has drawn
    /// `card` in `before` and taken it.
    pub open spec fn drew_from(self, before: GameView, who: int, card: Option<TreasureCard>) -> bool {
        exists|drawn: GameView|
            #![trigger drawn.drawn_from(before, card)]
            drawn.drawn_from(before, card) && self.held_from(drawn, who, card)
    }

    /// Whether the game is `self` after `first` and then `second` have been
    /// drawn from the treasure deck of `before`.
    pub open spec fn drawn_twice_from(
        self,
        before: GameView,
        first: Option<TreasureCard>,
        second: Option<TreasureCard>,
    ) -> bool {
        exists|once: GameView|
            #![trigger once.drawn_from(before, first)]
            once.drawn_from(before, first) && self.drawn_from(once, second)
    }

    /// Whether the game is `self` after the adventurer at `who` has taken
    /// `first` and then `second`, which were drawn, in `before`.
    pub open spec fn held_both_from(
        self,
        before: GameView,
        who: int,
        first: Option<TreasureCard>,
        second: Option<TreasureCard>,
    ) -> bool {
        exists|held: GameView|
            #![trigger held.held_from(before, who, first)]
            held.held_from(before, who, first) && self.held_from(held, who, second)
    }

    /// Whether the game is `self` after the draw phase of the adventurer at
    /// `who` in `before`, in which `first` and `second` were drawn: both
    /// cards were drawn before either was taken.
    pub open spec fn drew_both_from(
        self,
        before: GameView,
        who: int,
        first: Option<TreasureCard>,
        second: Option<TreasureCard>,
    ) -> bool {
        exists|drawn: GameView|
            #![trigger drawn.drawn_twice_from(before, first, second)]
            drawn.drawn_twice_from(before, first, second) && self.held_both_from(
                drawn,
                who,
                first,
                second,
            )
    }

    /// Whether the game is `self` after the draw phase of the adventurer at
    /// `who` in `before`, whatever was drawn.
    pub open spec fn drew_twice_from(self, before: GameView, who: int) -> bool {
        exists|first: Option<TreasureCard>, second: Option<TreasureCard>|
            #![trigger self.drew_both_from(before, who, first, second)]
            self.drew_both_from(before, who, first, second)
    }
}

} // verus!
