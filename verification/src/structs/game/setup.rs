//! Setting up a game: the island is laid out, six tiles flood, the
//! adventurers appear and are dealt their first cards.

use rand_chacha::ChaCha20Rng;
use vstd::prelude::*;

use super::model::{count_card, is_shuffle_of, lemma_cards_in_hands_update, lemma_shuffle_keeps};
use super::{Game, GameView, TreasureSet};
use crate::structs::board::{full_island_deck, holds_tile, Board, BoardView};
use crate::structs::cards::adventurer::{Adventurer, AdventurerCard, AdventurerView};
use crate::structs::cards::flood::FloodCard;
use crate::structs::cards::island::{IslandCard, IslandCardName, IslandCardState};
use crate::structs::cards::treasure::{TreasureCard, TreasureCardType};
use crate::structs::cards::{Card, Deck};

verus! {

broadcast use vstd::multiset::group_multiset_axioms;

/// The water rise card.
pub open spec fn rise_card() -> TreasureCard {
    TreasureCard { treasure_type: TreasureCardType::WaterRise }
}

/// The number of water rise cards on top of `deck`.
pub open spec fn leading_rises(deck: Seq<TreasureCard>) -> nat
    decreases deck.len(),
{
    if deck.len() > 0 && deck[0] == rise_card() {
        1 + leading_rises(deck.drop_first())
    } else {
        0
    }
}

/// The water rise cards on top of a deck are cards of the deck, and they
/// are water rise cards.
pub proof fn lemma_leading_rises(deck: Seq<TreasureCard>)
    ensures
        leading_rises(deck) <= count_card(deck, rise_card()),
        count_card(deck, rise_card()) <= deck.len(),
        forall|i: int| 0 <= i < leading_rises(deck) ==> #[trigger] deck[i] == rise_card(),
        leading_rises(deck) < deck.len() ==> deck[leading_rises(deck) as int] != rise_card(),
    decreases deck.len(),
{
    if deck.len() > 0 {
        lemma_leading_rises(deck.drop_first());
        if deck[0] == rise_card() {
            assert forall|i: int| 0 <= i < leading_rises(deck) implies #[trigger] deck[i]
                == rise_card() by {
                if i > 0 {
                    assert(deck.drop_first()[i - 1] == deck[i]);
                }
            }
            if leading_rises(deck) < deck.len() {
                assert(deck.drop_first()[leading_rises(deck.drop_first()) as int]
                    == deck[leading_rises(deck) as int]);
            }
        }
    }
}

/// Counting a card in a pile gives what the pile holds of it, in whatever
/// order.
pub proof fn lemma_count_card_is_count(deck: Seq<TreasureCard>, card: TreasureCard)
    ensures
        count_card(deck, card) == deck.to_multiset().count(card),
    decreases deck.len(),
{
    broadcast use vstd::multiset::group_multiset_axioms;

    deck.to_multiset_ensures();
    if deck.len() > 0 {
        lemma_count_card_is_count(deck.drop_first(), card);
        assert(deck =~= seq![deck[0]] + deck.drop_first());
        vstd::seq_lib::lemma_multiset_commutative(seq![deck[0]], deck.drop_first());
        assert(seq![deck[0]] =~= Seq::<TreasureCard>::empty().push(deck[0]));
        Seq::<TreasureCard>::empty().to_multiset_ensures();
        assert(seq![deck[0]].to_multiset().count(card) == if deck[0] == card {
            1nat
        } else {
            0nat
        });
    }
}

/// The printed treasure deck holds three water rise cards.
pub proof fn lemma_three_rises()
    ensures
        count_card(TreasureCard::spec_deck(), rise_card()) == 3,
{
    let deck = TreasureCard::spec_deck();
    lemma_count_upto(deck, 28);
    assert(deck.skip(0) =~= deck);
}

/// The number of water rise cards among the cards of the printed deck from
/// position `28 - n` on.
pub proof fn lemma_count_upto(deck: Seq<TreasureCard>, n: nat)
    requires
        deck == TreasureCard::spec_deck(),
        n <= 28,
    ensures
        count_card(deck.skip(28 - n), rise_card()) == if n <= 5 {
            0
        } else if n <= 8 {
            n - 5
        } else {
            3
        },
    decreases n,
{
    let tail = deck.skip(28 - n);
    if n > 0 {
        lemma_count_upto(deck, (n - 1) as nat);
        assert(tail.drop_first() =~= deck.skip(28 - (n - 1)));
        assert(tail[0] == deck[28 - n]);
    }
}

/// After the water rise cards on top of a deck and the card under them,
/// the deck holds as many water rise cards fewer as were on top.
pub proof fn lemma_count_after_deal(deck: Seq<TreasureCard>)
    requires
        leading_rises(deck) < deck.len(),
    ensures
        count_card(deck.skip(leading_rises(deck) as int + 1), rise_card()) + leading_rises(deck)
            == count_card(deck, rise_card()),
    decreases deck.len(),
{
    let rest = deck.drop_first();
    if deck[0] == rise_card() {
        lemma_count_after_deal(rest);
        assert(rest.skip(leading_rises(rest) as int + 1) =~= deck.skip(leading_rises(deck) as int + 1));
    } else {
        assert(deck.skip(1) =~= rest);
    }
}

/// A shuffled island deck holds every tile once, dry.
pub proof fn lemma_shuffled_island_deck(cards: Seq<IslandCard>)
    requires
        is_shuffle_of(cards, IslandCard::spec_deck()),
    ensures
        full_island_deck(cards),
        forall|i: int| 0 <= i < 24 ==> (#[trigger] cards[i]).state == IslandCardState::Normal,
{
    let deck = IslandCard::spec_deck();
    assert forall|i: int, j: int| 0 <= i < j < deck.len() implies deck[i] != deck[j] by {
        crate::structs::cards::island::lemma_index_round_trip(IslandCardName::Watchtower, i);
        crate::structs::cards::island::lemma_index_round_trip(IslandCardName::Watchtower, j);
    }
    assert(deck.no_duplicates());
    lemma_shuffle_keeps(cards, deck);
    assert forall|i: int| 0 <= i < 24 implies (#[trigger] cards[i]).wf() && cards[i].state
        == IslandCardState::Normal && cards[i] == IslandCard::spec_from_name(cards[i].name) by {
        assert(cards.contains(cards[i]));
        assert(deck.contains(cards[i]));
    }
    assert forall|name: IslandCardName| #[trigger] holds_tile(cards, name) by {
        crate::structs::cards::island::lemma_index_round_trip(name, 0);
        assert(deck[name.spec_index() as int] == IslandCard::spec_from_name(name));
        assert(deck.contains(IslandCard::spec_from_name(name)));
        assert(cards.contains(IslandCard::spec_from_name(name)));
    }
}

/// A shuffled flood deck holds the card of every tile once.
pub proof fn lemma_shuffled_flood_deck(cards: Seq<FloodCard>)
    requires
        is_shuffle_of(cards, FloodCard::spec_deck()),
    ensures
        cards.len() == 24,
        cards.no_duplicates(),
        forall|name: IslandCardName| #[trigger] cards.contains(FloodCard { island_card: name }),
{
    let deck = FloodCard::spec_deck();
    assert forall|i: int, j: int| 0 <= i < j < deck.len() implies deck[i] != deck[j] by {
        crate::structs::cards::island::lemma_index_round_trip(IslandCardName::Watchtower, i);
        crate::structs::cards::island::lemma_index_round_trip(IslandCardName::Watchtower, j);
    }
    assert(deck.no_duplicates());
    lemma_shuffle_keeps(cards, deck);
    assert forall|name: IslandCardName| #[trigger]
        cards.contains(FloodCard { island_card: name }) by {
        crate::structs::cards::island::lemma_index_round_trip(name, 0);
        assert(deck[name.spec_index() as int] == FloodCard { island_card: name });
        assert(deck.contains(FloodCard { island_card: name }));
    }
}

/// A shuffled role deck holds six different roles.
pub proof fn lemma_shuffled_role_deck(cards: Seq<AdventurerCard>)
    requires
        is_shuffle_of(cards, AdventurerCard::spec_deck()),
    ensures
        cards.len() == 6,
        cards.no_duplicates(),
{
    let deck = AdventurerCard::spec_deck();
    assert(deck.no_duplicates());
    lemma_shuffle_keeps(cards, deck);
}

/// A shuffled treasure deck holds twenty-eight cards, three of them water
/// rise cards.
pub proof fn lemma_shuffled_treasure_deck(cards: Seq<TreasureCard>)
    requires
        is_shuffle_of(cards, TreasureCard::spec_deck()),
    ensures
        cards.len() == 28,
        count_card(cards, rise_card()) == 3,
{
    lemma_shuffle_keeps(cards, TreasureCard::spec_deck());
    lemma_three_rises();
    lemma_count_card_is_count(cards, rise_card());
    lemma_count_card_is_count(TreasureCard::spec_deck(), rise_card());
}

impl BoardView {
    /// A board without a sunk tile counts no sunk tile.
    pub proof fn lemma_none_sunk(self, n: nat)
        requires
            n <= self.cells.len(),
            forall|i: int| 0 <= i < self.cells.len() ==> (#[trigger] self.cells[i]).state
                != IslandCardState::Sunk,
        ensures
            self.sunk_among(n) == 0,
        decreases n,
    {
        if n > 0 {
            self.lemma_none_sunk((n - 1) as nat);
        }
    }
}

impl GameView {
    /// The game after the adventurer at `who` has been dealt a card: the
    /// water rise cards on top of the treasure deck go to the discard pile,
    /// and the card under them goes to the hand.  Where the deck holds
    /// nothing else than water rise cards, nobody gets a card.
    pub open spec fn dealt(self, who: int) -> GameView {
        let skipped = leading_rises(self.treasure_deck);
        if skipped < self.treasure_deck.len() {
            GameView {
                treasure_deck: self.treasure_deck.skip(skipped as int + 1),
                treasure_discard: self.treasure_discard + self.treasure_deck.take(skipped as int),
                adventurers: self.adventurers.update(
                    who,
                    AdventurerView {
                        hand: self.adventurers[who].hand.push(self.treasure_deck[skipped as int]),
                        ..self.adventurers[who]
                    },
                ),
                ..self
            }
        } else {
            GameView {
                treasure_deck: Seq::empty(),
                treasure_discard: self.treasure_discard + self.treasure_deck,
                ..self
            }
        }
    }

    /// The game after the first `upto` adventurers of the roster have been
    /// dealt a card each, in the order of the roster.
    pub open spec fn dealt_round(self, upto: nat) -> GameView
        decreases upto,
    {
        if upto == 0 {
            self
        } else {
            self.dealt_round((upto - 1) as nat).dealt(upto - 1)
        }
    }

    /// The game after the treasure discard pile has been put under the
    /// treasure deck as it lies.
    pub open spec fn restacked(self) -> GameView {
        GameView {
            treasure_deck: self.treasure_deck + self.treasure_discard,
            treasure_discard: Seq::empty(),
            ..self
        }
    }

    /// What holds of a game that has just been set up for `count`
    /// adventurers at water level `water_level`, whatever the shuffles
    /// gave: every adventurer stands on the starting tile of its role and
    /// holds two cards, none of them a water rise; six tiles are flooded,
    /// those whose flood cards lie on the flood discard pile, and the
    /// others are dry; nothing is captured, and the other cards lie in the
    /// decks, the three water rises in the treasure deck.
    pub open spec fn is_fresh(self, count: nat, water_level: usize) -> bool {
        &&& self.adventurers.len() == count
        &&& forall|i: int|
            0 <= i < count ==> (#[trigger] self.adventurers[i]).hand.len() == 2
                && self.adventurers[i].hand[0] != rise_card() && self.adventurers[i].hand[1]
                != rise_card() && self.adventurers[i].pos == self.board.location(
                self.adventurers[i].role.spec_start_card(),
            )
        &&& self.water_level == water_level
        &&& self.captured == Set::<crate::structs::cards::treasure::TreasureType>::empty()
        &&& !self.used_pilot_move
        &&& self.treasure_deck.len() + 2 * count == 28
        &&& count_card(self.treasure_deck, rise_card()) == 3
        &&& self.treasure_discard.len() == 0
        &&& self.flood_deck.len() == 18
        &&& self.flood_discard.len() == 6
        &&& forall|name: IslandCardName|
            (#[trigger] self.board.card(name)).state == if self.flood_discard.contains(
                FloodCard { island_card: name },
            ) {
                IslandCardState::Flooded
            } else {
                IslandCardState::Normal
            }
    }

    /// A deal takes no treasure card out of the game, keeps the water rise
    /// cards out of the hands, and gives a card wherever the deck holds
    /// more cards than water rise cards.
    pub proof fn lemma_dealt(self, who: int)
        requires
            0 <= who < self.adventurers.len(),
        ensures
            self.dealt(who).treasure_cards() == self.treasure_cards(),
            self.dealt(who).all_treasure_cards() == self.all_treasure_cards(),
            self.dealt(who).treasure_deck.len() + self.dealt(who).treasure_discard.len()
                + self.dealt(who).adventurers[who].hand.len() == self.treasure_deck.len()
                + self.treasure_discard.len() + self.adventurers[who].hand.len(),
            count_card(self.treasure_deck, rise_card()) < self.treasure_deck.len() ==> {
                &&& self.dealt(who).adventurers[who].hand == self.adventurers[who].hand.push(
                    self.treasure_deck[leading_rises(self.treasure_deck) as int],
                )
                &&& self.treasure_deck[leading_rises(self.treasure_deck) as int] != rise_card()
                &&& self.dealt(who).treasure_discard.len() + count_card(
                    self.dealt(who).treasure_deck,
                    rise_card(),
                ) == self.treasure_discard.len() + count_card(self.treasure_deck, rise_card())
            },
    {
        lemma_leading_rises(self.treasure_deck);
        let after = self.dealt(who);
        let deck = self.treasure_deck;
        let skipped = leading_rises(deck) as int;
        if leading_rises(self.treasure_deck) < self.treasure_deck.len() {
            lemma_cards_in_hands_update(self.adventurers, who, after.adventurers[who]);
            lemma_count_after_deal(self.treasure_deck);
            let top = deck.take(skipped);
            let rest = deck.skip(skipped + 1);
            let card = deck[skipped];
            assert(deck =~= top + (seq![card] + rest));
            vstd::seq_lib::lemma_multiset_commutative(top, seq![card] + rest);
            vstd::seq_lib::lemma_multiset_commutative(seq![card], rest);
            vstd::seq_lib::lemma_multiset_commutative(self.treasure_discard, top);
            assert(seq![card] =~= Seq::<TreasureCard>::empty().push(card));
            vstd::seq_lib::to_multiset_build(Seq::<TreasureCard>::empty(), card);
            Seq::<TreasureCard>::empty().to_multiset_ensures();
            vstd::seq_lib::to_multiset_build(self.adventurers[who].hand, card);
            assert forall|other: TreasureCard|
                after.all_treasure_cards().count(other) == self.all_treasure_cards().count(
                    other,
                ) by {
                super::model::lemma_cards_held_count(
                    self.adventurers,
                    who,
                    after.adventurers[who],
                    other,
                );
            }
            assert(after.all_treasure_cards() =~= self.all_treasure_cards());
        } else {
            vstd::seq_lib::lemma_multiset_commutative(self.treasure_discard, deck);
            Seq::<TreasureCard>::empty().to_multiset_ensures();
            assert(after.all_treasure_cards() =~= self.all_treasure_cards());
        }
    }
}

impl Game {
    /// Deals a card to the adventurer at position `who` of the roster: the
    /// water rise cards on top of the treasure deck go to the discard pile,
    /// and the card under them goes to the hand.
    pub fn deal_card(&mut self, who: usize)
        requires
            who < old(self)@.adventurers.len(),
        ensures
            final(self)@ == old(self)@.dealt(who as int),
    {
        let ghost start = self@;
        let ghost mut skipped: nat = 0;
        proof {
            lemma_leading_rises(start.treasure_deck);
            assert(start.treasure_deck.skip(0) =~= start.treasure_deck);
            assert(start.treasure_discard + start.treasure_deck.take(0) =~= start.treasure_discard);
        }
        loop
            invariant
                start == old(self)@,
                who < start.adventurers.len(),
                skipped <= leading_rises(start.treasure_deck) <= start.treasure_deck.len(),
                forall|i: int|
                    0 <= i < leading_rises(start.treasure_deck) ==> #[trigger] start.treasure_deck[i]
                        == rise_card(),
                leading_rises(start.treasure_deck) < start.treasure_deck.len()
                    ==> start.treasure_deck[leading_rises(start.treasure_deck) as int]
                    != rise_card(),
                self@ == (GameView {
                    treasure_deck: start.treasure_deck.skip(skipped as int),
                    treasure_discard: start.treasure_discard + start.treasure_deck.take(
                        skipped as int,
                    ),
                    ..start
                }),
            decreases self@.treasure_deck.len(),
        {
            match self.treasure_deck.pop_next() {
                None => {
                    assert(skipped == start.treasure_deck.len());
                    assert(self@.treasure_deck =~= Seq::<TreasureCard>::empty());
                    assert(start.treasure_deck.take(skipped as int) =~= start.treasure_deck);
                    return;
                },
                Some(card) => {
                    assert(card == start.treasure_deck[skipped as int]);
                    assert(self@.treasure_deck =~= start.treasure_deck.skip(skipped as int + 1));
                    if card.treasure_type == TreasureCardType::WaterRise {
                        self.treasure_discard_deck.insert(card);
                        assert(self@.treasure_discard =~= start.treasure_discard
                            + start.treasure_deck.take(skipped as int + 1));
                        proof {
                            skipped = skipped + 1;
                        }
                    } else {
                        assert(card != rise_card());
                        assert(skipped == leading_rises(start.treasure_deck));
                        assert(self@.adventurers[who as int] == self.adventurers@[who as int]@);
                        self.adventurers[who].receive_card(card);
                        assert(self@.adventurers =~= start.dealt(who as int).adventurers);
                        return;
                    }
                },
            }
        }
    }
}

impl BoardView {
    /// The board after the water has risen once over the tile of each of
    /// `cards`, card by card.
    pub open spec fn flooded_by(self, cards: Seq<FloodCard>) -> BoardView
        decreases cards.len(),
    {
        if cards.len() == 0 {
            self
        } else {
            self.flooded_by(cards.drop_last()).sink(cards.last().island_card)
        }
    }

    /// The water moves no tile: after any floods every tile lies where it
    /// lay.
    pub proof fn lemma_flooded_by_keeps_places(self, cards: Seq<FloodCard>)
        ensures
            self.flooded_by(cards).slots == self.slots,
        decreases cards.len(),
    {
        if cards.len() > 0 {
            self.lemma_flooded_by_keeps_places(cards.drop_last());
        }
    }

    /// When the water rises over a tile, the card of that tile goes one
    /// step deeper and the cards of the other tiles stay as they are.
    pub proof fn lemma_sink_one(self, name: IslandCardName)
        requires
            self.wf(),
        ensures
            self.sink(name).card(name) == self.card(name).spec_sink(),
            forall|other: IslandCardName|
                other != name ==> #[trigger] self.sink(name).card(other) == self.card(other),
    {
        crate::structs::cards::island::lemma_index_round_trip(name, 0);
        assert forall|other: IslandCardName| other != name implies #[trigger] self.sink(name).card(
            other,
        ) == self.card(other) by {
            crate::structs::cards::island::lemma_index_round_trip(other, 0);
            assert(self.cells[self.slot(other)].name == other);
        }
    }
}

impl GameView {
    /// The game as it is laid out before the first cards are dealt: the
    /// island `board` with its first six floods, the first `count` roles of
    /// `roles` on their starting tiles with empty hands, the treasure deck
    /// `treasure`, and the flood deck `flood` without its first six cards,
    /// which lie on the flood discard pile.
    pub open spec fn laid_out(
        board: BoardView,
        treasure: Seq<TreasureCard>,
        flood: Seq<FloodCard>,
        roles: Seq<AdventurerCard>,
        count: nat,
        water_level: usize,
    ) -> GameView {
        GameView {
            treasure_deck: treasure,
            treasure_discard: Seq::empty(),
            flood_deck: flood.skip(6),
            flood_discard: flood.take(6),
            adventurers: Seq::new(
                count,
                |i: int|
                    AdventurerView {
                        role: roles[i].adventurer_type,
                        pos: board.location(roles[i].adventurer_type.spec_start_card()),
                        hand: Seq::empty(),
                    },
            ),
            board: board.flooded_by(flood.take(6)),
            water_level,
            captured: Set::empty(),
            used_pilot_move: false,
        }
    }

    /// The game as set up from the shuffled decks `treasure`, `flood` and
    /// `roles` on the island `board`: laid out, then two rounds of dealing,
    /// then the water rise cards that came up go back under the deck.
    pub open spec fn set_up(
        board: BoardView,
        treasure: Seq<TreasureCard>,
        flood: Seq<FloodCard>,
        roles: Seq<AdventurerCard>,
        count: nat,
        water_level: usize,
    ) -> GameView {
        Self::laid_out(board, treasure, flood, roles, count, water_level).dealt_round(
            count,
        ).dealt_round(count).restacked()
    }
}

impl Game {
    /// The first floods of a game: six flood cards are drawn and carried
    /// out.
    pub fn start_flood(&mut self)
        requires
            old(self)@.wf(),
            old(self)@.flood_deck.len() == 24,
            old(self)@.flood_discard.len() == 0,
            forall|name: IslandCardName|
                (#[trigger] old(self)@.board.card(name)).state == IslandCardState::Normal,
        ensures
            final(self)@.wf(),
            final(self)@ == (GameView {
                board: old(self)@.board.flooded_by(old(self)@.flood_deck.take(6)),
                flood_deck: old(self)@.flood_deck.skip(6),
                flood_discard: old(self)@.flood_deck.take(6),
                ..old(self)@
            }),
            forall|name: IslandCardName|
                (#[trigger] final(self)@.board.card(name)).state == if final(self)@.flood_discard.contains(
                    FloodCard { island_card: name },
                ) {
                    IslandCardState::Flooded
                } else {
                    IslandCardState::Normal
                },
    {
        let ghost start = self@;
        let ghost deck = self@.flood_deck;
        let mut i: usize = 0;
        proof {
            assert(deck.take(0) =~= Seq::<FloodCard>::empty());
            assert(deck.take(0) =~= start.flood_discard);
            assert(deck.skip(0) =~= deck);
            assert(start.flood_pile() =~= deck);
            assert(start.board.flooded_by(deck.take(0)) == start.board);
        }
        while i < 6
            invariant
                i <= 6,
                start == old(self)@,
                deck == start.flood_deck,
                deck.len() == 24,
                deck.no_duplicates(),
                start.board.wf(),
                self@.wf(),
                self@ == (GameView {
                    board: start.board.flooded_by(deck.take(i as int)),
                    flood_deck: deck.skip(i as int),
                    flood_discard: deck.take(i as int),
                    ..start
                }),
                forall|name: IslandCardName|
                    (#[trigger] self@.board.card(name)).state == if deck.take(i as int).contains(
                        FloodCard { island_card: name },
                    ) {
                        IslandCardState::Flooded
                    } else {
                        IslandCardState::Normal
                    },
            decreases 6 - i,
        {
            let ghost before = self@;
            let ghost card = deck[i as int];
            proof {
                assert(before.flood_deck[0] == card);
                let seen = deck.take(i as int);
                if seen.contains(card) {
                    let at = choose|at: int| 0 <= at < seen.len() && seen[at] == card;
                    assert(deck[at] == deck[i as int]);
                }
                assert(before.board.card(card.island_card).state == IslandCardState::Normal);
                before.board.lemma_sink_one(card.island_card);
                assert(deck.take(i + 1).drop_last() =~= deck.take(i as int));
                assert(deck.take(i + 1).last() == card);
                assert(deck.skip(i as int).drop_first() =~= deck.skip(i + 1));
                assert(deck.take(i as int).push(card) =~= deck.take(i + 1));
            }
            self.draw_flood_card();
            proof {
                let seen = deck.take(i as int);
                let next = deck.take(i + 1);
                assert forall|name: IslandCardName|
                    (#[trigger] self@.board.card(name)).state == if next.contains(
                        FloodCard { island_card: name },
                    ) {
                        IslandCardState::Flooded
                    } else {
                        IslandCardState::Normal
                    } by {
                    let wanted = FloodCard { island_card: name };
                    if name == card.island_card {
                        assert(next[i as int] == wanted);
                    } else {
                        if next.contains(wanted) {
                            let at = choose|at: int| 0 <= at < next.len() && next[at] == wanted;
                            assert(seen[at] == wanted);
                        }
                        if seen.contains(wanted) {
                            let at = choose|at: int| 0 <= at < seen.len() && seen[at] == wanted;
                            assert(next[at] == wanted);
                        }
                    }
                }
            }
            i += 1;
        }
    }

    /// The adventurers appear: the first `count` cards of `adventurer_deck`
    /// are drawn, and the adventurer of each stands on its starting tile
    /// with an empty hand.
    pub fn appear(&mut self, adventurer_deck: &mut Deck<AdventurerCard>, count: usize)
        requires
            old(self)@.wf(),
            old(self)@.adventurers.len() == 0,
            old(adventurer_deck)@.no_duplicates(),
            count <= old(adventurer_deck)@.len() <= 6,
        ensures
            final(self)@.wf(),
            final(self)@ == (GameView {
                adventurers: Seq::new(
                    count as nat,
                    |i: int|
                        AdventurerView {
                            role: old(adventurer_deck)@[i].adventurer_type,
                            pos: old(self)@.board.location(
                                old(adventurer_deck)@[i].adventurer_type.spec_start_card(),
                            ),
                            hand: Seq::empty(),
                        },
                ),
                ..old(self)@
            }),
            final(adventurer_deck)@ == old(adventurer_deck)@.skip(count as int),
    {
        let ghost start = self@;
        let ghost roles = adventurer_deck@;
        let mut i: usize = 0;
        proof {
            assert(roles.skip(0) =~= roles);
            assert(self@.adventurers =~= Seq::new(
                0nat,
                |i: int|
                    AdventurerView {
                        role: roles[i].adventurer_type,
                        pos: start.board.location(roles[i].adventurer_type.spec_start_card()),
                        hand: Seq::empty(),
                    },
            ));
        }
        while i < count
            invariant
                i <= count <= roles.len() <= 6,
                roles.no_duplicates(),
                start == old(self)@,
                start.wf(),
                adventurer_deck@ == roles.skip(i as int),
                self@.wf(),
                self@ == (GameView {
                    adventurers: Seq::new(
                        i as nat,
                        |i: int|
                            AdventurerView {
                                role: roles[i].adventurer_type,
                                pos: start.board.location(
                                    roles[i].adventurer_type.spec_start_card(),
                                ),
                                hand: Seq::empty(),
                            },
                    ),
                    ..start
                }),
            decreases count - i,
        {
            let ghost before = self@;
            let card = adventurer_deck.pop_next().unwrap();
            assert(card == roles[i as int]);
            assert(adventurer_deck@ =~= roles.skip(i + 1));
            let adventurer = Adventurer::new(card, &self.board);
            let ghost newcomer = adventurer@;
            self.adventurers.push(adventurer);
            proof {
                assert(self@.adventurers =~= before.adventurers.push(newcomer));
                let after = Seq::new(
                    (i + 1) as nat,
                    |i: int|
                        AdventurerView {
                            role: roles[i].adventurer_type,
                            pos: start.board.location(roles[i].adventurer_type.spec_start_card()),
                            hand: Seq::empty(),
                        },
                );
                assert(self@.adventurers =~= after);
                assert(self@.adventurers.drop_last() =~= before.adventurers);
                Seq::<TreasureCard>::empty().to_multiset_ensures();
                assert(self@.adventurers.last().hand =~= Seq::<TreasureCard>::empty());
                assert(self@.all_treasure_cards() =~= before.all_treasure_cards());
                assert forall|a: int, b: int|
                    0 <= a < b < self@.adventurers.len() implies (#[trigger] self@.adventurers[a]).role
                    != (#[trigger] self@.adventurers[b]).role by {
                    assert(roles[a] != roles[b]);
                }
            }
            i += 1;
        }
    }

    /// One round of dealing: every adventurer is dealt a card, in the order
    /// of the roster.
    pub fn deal_round(&mut self)
        requires
            old(self)@.wf(),
            old(self)@.treasure_deck.len() >= 10,
            old(self)@.treasure_discard.len() + count_card(old(self)@.treasure_deck, rise_card())
                == 3,
        ensures
            final(self)@ == old(self)@.dealt_round(old(self)@.adventurers.len()),
            final(self)@ == (GameView {
                treasure_deck: final(self)@.treasure_deck,
                treasure_discard: final(self)@.treasure_discard,
                adventurers: final(self)@.adventurers,
                ..old(self)@
            }),
            final(self)@.wf(),
            final(self)@.adventurers.len() == old(self)@.adventurers.len(),
            final(self)@.treasure_discard.len() + count_card(final(self)@.treasure_deck, rise_card())
                == 3,
            final(self)@.treasure_deck.len() + final(self)@.treasure_discard.len()
                + old(self)@.adventurers.len() == old(self)@.treasure_deck.len()
                + old(self)@.treasure_discard.len(),
            forall|i: int|
                0 <= i < old(self)@.adventurers.len() ==> (#[trigger] final(self)@.adventurers[i])
                    == (AdventurerView {
                    hand: final(self)@.adventurers[i].hand,
                    ..old(self)@.adventurers[i]
                }) && final(self)@.adventurers[i].hand.drop_last() == old(self)@.adventurers[i].hand
                    && final(self)@.adventurers[i].hand.len() == old(self)@.adventurers[i].hand.len()
                    + 1 && final(self)@.adventurers[i].hand.last() != rise_card(),
    {
        let ghost start = self@;
        let count = self.adventurers.len();
        let mut i: usize = 0;
        while i < count
            invariant
                i <= count <= 6,
                start == old(self)@,
                count == start.adventurers.len(),
                start.treasure_deck.len() >= 10,
                self@ == start.dealt_round(i as nat),
                self@ == (GameView {
                    treasure_deck: self@.treasure_deck,
                    treasure_discard: self@.treasure_discard,
                    adventurers: self@.adventurers,
                    ..start
                }),
                self@.wf(),
                self@.adventurers.len() == count,
                self@.treasure_discard.len() + count_card(self@.treasure_deck, rise_card()) == 3,
                self@.treasure_deck.len() + self@.treasure_discard.len() + i
                    == start.treasure_deck.len() + start.treasure_discard.len(),
                forall|j: int|
                    i <= j < count ==> (#[trigger] self@.adventurers[j]) == start.adventurers[j],
                forall|j: int|
                    0 <= j < i ==> (#[trigger] self@.adventurers[j]) == (AdventurerView {
                        hand: self@.adventurers[j].hand,
                        ..start.adventurers[j]
                    }) && self@.adventurers[j].hand.drop_last() == start.adventurers[j].hand
                        && self@.adventurers[j].hand.len() == start.adventurers[j].hand.len() + 1
                        && self@.adventurers[j].hand.last() != rise_card(),
            decreases count - i,
        {
            let ghost before = self@;
            proof {
                before.lemma_dealt(i as int);
                lemma_leading_rises(before.treasure_deck);
            }
            self.deal_card(i);
            proof {
                let hand = before.adventurers[i as int].hand;
                let card = before.treasure_deck[leading_rises(before.treasure_deck) as int];
                assert(hand.push(card).drop_last() =~= hand);
            }
            i += 1;
        }
    }

    /// Sets up a game from decks that are shuffled already: the island is
    /// laid out from `island_deck`, six tiles flood, the first
    /// `adventurers_count` roles of `adventurer_deck` appear, every
    /// adventurer is dealt two cards, one per round, and the water rise
    /// cards that came up go back under the treasure deck.
    pub fn set_up(
        rng: ChaCha20Rng,
        island_deck: Deck<IslandCard>,
        treasure_deck: Deck<TreasureCard>,
        flood_deck: Deck<FloodCard>,
        adventurer_deck: Deck<AdventurerCard>,
        adventurers_count: usize,
        water_level: usize,
    ) -> (game: Game)
        requires
            is_shuffle_of(island_deck@, IslandCard::spec_deck()),
            is_shuffle_of(treasure_deck@, TreasureCard::spec_deck()),
            is_shuffle_of(flood_deck@, FloodCard::spec_deck()),
            is_shuffle_of(adventurer_deck@, AdventurerCard::spec_deck()),
            adventurers_count <= 6,
            water_level <= 9,
        ensures
            game@.wf(),
            game@.board.cells.len() == 24,
            forall|i: int|
                0 <= i < 24 ==> (#[trigger] game@.board.cells[i]).name == island_deck@[i].name,
            game@ == GameView::set_up(
                BoardView { cells: island_deck@, slots: game@.board.slots },
                treasure_deck@,
                flood_deck@,
                adventurer_deck@,
                adventurers_count as nat,
                water_level,
            ),
            game@.is_fresh(adventurers_count as nat, water_level),
    {
        proof {
            lemma_shuffled_island_deck(island_deck@);
            lemma_shuffled_flood_deck(flood_deck@);
            lemma_shuffled_role_deck(adventurer_deck@);
            lemma_shuffled_treasure_deck(treasure_deck@);
        }
        let ghost roles = adventurer_deck@;
        let ghost tiles = island_deck@;
        let mut island_deck = island_deck;
        let mut adventurer_deck = adventurer_deck;
        let board = Board::new(&mut island_deck);
        let ghost island = board@;
        let mut game = Game {
            rng,
            treasure_deck,
            treasure_discard_deck: Deck::with_capacity(28),
            flood_deck,
            flood_discard_deck: Deck::with_capacity(24),
            adventurers: Vec::new(),
            board,
            water_level,
            captured_treasures: TreasureSet::new(),
            used_pilot_move: false,
        };
        proof {
            assert(game@.adventurers =~= Seq::<AdventurerView>::empty());
            Seq::<TreasureCard>::empty().to_multiset_ensures();
            assert(game@.treasure_discard =~= Seq::<TreasureCard>::empty());
            assert(game@.all_treasure_cards() =~= treasure_deck@.to_multiset());
            assert(game@.flood_pile() =~= flood_deck@);
            island.lemma_none_sunk(24);
            assert forall|name: IslandCardName|
                (#[trigger] game@.board.card(name)).state == IslandCardState::Normal by {
                crate::structs::cards::island::lemma_index_round_trip(name, 0);
            }
        }
        game.start_flood();
        game.appear(&mut adventurer_deck, adventurers_count);
        let ghost laid = game@;
        proof {
            island.lemma_flooded_by_keeps_places(flood_deck@.take(6));
            assert(laid.adventurers =~= GameView::laid_out(
                island,
                treasure_deck@,
                flood_deck@,
                roles,
                adventurers_count as nat,
                water_level,
            ).adventurers);
        }
        assert(laid == GameView::laid_out(
            island,
            treasure_deck@,
            flood_deck@,
            roles,
            adventurers_count as nat,
            water_level,
        ));
        game.deal_round();
        let ghost once = game@;
        game.deal_round();
        let ghost dealt = game@;
        game.treasure_deck.stack(&mut game.treasure_discard_deck);
        proof {
            assert(game@ == dealt.restacked());
            vstd::seq_lib::lemma_multiset_commutative(dealt.treasure_deck, dealt.treasure_discard);
            Seq::<TreasureCard>::empty().to_multiset_ensures();
            assert(game@.all_treasure_cards() =~= dealt.all_treasure_cards());
            assert(island == (BoardView { cells: tiles, slots: game@.board.slots }));
            assert(game@.board == laid.board);
            assert forall|i: int| 0 <= i < adventurers_count implies (
            #[trigger] game@.adventurers[i]).hand.len() == 2 && game@.adventurers[i].hand[0]
                != rise_card() && game@.adventurers[i].hand[1] != rise_card()
                && game@.adventurers[i].pos == game@.board.location(
                game@.adventurers[i].role.spec_start_card(),
            ) by {
                let hand = game@.adventurers[i].hand;
                assert(dealt.adventurers[i].hand == hand);
                assert(laid.adventurers[i].hand.len() == 0);
                assert(once.adventurers[i].hand.len() == 1);
                assert(once.adventurers[i].hand.last() != rise_card());
                assert(hand.drop_last() == once.adventurers[i].hand);
                assert(hand.drop_last().last() == hand[0]);
                assert(hand.last() == hand[1]);
                assert(dealt.adventurers[i].hand.last() != rise_card());
                assert(game@.adventurers[i].role == laid.adventurers[i].role);
                assert(game@.adventurers[i].pos == laid.adventurers[i].pos);
            }
            lemma_three_rises();
            lemma_count_card_is_count(TreasureCard::spec_deck(), rise_card());
            lemma_count_card_is_count(game@.treasure_deck, rise_card());
            super::model::lemma_cards_held_none(game@.adventurers, rise_card());
            assert(game@.all_treasure_cards().count(rise_card()) == 3);
        }
        game
    }

    /// Sets up a new game for `adventurers_count` adventurers at water level
    /// `water_level`.  The four decks are shuffled with `rng`, the game is
    /// set up from them, and the treasure deck is shuffled once more.
    pub fn new(rng: ChaCha20Rng, adventurers_count: usize, water_level: usize) -> (game: Game)
        requires
            adventurers_count <= 6,
            water_level <= 9,
        ensures
            game@.wf(),
            game@.is_fresh(adventurers_count as nat, water_level),
    {
        let mut rng = rng;
        let mut island_deck = IslandCard::get_deck();
        let mut adventurer_deck = AdventurerCard::get_deck();
        let mut treasure_deck = TreasureCard::get_deck();
        let mut flood_deck = FloodCard::get_deck();
        island_deck.shuffle(&mut rng);
        treasure_deck.shuffle(&mut rng);
        flood_deck.shuffle(&mut rng);
        adventurer_deck.shuffle(&mut rng);
        let mut game = Self::set_up(
            rng,
            island_deck,
            treasure_deck,
            flood_deck,
            adventurer_deck,
            adventurers_count,
            water_level,
        );
        let ghost ready = game@;
        game.treasure_deck.shuffle(&mut game.rng);
        proof {
            lemma_shuffle_keeps(game@.treasure_deck, ready.treasure_deck);
            lemma_count_card_is_count(game@.treasure_deck, rise_card());
            lemma_count_card_is_count(ready.treasure_deck, rise_card());
            assert(game@.all_treasure_cards() =~= ready.all_treasure_cards());
        }
        game
    }
}

} // verus!
