//! The rules of the game, stated over [`GameView`].

use vstd::multiset::Multiset;
use vstd::prelude::*;

use super::listing::spec_first_of_each;
use super::moves::MoveType;
use super::{captured_count, GameView};
use crate::structs::board::{spec_slot, valid_coord, ISLAND_COORDS};
use crate::structs::cards::adventurer::{AdventurerCardType, AdventurerView};
use crate::structs::cards::flood::FloodCard;
use crate::structs::cards::island::{IslandCardName, IslandCardState};
use crate::structs::cards::treasure::{TreasureCard, TreasureCardType, TreasureType};

verus! {

/// Mapping nothing to lists and laying the lists end to end gives nothing.
pub proof fn lemma_flat_map_of_none<A, B>(list: Seq<A>, each: spec_fn(A) -> Seq<B>)
    ensures
        list.take(0).flat_map(each) == Seq::<B>::empty(),
{
    assert(list.take(0).map_values(each) =~= Seq::<Seq<B>>::empty());
    reveal_with_fuel(Seq::flatten, 2);
    assert(list.take(0).flat_map(each) =~= Seq::<B>::empty());
}

/// The number of cards that the adventurers `hands` hold together.
pub open spec fn cards_in_hands(hands: Seq<AdventurerView>) -> nat
    decreases hands.len(),
{
    if hands.len() == 0 {
        0
    } else {
        cards_in_hands(hands.drop_last()) + hands.last().hand.len()
    }
}

/// The cards that the adventurers `hands` hold together, each as often as
/// it is held.
pub open spec fn cards_held(hands: Seq<AdventurerView>) -> Multiset<TreasureCard>
    decreases hands.len(),
{
    if hands.len() == 0 {
        Multiset::empty()
    } else {
        cards_held(hands.drop_last()).add(hands.last().hand.to_multiset())
    }
}

/// The four cards that were given for treasure `kind`, if it is among
/// `captured`.
pub open spec fn cards_given_for(captured: Set<TreasureType>, kind: TreasureType) -> Multiset<
    TreasureCard,
> {
    if captured.contains(kind) {
        Multiset::empty().insert(treasure_card(kind)).insert(treasure_card(kind)).insert(
            treasure_card(kind),
        ).insert(treasure_card(kind))
    } else {
        Multiset::empty()
    }
}

/// The cards that were given for the treasures `captured`: four for each.
pub open spec fn cards_captured(captured: Set<TreasureType>) -> Multiset<TreasureCard> {
    cards_given_for(captured, TreasureType::Earth).add(
        cards_given_for(captured, TreasureType::Wind),
    ).add(cards_given_for(captured, TreasureType::Fire)).add(
        cards_given_for(captured, TreasureType::Ocean),
    )
}

/// Whether `a` holds the cards of `b`, each as often, in some order.
pub open spec fn is_shuffle_of<T>(a: Seq<T>, b: Seq<T>) -> bool {
    a.to_multiset() == b.to_multiset()
}

/// The number of steps between two places, counted along rows and columns.
pub open spec fn spec_distance(a: (usize, usize), b: (usize, usize)) -> int {
    (if a.0 <= b.0 {
        b.0 - a.0
    } else {
        a.0 - b.0
    }) + (if a.1 <= b.1 {
        b.1 - a.1
    } else {
        a.1 - b.1
    })
}

/// The steps, as changes of column and row, that lead from a place to the
/// places around it and to the place itself: all nine for `diagonal`, else
/// the five that share a row or a column.  The order is fixed.
pub open spec fn spec_steps(diagonal: bool) -> Seq<(isize, isize)> {
    if diagonal {
        seq![
            (1isize, 1isize),
            (0isize, 1isize),
            (-1isize, 1isize),
            (1isize, 0isize),
            (0isize, 0isize),
            (-1isize, 0isize),
            (1isize, -1isize),
            (0isize, -1isize),
            (-1isize, -1isize),
        ]
    } else {
        seq![
            (0isize, 1isize),
            (-1isize, 0isize),
            (0isize, 0isize),
            (1isize, 0isize),
            (0isize, -1isize),
        ]
    }
}

/// Whether the step `step` from `pos` ends on a place that holds a tile.
pub open spec fn lands(pos: (usize, usize), step: (isize, isize)) -> bool {
    &&& pos.0 + step.0 >= 0
    &&& pos.1 + step.1 >= 0
    &&& pos.0 + step.0 <= 5
    &&& pos.1 + step.1 <= 5
    &&& valid_coord(((pos.0 + step.0) as usize, (pos.1 + step.1) as usize))
}

/// The place where the step `step` from `pos` ends.
pub open spec fn stepped(pos: (usize, usize), step: (isize, isize)) -> (usize, usize) {
    ((pos.0 + step.0) as usize, (pos.1 + step.1) as usize)
}

/// The places with a tile around `pos`, and `pos` itself, in the order of
/// [`spec_steps`].
pub open spec fn spec_around(pos: (usize, usize), diagonal: bool) -> Seq<(usize, usize)> {
    spec_steps(diagonal).filter(|step: (isize, isize)| lands(pos, step)).map_values(
        |step: (isize, isize)| stepped(pos, step),
    )
}

/// What the cards of `hand` show, as codes.
pub open spec fn codes_of(hand: Seq<TreasureCard>) -> Seq<u8> {
    hand.map_values(|card: TreasureCard| card.treasure_type.spec_code())
}

/// The positions of `hand` that hold the first copy of their card.
pub open spec fn first_copies(hand: Seq<TreasureCard>) -> Seq<usize> {
    spec_first_of_each(codes_of(hand))
}

/// The number of cards `card` in `hand`.
pub open spec fn count_card(hand: Seq<TreasureCard>, card: TreasureCard) -> nat
    decreases hand.len(),
{
    if hand.len() == 0 {
        0
    } else {
        (if hand[0] == card {
            1nat
        } else {
            0nat
        }) + count_card(hand.drop_first(), card)
    }
}

/// `hand` without its first `n` cards `card`; the other cards keep their
/// order.
pub open spec fn without_first(hand: Seq<TreasureCard>, card: TreasureCard, n: nat) -> Seq<
    TreasureCard,
>
    decreases hand.len(),
{
    if hand.len() == 0 || n == 0 {
        hand
    } else if hand[0] == card {
        without_first(hand.drop_first(), card, (n - 1) as nat)
    } else {
        seq![hand[0]] + without_first(hand.drop_first(), card, n)
    }
}

/// The card that shows treasure `kind`.
pub open spec fn treasure_card(kind: TreasureType) -> TreasureCard {
    TreasureCard { treasure_type: TreasureCardType::Treasure(kind) }
}

/// The two tiles on which treasure `kind` can be captured.
pub open spec fn spec_retrieved_from(kind: TreasureType) -> (IslandCardName, IslandCardName) {
    match kind {
        TreasureType::Earth => (IslandCardName::TempleOfTheSun, IslandCardName::TempleOfTheMoon),
        TreasureType::Wind => (IslandCardName::WhisperingGarden, IslandCardName::HowlingGarden),
        TreasureType::Fire => (IslandCardName::CaveOfEmbers, IslandCardName::CaveOfShadows),
        TreasureType::Ocean => (IslandCardName::TidalPalace, IslandCardName::CoralPalace),
    }
}

/// How many flood cards are drawn at the end of a turn at water level
/// `water_level`, below the level at which the game is lost.
pub open spec fn spec_flood_draw_count(water_level: usize) -> usize {
    if water_level <= 1 {
        2
    } else if water_level <= 4 {
        3
    } else if water_level <= 6 {
        4
    } else {
        5
    }
}

impl GameView {
    // ----- the state as a whole -----
    /// The treasure cards that are accounted for: those in the deck, in the
    /// discard pile and in the hands, and four for each captured treasure.
    pub open spec fn treasure_cards(self) -> nat {
        self.treasure_deck.len() + self.treasure_discard.len() + cards_in_hands(self.adventurers)
            + 4 * captured_count(self.captured)
    }

    /// The treasure cards that are accounted for, each as often as it is:
    /// those in the deck, on the discard pile and in the hands, and those
    /// given for the captured treasures.
    pub open spec fn all_treasure_cards(self) -> Multiset<TreasureCard> {
        self.treasure_deck.to_multiset().add(self.treasure_discard.to_multiset()).add(
            cards_held(self.adventurers),
        ).add(cards_captured(self.captured))
    }

    /// The flood cards in play: the deck, then the discard pile.
    pub open spec fn flood_pile(self) -> Seq<FloodCard> {
        self.flood_deck + self.flood_discard
    }

    /// The flood cards in play are those of the tiles that have not sunk,
    /// each once: with the sunk tiles they make twenty-four.
    pub open spec fn flood_tracks(self) -> bool {
        &&& self.flood_pile().no_duplicates()
        &&& forall|name: IslandCardName| #[trigger]
            self.flood_pile().contains(FloodCard { island_card: name }) <==> self.board.card(
                name,
            ).state != IslandCardState::Sunk
        &&& self.flood_pile().len() + self.board.sunk_count() == 24
    }

    /// The flood cards track the tiles, and the flood deck is only empty
    /// when the flood discard pile is.
    pub open spec fn flood_wf(self) -> bool {
        &&& self.flood_tracks()
        &&& self.flood_deck.len() == 0 ==> self.flood_discard.len() == 0
    }

    /// What holds of every state of a game, but for the count of the
    /// treasure cards: the board is well formed, the adventurers stand on
    /// places with a tile and have different roles, the water level is on
    /// the scale, and the flood cards match the tiles that have not sunk.
    pub open spec fn sound(self) -> bool {
        &&& self.board.wf()
        &&& self.adventurers.len() <= 6
        &&& forall|i: int|
            0 <= i < self.adventurers.len() ==> valid_coord((#[trigger] self.adventurers[i]).pos)
        &&& forall|i: int, j: int|
            0 <= i < j < self.adventurers.len() ==> (#[trigger] self.adventurers[i]).role != (
            #[trigger] self.adventurers[j]).role
        &&& self.water_level <= 9
        &&& self.flood_wf()
    }

    /// What holds of every state of a game: it is sound, and the treasure
    /// cards accounted for are the twenty-eight cards of the printed deck.
    pub open spec fn wf(self) -> bool {
        &&& self.sound()
        &&& self.treasure_cards() == 28
        &&& self.all_treasure_cards() == TreasureCard::spec_deck().to_multiset()
    }

    /// The state of the tile at `coord`, which must hold a tile.
    pub open spec fn state_at(self, coord: (usize, usize)) -> IslandCardState {
        self.board.cells[spec_slot(coord)].state
    }

    /// Whether an adventurer holds a card that shows `card_type`.
    pub open spec fn someone_holds(self, card_type: TreasureCardType) -> bool {
        exists|i: int, j: int|
            0 <= i < self.adventurers.len() && 0 <= j < self.adventurers[i].hand.len()
                && (#[trigger] self.adventurers[i].hand[j]).treasure_type == card_type
    }

    // ----- the end of the game -----
    /// The game is won when all four treasures are captured, every
    /// adventurer stands on the landing site, and one of them holds a
    /// helicopter lift.
    pub open spec fn wins(self) -> bool {
        &&& forall|kind: TreasureType| self.captured.contains(kind)
        &&& forall|i: int|
            0 <= i < self.adventurers.len() ==> (#[trigger] self.adventurers[i]).pos
                == self.board.location(IslandCardName::FoolsLanding)
        &&& self.someone_holds(TreasureCardType::HelicopterLift)
    }

    /// The game is lost when the water stands at the top of the scale.
    pub open spec fn water_too_high(self) -> bool {
        self.water_level == 9
    }

    /// The game is lost when the landing site has sunk.
    pub open spec fn extraction_sunk(self) -> bool {
        self.board.card(IslandCardName::FoolsLanding).state == IslandCardState::Sunk
    }

    /// Treasure `kind` is out of reach when it is not captured and both of
    /// its tiles have sunk.
    pub open spec fn unreachable(self, kind: TreasureType) -> bool {
        &&& !self.captured.contains(kind)
        &&& self.board.card(spec_retrieved_from(kind).0).state == IslandCardState::Sunk
        &&& self.board.card(spec_retrieved_from(kind).1).state == IslandCardState::Sunk
    }

    /// The first treasure, in the fixed order of treasures, that is out of
    /// reach.
    pub open spec fn first_unreachable(self) -> Option<TreasureType> {
        if self.unreachable(TreasureType::Earth) {
            Some(TreasureType::Earth)
        } else if self.unreachable(TreasureType::Wind) {
            Some(TreasureType::Wind)
        } else if self.unreachable(TreasureType::Fire) {
            Some(TreasureType::Fire)
        } else if self.unreachable(TreasureType::Ocean) {
            Some(TreasureType::Ocean)
        } else {
            None
        }
    }

    // ----- moving -----
    /// The places that an adventurer's way of moving leads to from `pos`,
    /// whatever lies there: every place of the island for a pilot who can
    /// still fly, the places around `pos` in all eight directions for the
    /// explorer, in four directions for the others.
    pub open spec fn candidates(role: AdventurerCardType, can_fly: bool, pos: (usize, usize)) -> Seq<
        (usize, usize),
    > {
        if role == AdventurerCardType::Pilot && can_fly {
            ISLAND_COORDS@
        } else {
            spec_around(pos, role == AdventurerCardType::Explorer)
        }
    }

    /// Whether an adventurer at `from` may end a move at `to`: another
    /// place, with a tile, that has not sunk, unless the adventurer dives.
    pub open spec fn may_enter(self, from: (usize, usize), to: (usize, usize), dives: bool) -> bool {
        &&& to != from
        &&& valid_coord(to)
        &&& (dives || self.state_at(to) != IslandCardState::Sunk)
    }

    /// The places that `adventurer` can move to in one action.
    pub open spec fn moves(self, adventurer: AdventurerView) -> Seq<(usize, usize)> {
        Self::candidates(adventurer.role, !self.used_pilot_move, adventurer.pos).filter(
            |to: (usize, usize)|
                self.may_enter(adventurer.pos, to, adventurer.role == AdventurerCardType::Diver),
        )
    }

    /// The flooded places that an adventurer of role `role` at `pos` can
    /// shore up: its own and those around it.
    pub open spec fn shorable_by(self, role: AdventurerCardType, pos: (usize, usize)) -> Seq<
        (usize, usize),
    > {
        spec_around(pos, role == AdventurerCardType::Explorer).filter(
            |to: (usize, usize)| self.board.is_at(to, IslandCardState::Flooded),
        )
    }
}

/// The kind of move that takes `adventurer` to `to`: a flight for the
/// pilot going further than one step, a plain move otherwise.
pub open spec fn classify(adventurer: AdventurerView, to: (usize, usize)) -> MoveType {
    if adventurer.role == AdventurerCardType::Pilot && spec_distance(adventurer.pos, to) > 1 {
        MoveType::PilotMove(to)
    } else {
        MoveType::Move(to)
    }
}

/// The place where a move ends.
pub open spec fn target(option: MoveType) -> (usize, usize) {
    match option {
        MoveType::Move(to) => to,
        MoveType::PilotMove(to) => to,
        MoveType::NavigatorMove(_, to) => to,
    }
}

/// The hands of `adventurers` hold as many cards as before when one of
/// them is replaced by an adventurer with as many cards.
pub proof fn lemma_cards_in_hands_update(
    adventurers: Seq<AdventurerView>,
    i: int,
    adventurer: AdventurerView,
)
    requires
        0 <= i < adventurers.len(),
    ensures
        cards_in_hands(adventurers.update(i, adventurer)) + adventurers[i].hand.len()
            == cards_in_hands(adventurers) + adventurer.hand.len(),
    decreases adventurers.len(),
{
    let updated = adventurers.update(i, adventurer);
    if i == adventurers.len() - 1 {
        assert(updated.drop_last() =~= adventurers.drop_last());
    } else {
        assert(updated.drop_last() =~= adventurers.drop_last().update(i, adventurer));
        lemma_cards_in_hands_update(adventurers.drop_last(), i, adventurer);
    }
}

/// No hand holds more cards than all hands together.
pub proof fn lemma_hand_within_total(adventurers: Seq<AdventurerView>, i: int)
    requires
        0 <= i < adventurers.len(),
    ensures
        adventurers[i].hand.len() <= cards_in_hands(adventurers),
    decreases adventurers.len(),
{
    if i < adventurers.len() - 1 {
        lemma_hand_within_total(adventurers.drop_last(), i);
    }
}

/// The hands of `adventurers` hold the same cards as before, but for the
/// hand that changes, when one of them is replaced.
pub proof fn lemma_cards_held_update(
    adventurers: Seq<AdventurerView>,
    i: int,
    adventurer: AdventurerView,
)
    requires
        0 <= i < adventurers.len(),
    ensures
        cards_held(adventurers.update(i, adventurer)).add(adventurers[i].hand.to_multiset())
            == cards_held(adventurers).add(adventurer.hand.to_multiset()),
    decreases adventurers.len(),
{
    broadcast use vstd::multiset::group_multiset_axioms;

    let updated = adventurers.update(i, adventurer);
    let rest = adventurers.drop_last();
    if i == adventurers.len() - 1 {
        assert(updated.drop_last() =~= rest);
        assert(updated.last() == adventurer);
        assert(cards_held(updated) == cards_held(rest).add(adventurer.hand.to_multiset()));
        assert(cards_held(adventurers) == cards_held(rest).add(
            adventurers[i].hand.to_multiset(),
        ));
    } else {
        assert(updated.drop_last() =~= rest.update(i, adventurer));
        lemma_cards_held_update(rest, i, adventurer);
        assert(updated.last() == adventurers.last());
        assert(rest[i] == adventurers[i]);
        assert(cards_held(updated) == cards_held(rest.update(i, adventurer)).add(
            adventurers.last().hand.to_multiset(),
        ));
        assert(cards_held(adventurers) == cards_held(rest).add(
            adventurers.last().hand.to_multiset(),
        ));
        let changed = cards_held(rest.update(i, adventurer)).add(adventurers[i].hand.to_multiset());
        let kept = cards_held(rest).add(adventurer.hand.to_multiset());
        assert forall|card: TreasureCard|
            cards_held(updated).add(adventurers[i].hand.to_multiset()).count(card) == cards_held(
                adventurers,
            ).add(adventurer.hand.to_multiset()).count(card) by {
            assert(changed.count(card) == kept.count(card));
        }
    }
    assert(cards_held(updated).add(adventurers[i].hand.to_multiset()) =~= cards_held(
        adventurers,
    ).add(adventurer.hand.to_multiset()));
}

/// Card by card, the hands of `adventurers` hold what they held before, but
/// for the hand that changes, when one of them is replaced.
pub proof fn lemma_cards_held_count(
    adventurers: Seq<AdventurerView>,
    i: int,
    adventurer: AdventurerView,
    card: TreasureCard,
)
    requires
        0 <= i < adventurers.len(),
    ensures
        cards_held(adventurers.update(i, adventurer)).count(card)
            + adventurers[i].hand.to_multiset().count(card) == cards_held(adventurers).count(card)
            + adventurer.hand.to_multiset().count(card),
{
    broadcast use vstd::multiset::group_multiset_axioms;

    lemma_cards_held_update(adventurers, i, adventurer);
    let changed = cards_held(adventurers.update(i, adventurer)).add(
        adventurers[i].hand.to_multiset(),
    );
    let kept = cards_held(adventurers).add(adventurer.hand.to_multiset());
    assert(changed.count(card) == kept.count(card));
}

/// Taking the first `n` cards `card` out of a hand that holds at least `n`
/// of them takes `n` cards `card` out of it and no other card.
pub proof fn lemma_without_first_cards(
    hand: Seq<TreasureCard>,
    card: TreasureCard,
    n: nat,
    other: TreasureCard,
)
    requires
        count_card(hand, card) >= n,
    ensures
        hand.to_multiset().count(other) == without_first(hand, card, n).to_multiset().count(other)
            + if other == card {
            n
        } else {
            0
        },
    decreases hand.len(),
{
    broadcast use vstd::multiset::group_multiset_axioms;

    if hand.len() == 0 || n == 0 {
    } else {
        let rest = hand.drop_first();
        assert(rest =~= hand.remove(0));
        vstd::seq_lib::to_multiset_remove(hand, 0);
        hand.to_multiset_ensures();
        assert(hand.contains(hand[0]));
        if hand[0] == card {
            lemma_without_first_cards(rest, card, (n - 1) as nat, other);
        } else {
            lemma_without_first_cards(rest, card, n, other);
            let kept = without_first(rest, card, n);
            let whole = seq![hand[0]] + kept;
            assert(whole.remove(0) =~= kept);
            vstd::seq_lib::to_multiset_remove(whole, 0);
            whole.to_multiset_ensures();
            assert(whole.contains(whole[0]));
        }
    }
}

/// A card that is in no hand is not among the cards held.
pub proof fn lemma_cards_held_none(hands: Seq<AdventurerView>, card: TreasureCard)
    requires
        forall|i: int, j: int|
            0 <= i < hands.len() && 0 <= j < hands[i].hand.len() ==> #[trigger] hands[i].hand[j]
                != card,
    ensures
        cards_held(hands).count(card) == 0,
    decreases hands.len(),
{
    broadcast use vstd::multiset::group_multiset_axioms;

    if hands.len() > 0 {
        lemma_cards_held_none(hands.drop_last(), card);
        let hand = hands.last().hand;
        hand.to_multiset_ensures();
        if hand.contains(card) {
            let j = choose|j: int| 0 <= j < hand.len() && hand[j] == card;
            assert(hands[hands.len() - 1].hand[j] == card);
        }
    }
}

/// Two rosters with the same hands hold the same cards.
pub proof fn lemma_cards_held_same(a: Seq<AdventurerView>, b: Seq<AdventurerView>)
    requires
        a.len() == b.len(),
        forall|i: int| 0 <= i < a.len() ==> (#[trigger] a[i]).hand == b[i].hand,
    ensures
        cards_held(a) == cards_held(b),
    decreases a.len(),
{
    if a.len() > 0 {
        lemma_cards_held_same(a.drop_last(), b.drop_last());
    }
}

/// Two rosters whose hands have the same sizes hold as many cards.
pub proof fn lemma_cards_in_hands_same(a: Seq<AdventurerView>, b: Seq<AdventurerView>)
    requires
        a.len() == b.len(),
        forall|i: int| 0 <= i < a.len() ==> (#[trigger] a[i]).hand.len() == b[i].hand.len(),
    ensures
        cards_in_hands(a) == cards_in_hands(b),
    decreases a.len(),
{
    if a.len() > 0 {
        lemma_cards_in_hands_same(a.drop_last(), b.drop_last());
    }
}

impl GameView {
    // ----- the action: move -----
    /// The moves of the acting adventurer itself.
    pub open spec fn own_moves(self, who: int) -> Seq<MoveType> {
        self.moves(self.adventurers[who]).map_values(
            |to: (usize, usize)| classify(self.adventurers[who], to),
        )
    }

    /// The moves on which the navigator can send `adventurer`: none for the
    /// navigator itself.
    pub open spec fn sent_moves(self, adventurer: AdventurerView) -> Seq<MoveType> {
        if adventurer.role == AdventurerCardType::Navigator {
            Seq::empty()
        } else {
            self.moves(adventurer).map_values(
                |to: (usize, usize)| MoveType::NavigatorMove(adventurer.role, to),
            )
        }
    }

    /// The moves on offer to the adventurer at position `who` of the roster:
    /// its own, and for the navigator those of the others, adventurer by
    /// adventurer.
    pub open spec fn move_options(self, who: int) -> Seq<MoveType> {
        self.own_moves(who) + if self.adventurers[who].role == AdventurerCardType::Navigator {
            self.adventurers.flat_map(|a: AdventurerView| self.sent_moves(a))
        } else {
            Seq::empty()
        }
    }

    /// The game with the adventurer of role `role`, if there is one, at `to`.
    pub open spec fn with_pos(self, role: AdventurerCardType, to: (usize, usize)) -> GameView {
        GameView {
            adventurers: self.adventurers.map_values(
                |a: AdventurerView|
                    if a.role == role {
                        AdventurerView { pos: to, ..a }
                    } else {
                        a
                    },
            ),
            ..self
        }
    }

    /// The game after the adventurer at `who` has made the move `option`.
    pub open spec fn apply_move(self, who: int, option: MoveType) -> GameView {
        match option {
            MoveType::Move(to) => self.with_pos(self.adventurers[who].role, to),
            MoveType::PilotMove(to) => GameView {
                used_pilot_move: true,
                ..self.with_pos(self.adventurers[who].role, to)
            },
            MoveType::NavigatorMove(role, to) => self.with_pos(role, to),
        }
    }

    // ----- the action: shore up -----
    /// The game after the tile at `coord` has been shored up.
    pub open spec fn apply_shore_up(self, coord: (usize, usize)) -> GameView {
        GameView { board: self.board.shore_up(coord), ..self }
    }
}

impl GameView {
    // ----- the options as text -----
    /// The name of the tile at `coord`; no text for a place without a tile.
    pub open spec fn place_name(self, coord: (usize, usize)) -> Seq<char> {
        match self.board.card_at(coord) {
            Some(tile) => tile.name.spec_name(),
            None => Seq::empty(),
        }
    }

    /// The text that offers the move `option` to the adventurer at `who`.
    pub open spec fn move_label(self, who: int, option: MoveType) -> Seq<char> {
        match option {
            MoveType::Move(to) => "Move "@ + self.adventurers[who].role.spec_name() + " to "@
                + self.place_name(to),
            MoveType::PilotMove(to) => "Use Pilot skill to move to "@ + self.place_name(to),
            MoveType::NavigatorMove(role, to) => "Move "@ + role.spec_name() + " to "@
                + self.place_name(to),
        }
    }
}

impl GameView {
    /// Every place among the moves of an adventurer holds a tile.
    pub proof fn lemma_moves_are_valid(self, adventurer: AdventurerView)
        ensures
            forall|k: int|
                0 <= k < self.moves(adventurer).len() ==> valid_coord(
                    #[trigger] self.moves(adventurer)[k],
                ),
    {
        broadcast use Seq::lemma_filter_pred;

    }

    /// Every move on offer ends on a place that holds a tile.
    pub proof fn lemma_move_options_are_valid(self, who: int)
        requires
            0 <= who < self.adventurers.len(),
        ensures
            forall|k: int|
                0 <= k < self.move_options(who).len() ==> valid_coord(
                    target(#[trigger] self.move_options(who)[k]),
                ),
    {
        let own = self.own_moves(who);
        self.lemma_moves_are_valid(self.adventurers[who]);
        let sent = |a: AdventurerView| self.sent_moves(a);
        let rest = self.adventurers.flat_map(sent);
        assert(self.adventurers.take(self.adventurers.len() as int) =~= self.adventurers);
        assert forall|k: int| 0 <= k < rest.len() implies valid_coord(target(#[trigger] rest[k])) by {
            self.lemma_sent_moves_are_valid(self.adventurers.len() as int, k);
        }
    }

    /// Every move on which the navigator can send one of the first `n`
    /// adventurers ends on a place that holds a tile.
    pub proof fn lemma_sent_moves_are_valid(self, n: int, k: int)
        requires
            0 <= n <= self.adventurers.len(),
            0 <= k < self.adventurers.take(n).flat_map(|a: AdventurerView| self.sent_moves(a)).len(),
        ensures
            valid_coord(
                target(
                    self.adventurers.take(n).flat_map(|a: AdventurerView| self.sent_moves(a))[k],
                ),
            ),
        decreases n,
    {
        let sent = |a: AdventurerView| self.sent_moves(a);
        if n == 0 {
            lemma_flat_map_of_none(self.adventurers, sent);
        } else {
            let seen = self.adventurers.take(n - 1);
            let last = self.adventurers[n - 1];
            assert(self.adventurers.take(n) =~= seen.push(last));
            seen.lemma_flat_map_push(sent, last);
            if k < seen.flat_map(sent).len() {
                self.lemma_sent_moves_are_valid(n - 1, k);
            } else {
                self.lemma_moves_are_valid(last);
            }
        }
    }
}

impl GameView {
    /// The text that offers to shore up the tile at `coord`.
    pub open spec fn shore_label(self, coord: (usize, usize)) -> Seq<char> {
        "Shore up "@ + self.place_name(coord)
    }

    /// The places that the adventurer at `who` can shore up.
    pub open spec fn shore_options(self, who: int) -> Seq<(usize, usize)> {
        self.shorable_by(self.adventurers[who].role, self.adventurers[who].pos)
    }

    /// Every place that can be shored up holds a flooded tile.
    pub proof fn lemma_shorable_is_flooded(self, role: AdventurerCardType, pos: (usize, usize))
        ensures
            forall|k: int|
                0 <= k < self.shorable_by(role, pos).len() ==> self.board.is_at(
                    #[trigger] self.shorable_by(role, pos)[k],
                    IslandCardState::Flooded,
                ),
    {
        broadcast use Seq::lemma_filter_pred;

    }

}

/// Taking the first `n` cards `card` out of a hand that holds at least `n`
/// of them leaves `n` cards fewer, and `n` cards `card` fewer.
pub proof fn lemma_without_first(hand: Seq<TreasureCard>, card: TreasureCard, n: nat)
    requires
        count_card(hand, card) >= n,
    ensures
        without_first(hand, card, n).len() + n == hand.len(),
        count_card(without_first(hand, card, n), card) + n == count_card(hand, card),
    decreases hand.len(),
{
    if hand.len() == 0 || n == 0 {
    } else if hand[0] == card {
        lemma_without_first(hand.drop_first(), card, (n - 1) as nat);
    } else {
        lemma_without_first(hand.drop_first(), card, n);
        let rest = without_first(hand.drop_first(), card, n);
        assert((seq![hand[0]] + rest).drop_first() =~= rest);
    }
}

impl GameView {
    // ----- the action: give a card -----
    /// Whether the adventurer at `who` may give a card to `other`: another
    /// adventurer on the same place, or anywhere if the messenger gives.
    pub open spec fn may_receive(self, who: int, other: AdventurerView) -> bool {
        &&& other.role != self.adventurers[who].role
        &&& (self.adventurers[who].role == AdventurerCardType::Messenger || other.pos
            == self.adventurers[who].pos)
    }

    /// The gifts that the adventurer at `who` can make to `other`: each
    /// different card of its hand once, by the position of its first copy.
    pub open spec fn gifts_to(self, who: int, other: AdventurerView) -> Seq<
        (usize, AdventurerCardType),
    > {
        if self.may_receive(who, other) {
            first_copies(self.adventurers[who].hand).map_values(|card: usize| (card, other.role))
        } else {
            Seq::empty()
        }
    }

    /// The gifts on offer to the adventurer at `who`, receiver by receiver
    /// in the order of the roster: the position of the card in the hand, and
    /// the receiver's role.
    pub open spec fn give_options(self, who: int) -> Seq<(usize, AdventurerCardType)> {
        self.adventurers.flat_map(|other: AdventurerView| self.gifts_to(who, other))
    }

    /// The text that offers the gift `option` to the adventurer at `who`.
    pub open spec fn give_label(self, who: int, option: (usize, AdventurerCardType)) -> Seq<char> {
        "Give "@ + self.adventurers[who].hand[option.0 as int].treasure_type.spec_name()
            + " card to "@ + option.1.spec_name()
    }

    /// The game after the adventurer at `who` has given the card at
    /// position `card` of its hand to the adventurer of role `to`.
    pub open spec fn apply_give(self, who: int, card: int, to: AdventurerCardType) -> GameView {
        let giver = self.adventurers[who];
        GameView {
            adventurers: self.adventurers.map_values(
                |a: AdventurerView|
                    if a.role == giver.role {
                        AdventurerView { hand: a.hand.remove(card), ..a }
                    } else if a.role == to {
                        AdventurerView { hand: a.hand.push(giver.hand[card]), ..a }
                    } else {
                        a
                    },
            ),
            ..self
        }
    }

    // ----- the action: capture a treasure -----
    /// The treasure that the adventurer at `who` can capture: the one of
    /// the tile it stands on, if that tile has not sunk, the treasure is not
    /// captured yet, and the hand holds four of its cards.
    pub open spec fn capturable(self, who: int) -> Option<TreasureType> {
        let adventurer = self.adventurers[who];
        let tile = self.board.cells[spec_slot(adventurer.pos)];
        match tile.can_retrieve {
            Some(kind) => if tile.state != IslandCardState::Sunk && !self.captured.contains(kind)
                && count_card(adventurer.hand, treasure_card(kind)) >= 4 {
                Some(kind)
            } else {
                None
            },
            None => None,
        }
    }

    /// The game after the adventurer at `who` has captured treasure `kind`:
    /// the first four cards of the treasure leave its hand and the game.
    pub open spec fn apply_capture(self, who: int, kind: TreasureType) -> GameView {
        let adventurer = self.adventurers[who];
        GameView {
            adventurers: self.adventurers.update(
                who,
                AdventurerView {
                    hand: without_first(adventurer.hand, treasure_card(kind), 4),
                    ..adventurer
                },
            ),
            captured: self.captured.insert(kind),
            ..self
        }
    }
}

/// Every position among the first copies of a hand is a position of the hand.
pub proof fn lemma_first_copies_in_hand(hand: Seq<TreasureCard>)
    requires
        hand.len() <= usize::MAX,
    ensures
        forall|k: int|
            0 <= k < first_copies(hand).len() ==> (#[trigger] first_copies(hand)[k]) < hand.len(),
{
    let positions = Seq::new(codes_of(hand).len(), |i: int| i as usize);
    let first = |i: usize| forall|j: int| 0 <= j < i ==> codes_of(hand)[j] != codes_of(hand)[i as int];
    assert forall|k: int| 0 <= k < first_copies(hand).len() implies (#[trigger] first_copies(
        hand,
    )[k]) < hand.len() by {
        let position = first_copies(hand)[k];
        assert(positions.filter(first).contains(position));
        positions.lemma_filter_contains_rev(first, position);
        let at = choose|at: int| 0 <= at < positions.len() && positions[at] == position;
        assert(position == at);
    }
}

impl GameView {
    /// A gift on offer names a card of the giver's hand and the role of
    /// another adventurer.
    pub open spec fn is_gift(self, who: int, option: (usize, AdventurerCardType)) -> bool {
        &&& option.0 < self.adventurers[who].hand.len()
        &&& option.1 != self.adventurers[who].role
        &&& exists|j: int|
            0 <= j < self.adventurers.len() && (#[trigger] self.adventurers[j]).role == option.1
    }

    /// Every gift among those that the first `n` adventurers can receive is
    /// a gift.
    pub proof fn lemma_gifts_are_gifts(self, who: int, n: int, k: int)
        requires
            0 <= who < self.adventurers.len(),
            self.adventurers[who].hand.len() <= usize::MAX,
            0 <= n <= self.adventurers.len(),
            0 <= k < self.adventurers.take(n).flat_map(
                |other: AdventurerView| self.gifts_to(who, other),
            ).len(),
        ensures
            self.is_gift(
                who,
                self.adventurers.take(n).flat_map(
                    |other: AdventurerView| self.gifts_to(who, other),
                )[k],
            ),
        decreases n,
    {
        let gifts = |other: AdventurerView| self.gifts_to(who, other);
        if n == 0 {
            lemma_flat_map_of_none(self.adventurers, gifts);
        } else {
            let seen = self.adventurers.take(n - 1);
            let last = self.adventurers[n - 1];
            assert(self.adventurers.take(n) =~= seen.push(last));
            seen.lemma_flat_map_push(gifts, last);
            if k < seen.flat_map(gifts).len() {
                self.lemma_gifts_are_gifts(who, n - 1, k);
            } else {
                lemma_first_copies_in_hand(self.adventurers[who].hand);
            }
        }
    }
}

impl GameView {
    // ----- what the actions of a turn leave alone -----
    /// Whether the game can be `self` after actions taken in `before`:
    /// actions keep the roster and its roles, the treasure deck, the flood
    /// cards and the water level; they lose no captured treasure, flood no
    /// tile, and bring no card into the hands from outside.
    pub open spec fn acted_from(self, before: GameView) -> bool {
        &&& self.adventurers.len() == before.adventurers.len()
        &&& forall|i: int|
            0 <= i < self.adventurers.len() ==> (#[trigger] self.adventurers[i]).role
                == before.adventurers[i].role
        &&& self.treasure_deck == before.treasure_deck
        &&& self.flood_deck == before.flood_deck
        &&& self.flood_discard == before.flood_discard
        &&& self.water_level == before.water_level
        &&& before.captured.subset_of(self.captured)
        &&& self.board.slots == before.board.slots
        &&& self.board.cells.len() == before.board.cells.len()
        &&& forall|i: int|
            0 <= i < self.board.cells.len() ==> (#[trigger] self.board.cells[i]).name
                == before.board.cells[i].name && self.board.cells[i].state.level()
                <= before.board.cells[i].state.level()
        &&& cards_in_hands(self.adventurers) <= cards_in_hands(before.adventurers)
    }

    /// Actions taken one after the other are actions.
    pub proof fn lemma_acted_twice(self, middle: GameView, before: GameView)
        requires
            middle.acted_from(before),
            self.acted_from(middle),
        ensures
            self.acted_from(before),
    {
    }

    /// Moving adventurers is an action.
    pub proof fn lemma_move_acts(self, who: int, option: MoveType)
        requires
            0 <= who < self.adventurers.len(),
        ensures
            self.apply_move(who, option).acted_from(self),
    {
        lemma_cards_in_hands_same(self.apply_move(who, option).adventurers, self.adventurers);
    }

    /// Shoring up a flooded tile is an action.
    pub proof fn lemma_shore_up_acts(self, coord: (usize, usize))
        requires
            self.board.wf(),
            self.board.is_at(coord, IslandCardState::Flooded),
        ensures
            self.apply_shore_up(coord).acted_from(self),
    {
    }

    /// A gift between two adventurers is an action.
    pub proof fn lemma_give_acts(self, who: int, card: int, to: AdventurerCardType)
        requires
            self.wf(),
            0 <= who < self.adventurers.len(),
            self.is_gift(who, (card as usize, to)),
            0 <= card <= usize::MAX,
        ensures
            self.apply_give(who, card, to).acted_from(self),
    {
        let receiver = choose|j: int|
            0 <= j < self.adventurers.len() && (#[trigger] self.adventurers[j]).role == to;
        let giver = self.adventurers[who];
        let between = self.adventurers.update(
            who,
            AdventurerView { hand: giver.hand.remove(card), ..giver },
        );
        let after = between.update(
            receiver,
            AdventurerView { hand: between[receiver].hand.push(giver.hand[card]), ..between[receiver] },
        );
        assert(after =~= self.apply_give(who, card, to).adventurers);
        lemma_cards_in_hands_update(self.adventurers, who, between[who]);
        lemma_cards_in_hands_update(between, receiver, after[receiver]);
    }

    /// A capture keeps the game well formed: the four cards that leave the
    /// hand are those given for the treasure.
    pub proof fn lemma_capture_keeps_cards(self, who: int, kind: TreasureType)
        requires
            self.wf(),
            0 <= who < self.adventurers.len(),
            self.capturable(who) == Some(kind),
        ensures
            self.apply_capture(who, kind).wf(),
            self.apply_capture(who, kind).adventurers[who].hand.len() + 4
                == self.adventurers[who].hand.len(),
            count_card(self.apply_capture(who, kind).adventurers[who].hand, treasure_card(kind)) + 4
                == count_card(self.adventurers[who].hand, treasure_card(kind)),
    {
        broadcast use vstd::multiset::group_multiset_axioms;

        let after = self.apply_capture(who, kind);
        let hand = self.adventurers[who].hand;
        let wanted = treasure_card(kind);
        lemma_without_first(hand, wanted, 4);
        lemma_cards_in_hands_update(self.adventurers, who, after.adventurers[who]);
        assert(after.flood_pile() == self.flood_pile());
        assert forall|other: TreasureCard|
            after.all_treasure_cards().count(other) == self.all_treasure_cards().count(other) by {
            lemma_cards_held_count(self.adventurers, who, after.adventurers[who], other);
            lemma_without_first_cards(hand, wanted, 4, other);
        }
        assert(after.all_treasure_cards() =~= self.all_treasure_cards());
    }

    /// Capturing a treasure is an action.
    pub proof fn lemma_capture_acts(self, who: int, kind: TreasureType)
        requires
            0 <= who < self.adventurers.len(),
            self.capturable(who) == Some(kind),
        ensures
            self.apply_capture(who, kind).acted_from(self),
    {
        let after = self.apply_capture(who, kind);
        lemma_without_first(self.adventurers[who].hand, treasure_card(kind), 4);
        lemma_cards_in_hands_update(self.adventurers, who, after.adventurers[who]);
    }
}

/// A shuffled pile is as long as the pile it was shuffled from and holds
/// the same cards; it holds no card twice where the other holds none twice.
pub proof fn lemma_shuffle_keeps<T>(a: Seq<T>, b: Seq<T>)
    requires
        is_shuffle_of(a, b),
    ensures
        a.len() == b.len(),
        forall|x: T| a.contains(x) <==> b.contains(x),
        b.no_duplicates() ==> a.no_duplicates(),
{
    a.to_multiset_ensures();
    b.to_multiset_ensures();
    assert forall|x: T| a.contains(x) <==> b.contains(x) by {
        assert(a.to_multiset().count(x) == b.to_multiset().count(x));
    }
    if b.no_duplicates() {
        b.lemma_multiset_has_no_duplicates();
        a.lemma_multiset_has_no_duplicates_conv();
    }
}

/// Two piles laid together hold the same cards in whichever order they are
/// laid, and shuffling one of them first changes nothing of that.
pub proof fn lemma_shuffle_of_parts<T>(a: Seq<T>, b: Seq<T>, shuffled: Seq<T>)
    requires
        is_shuffle_of(shuffled, b),
    ensures
        is_shuffle_of(shuffled + a, a + b),
        is_shuffle_of(a + shuffled, a + b),
{
    vstd::seq_lib::lemma_multiset_commutative(a, b);
    vstd::seq_lib::lemma_multiset_commutative(shuffled, a);
    vstd::seq_lib::lemma_multiset_commutative(a, shuffled);
    assert(shuffled.to_multiset().add(a.to_multiset()) =~= a.to_multiset().add(
        shuffled.to_multiset(),
    ));
}

impl GameView {
    // ----- drawing treasure cards -----
    /// Whether the game is `self` after the treasure discard pile of
    /// `before` has been shuffled and put under the treasure deck.
    pub open spec fn restocked_from(self, before: GameView) -> bool {
        &&& self == (GameView {
            treasure_deck: self.treasure_deck,
            treasure_discard: Seq::empty(),
            ..before
        })
        &&& self.treasure_deck.len() == before.treasure_deck.len() + before.treasure_discard.len()
        &&& self.treasure_deck.take(before.treasure_deck.len() as int) == before.treasure_deck
        &&& is_shuffle_of(
            self.treasure_deck.skip(before.treasure_deck.len() as int),
            before.treasure_discard,
        )
    }

    /// Whether the game is `self` after the treasure deck of `before` has
    /// been looked after: a deck that has run out is restocked from the
    /// discard pile, any other deck is left alone.
    pub open spec fn tended_from(self, before: GameView) -> bool {
        if before.treasure_deck.len() == 0 {
            self.restocked_from(before)
        } else {
            self == before
        }
    }

    /// Whether the game is `self` after `card` has been drawn from the
    /// treasure deck of `before`: the deck is tended, its top card leaves
    /// it, and it is tended again.  No card is drawn where deck and discard
    /// pile are both empty.
    pub open spec fn drawn_from(self, before: GameView, card: Option<TreasureCard>) -> bool {
        exists|ready: GameView|
            #![trigger ready.tended_from(before)]
            ready.tended_from(before) && match card {
                None => ready.treasure_deck.len() == 0 && self == ready,
                Some(top) => ready.treasure_deck.len() > 0 && top == ready.treasure_deck[0]
                    && self.tended_from(
                    GameView { treasure_deck: ready.treasure_deck.drop_first(), ..ready },
                ),
            }
    }

    /// Whether the game is `self` after the water has risen in `before`:
    /// the water level goes up by one, but not beyond the top of the scale,
    /// and the flood discard pile is shuffled and put on top of the flood
    /// deck.
    pub open spec fn risen_from(self, before: GameView) -> bool {
        &&& self == (GameView {
            water_level: if before.water_level < 9 {
                (before.water_level + 1) as usize
            } else {
                before.water_level
            },
            flood_deck: self.flood_deck,
            flood_discard: Seq::empty(),
            ..before
        })
        &&& self.flood_deck.len() == before.flood_discard.len() + before.flood_deck.len()
        &&& self.flood_deck.skip(before.flood_discard.len() as int) == before.flood_deck
        &&& is_shuffle_of(
            self.flood_deck.take(before.flood_discard.len() as int),
            before.flood_discard,
        )
    }

    /// Whether the game is `self` after the adventurer at `who` has taken
    /// the drawn card `card` in `before`: a water rise goes to the discard
    /// pile and makes the water rise, any other card goes to the hand.
    pub open spec fn taken_from(self, before: GameView, who: int, card: TreasureCard) -> bool {
        if card.treasure_type == TreasureCardType::WaterRise {
            self.risen_from(
                GameView { treasure_discard: before.treasure_discard.push(card), ..before },
            )
        } else {
            self == GameView {
                adventurers: before.adventurers.update(
                    who,
                    AdventurerView {
                        hand: before.adventurers[who].hand.push(card),
                        ..before.adventurers[who]
                    },
                ),
                ..before
            }
        }
    }
}

impl GameView {
    // ----- drawing flood cards -----
    /// The game after the top card of the flood deck has been drawn and
    /// carried out: the water rises once over the tile of the card, and the
    /// card goes to the discard pile unless the tile has sunk.
    pub open spec fn flood_drawn(self) -> GameView {
        let card = self.flood_deck[0];
        GameView {
            board: self.board.sink(card.island_card),
            flood_deck: self.flood_deck.drop_first(),
            flood_discard: if self.board.card(card.island_card).state == IslandCardState::Flooded {
                self.flood_discard
            } else {
                self.flood_discard.push(card)
            },
            ..self
        }
    }

    /// Whether the game is `self` after the flood deck of `before` has been
    /// looked after: where it has run out, the discard pile is shuffled and
    /// becomes the deck.
    pub open spec fn flood_tended_from(self, before: GameView) -> bool {
        if before.flood_deck.len() == 0 {
            &&& self == (GameView {
                flood_deck: self.flood_deck,
                flood_discard: Seq::empty(),
                ..before
            })
            &&& is_shuffle_of(self.flood_deck, before.flood_discard)
        } else {
            self == before
        }
    }

    /// Whether the game is `self` after one flood card has been drawn in
    /// `before`.
    pub open spec fn flooded_from(self, before: GameView) -> bool {
        self.flood_tended_from(before.flood_drawn())
    }

    /// The flood cards keep track of the tiles when one of them is drawn.
    pub proof fn lemma_flood_drawn(self)
        requires
            self.board.wf(),
            self.flood_tracks(),
            self.flood_deck.len() > 0,
        ensures
            self.board.card(self.flood_deck[0].island_card).state != IslandCardState::Sunk,
            self.flood_drawn().flood_tracks(),
            self.flood_drawn().board.wf(),
    {
        let before = self.flood_pile();
        let card = self.flood_deck[0];
        let name = card.island_card;
        let after = self.flood_drawn();
        let pile = after.flood_pile();
        assert(before[0] == card);
        assert(before.contains(FloodCard { island_card: name }));
        let slot = self.board.slot(name);
        crate::structs::cards::island::lemma_index_round_trip(name, 0);
        self.board.lemma_sunk_among_update(slot, self.board.card(name).spec_sink(), 24);
        assert forall|other: IslandCardName| other != name implies after.board.card(other)
            == self.board.card(other) by {
            crate::structs::cards::island::lemma_index_round_trip(other, 0);
            assert(self.board.cells[self.board.slot(other)].name == other);
        }
        if self.board.card(name).state == IslandCardState::Flooded {
            assert(pile =~= before.drop_first());
            assert forall|x: FloodCard| pile.contains(x) <==> (before.contains(x) && x != card) by {
                if pile.contains(x) {
                    let i = choose|i: int| 0 <= i < pile.len() && pile[i] == x;
                    assert(before[i + 1] == x);
                }
                if before.contains(x) && x != card {
                    let i = choose|i: int| 0 <= i < before.len() && before[i] == x;
                    assert(pile[i - 1] == x);
                }
            }
            assert forall|other: IslandCardName| #[trigger]
                pile.contains(FloodCard { island_card: other }) <==> after.board.card(other).state
                    != IslandCardState::Sunk by {
                assert(before.contains(FloodCard { island_card: other }) <==> self.board.card(
                    other,
                ).state != IslandCardState::Sunk);
            }
        } else {
            let rest = self.flood_deck.drop_first();
            assert(self.flood_deck =~= seq![card] + rest);
            assert(pile =~= rest + (self.flood_discard + seq![card]));
            assert(before =~= seq![card] + (rest + self.flood_discard));
            assert(is_shuffle_of(pile, before)) by {
                vstd::seq_lib::lemma_multiset_commutative(rest, self.flood_discard + seq![card]);
                vstd::seq_lib::lemma_multiset_commutative(self.flood_discard, seq![card]);
                vstd::seq_lib::lemma_multiset_commutative(seq![card], rest + self.flood_discard);
                vstd::seq_lib::lemma_multiset_commutative(rest, self.flood_discard);
                assert(pile.to_multiset() =~= before.to_multiset());
            }
            lemma_shuffle_keeps(pile, before);
            assert forall|other: IslandCardName| #[trigger]
                pile.contains(FloodCard { island_card: other }) <==> after.board.card(other).state
                    != IslandCardState::Sunk by {
                assert(before.contains(FloodCard { island_card: other }) <==> self.board.card(
                    other,
                ).state != IslandCardState::Sunk);
            }
        }
    }

    /// The flood cards keep track of the tiles when the discard pile is
    /// shuffled and becomes the deck.
    pub proof fn lemma_flood_tended(self, before: GameView)
        requires
            before.flood_tracks(),
            self.flood_tended_from(before),
        ensures
            self.flood_wf(),
    {
        if before.flood_deck.len() == 0 {
            assert(self.flood_pile() =~= self.flood_deck);
            assert(before.flood_pile() =~= before.flood_discard);
            lemma_shuffle_keeps(self.flood_pile(), before.flood_pile());
            assert forall|other: IslandCardName| #[trigger]
                self.flood_pile().contains(FloodCard { island_card: other })
                    <==> self.board.card(other).state != IslandCardState::Sunk by {
                assert(before.flood_pile().contains(FloodCard { island_card: other })
                    <==> before.board.card(other).state != IslandCardState::Sunk);
            }
        }
    }

    // ----- leaving a sunk tile -----
    /// The places to which the adventurer at `who` can get away from its
    /// place: those it can reach by its way of moving, the pilot by flying,
    /// whose tile has not sunk.
    pub open spec fn escape_routes(self, who: int) -> Seq<(usize, usize)> {
        Self::candidates(self.adventurers[who].role, true, self.adventurers[who].pos).filter(
            |to: (usize, usize)| self.may_enter(self.adventurers[who].pos, to, false),
        )
    }

    /// Whether the tile at position `slot` of the board has not sunk and no
    /// other such tile is nearer to `from`, nor as near and earlier on the
    /// board.
    pub open spec fn is_nearest(self, from: (usize, usize), slot: int) -> bool {
        &&& 0 <= slot < 24
        &&& self.board.cells[slot].state != IslandCardState::Sunk
        &&& forall|other: int|
            0 <= other < 24 && (#[trigger] self.board.cells[other]).state != IslandCardState::Sunk
                ==> spec_distance(ISLAND_COORDS[slot], from) < spec_distance(
                ISLAND_COORDS[other],
                from,
            ) || (spec_distance(ISLAND_COORDS[slot], from) == spec_distance(
                ISLAND_COORDS[other],
                from,
            ) && slot <= other)
    }

    /// The place nearest to `from` whose tile has not sunk, if there is one;
    /// among places as near, the first one on the board.
    pub open spec fn nearest(self, from: (usize, usize)) -> Option<(usize, usize)> {
        if exists|slot: int| self.is_nearest(from, slot) {
            Some(ISLAND_COORDS[choose|slot: int| self.is_nearest(from, slot)])
        } else {
            None
        }
    }

    /// The places to which the adventurer at `who` can get away from its
    /// place.  The diver, where none of its usual routes is open, swims to
    /// the nearest tile that has not sunk.
    pub open spec fn evacuation_options(self, who: int) -> Seq<(usize, usize)> {
        if self.escape_routes(who).len() == 0 && self.adventurers[who].role
            == AdventurerCardType::Diver {
            match self.nearest(self.adventurers[who].pos) {
                Some(place) => seq![place],
                None => Seq::empty(),
            }
        } else {
            self.escape_routes(who)
        }
    }
}

} // verus!
