//! What holds of every game, stated over [`GameView`] and proved from the
//! rules.

use vstd::prelude::*;

use super::model::{cards_in_hands, count_card, lemma_without_first, treasure_card, without_first};
use super::chooser::{asked, settled, Chooser, ScriptedChooser};
use super::moves::Action;
use super::{captured_count, GameView};
use crate::structs::board::spec_slot;
use crate::structs::cards::island::IslandCardState;
use crate::structs::cards::treasure::{TreasureCard, TreasureType};

verus! {

/// No card is ever lost.  In every state of a game the treasure cards in
/// the deck, on the discard pile and in the hands, with four for each
/// captured treasure, are twenty-eight; and the flood cards in the deck and
/// on the discard pile, with one for each sunk tile, are twenty-four.
pub proof fn lemma_cards_are_conserved(game: GameView)
    requires
        game.wf(),
    ensures
        game.treasure_deck.len() + game.treasure_discard.len() + cards_in_hands(game.adventurers) + 4
            * captured_count(game.captured) == 28,
        game.all_treasure_cards() == TreasureCard::spec_deck().to_multiset(),
        game.flood_deck.len() + game.flood_discard.len() + game.board.sunk_count() == 24,
{
}

/// With actions to take, the actions phase asks: the source is asked about
/// the actions on offer in the state in which the phase begins, and where
/// it picks the end of the turn at once, nothing else happens.
pub proof fn lemma_actions_start_with_a_question<C: Chooser>(
    after: GameView,
    before: GameView,
    who: int,
    budget: nat,
    source: C,
    then: C,
)
    requires
        budget > 0,
        after.after_actions(before, who, budget, source, then),
    ensures
        exists|index: int, first: C|
            #![trigger asked(source, first, Action::Initial, before.initial_labels(who), index)]
            asked(source, first, Action::Initial, before.initial_labels(who), index) && (
            before.initial_options(who)[index] == Action::EndTurn ==> after == before && then
                == first),
{
    let (steps, spent, last) = choose|steps: nat, spent: nat, last: C|
        #![trigger after.turn_from(before, who, budget, steps, spent, source, last)]
        after.turn_from(before, who, budget, steps, spent, source, last) && if spent < budget {
            after.ended_turn_by(who, last, then)
        } else {
            spent == budget && then == last
        };
    if steps == 0 {
        assert(after == before && last == source);
        let index = choose|index: int|
            #![trigger after.initial_options(who)[index]]
            asked(last, then, Action::Initial, after.initial_labels(who), index)
                && after.initial_options(who)[index] == Action::EndTurn;
        assert(asked(source, then, Action::Initial, before.initial_labels(who), index));
    } else {
        lemma_first_step(after, before, who, budget, steps, spent, source, last);
    }
}

/// The first step of the actions phase asks about the actions on offer at
/// the start and takes an action that does not end the turn.
pub proof fn lemma_first_step<C: Chooser>(
    after: GameView,
    before: GameView,
    who: int,
    budget: nat,
    steps: nat,
    spent: nat,
    source: C,
    then: C,
)
    requires
        after.turn_from(before, who, budget, steps, spent, source, then),
        steps > 0,
    ensures
        exists|index: int, first: C|
            #![trigger asked(source, first, Action::Initial, before.initial_labels(who), index)]
            asked(source, first, Action::Initial, before.initial_labels(who), index)
                && before.initial_options(who)[index] != Action::EndTurn,
    decreases steps,
{
    let (middle, halfway, cost) = choose|middle: GameView, halfway: C, cost: nat|
        #![trigger after.stepped_by(middle, who, cost, halfway, then)]
        cost <= spent && spent - cost < budget && middle.turn_from(
            before,
            who,
            budget,
            (steps - 1) as nat,
            (spent - cost) as nat,
            source,
            halfway,
        ) && after.stepped_by(middle, who, cost, halfway, then);
    if steps == 1 {
        assert(middle == before && halfway == source);
        let (index, first) = choose|index: int, first: C|
            #![trigger asked(halfway, first, Action::Initial, middle.initial_labels(who), index)]
            asked(halfway, first, Action::Initial, middle.initial_labels(who), index)
                && middle.initial_options(who)[index] != Action::EndTurn && cost == GameView::cost(
                middle.initial_options(who)[index],
            ) && after.acted_by(middle, who, middle.initial_options(who)[index], first, then);
        assert(asked(source, first, Action::Initial, before.initial_labels(who), index));
    } else {
        lemma_first_step(
            middle,
            before,
            who,
            budget,
            (steps - 1) as nat,
            (spent - cost) as nat,
            source,
            halfway,
        );
    }
}

/// A scripted source leaves nothing open: a decision that it settles has
/// one outcome, and the script stands at one place afterwards.
pub proof fn lemma_scripted_decisions_are_determined(
    source: ScriptedChooser,
    after: ScriptedChooser,
    other: ScriptedChooser,
    stage: Action,
    options: Seq<Seq<char>>,
    index: int,
    other_index: int,
)
    requires
        options.len() <= usize::MAX,
        settled(source, after, stage, options, index),
        settled(source, other, stage, options, other_index),
    ensures
        index == other_index,
        after.answers@ == other.answers@,
        after.next == other.next,
{
}

/// A treasure cannot be captured with fewer than four of its cards: the
/// capture is not among the actions on offer.
pub proof fn lemma_capture_needs_four_cards(game: GameView, who: int, kind: TreasureType)
    requires
        0 <= who < game.adventurers.len(),
        count_card(game.adventurers[who].hand, treasure_card(kind)) < 4,
    ensures
        game.capturable(who) != Some(kind),
        !game.initial_options(who).contains(Action::CaptureTreasure(kind)),
{
    let options = game.initial_options(who);
    assert forall|k: int| 0 <= k < options.len() implies options[k] != Action::CaptureTreasure(
        kind,
    ) by {
        assert(game.is_offered(who, options[k])) by {
            game.lemma_options_are_offered(who, k);
        }
    }
}

/// An adventurer that holds exactly four cards of a treasure and stands on
/// a tile of that treasure that has not sunk is offered the capture, unless
/// the treasure is captured already.  The capture leaves none of these
/// cards in its hand and adds the treasure to the captured ones.
pub proof fn lemma_capture_with_four_cards(game: GameView, who: int, kind: TreasureType)
    requires
        0 <= who < game.adventurers.len(),
        game.board.cells[spec_slot(game.adventurers[who].pos)].can_retrieve == Some(kind),
        game.board.cells[spec_slot(game.adventurers[who].pos)].state != IslandCardState::Sunk,
        !game.captured.contains(kind),
        count_card(game.adventurers[who].hand, treasure_card(kind)) == 4,
    ensures
        game.capturable(who) == Some(kind),
        game.initial_options(who).contains(Action::CaptureTreasure(kind)),
        count_card(game.apply_capture(who, kind).adventurers[who].hand, treasure_card(kind)) == 0,
        game.apply_capture(who, kind).captured.contains(kind),
        game.wf() ==> game.apply_capture(who, kind).treasure_cards() == 28,
{
    let options = game.initial_options(who);
    let before = GameView::offer(game.moves(game.adventurers[who]).len() > 0, Action::Move)
        + GameView::offer(game.shore_options(who).len() > 0, Action::ShoreUp) + GameView::offer(
        game.give_options(who).len() > 0,
        Action::GiveCard,
    );
    assert(options[before.len() as int] == Action::CaptureTreasure(kind));
    lemma_without_first(game.adventurers[who].hand, treasure_card(kind), 4);
    if game.wf() {
        game.lemma_capture_acts(who, kind);
        super::model::lemma_cards_in_hands_update(
            game.adventurers,
            who,
            game.apply_capture(who, kind).adventurers[who],
        );
    }
}

/// A capture takes four cards of the treasure from the hand of the one who
/// captures and nothing else: the hand is four cards shorter and holds
/// every other card as often as before, in the order in which it held them;
/// the treasure joins the captured ones and no other does; and no other
/// hand, no place, no tile, no pile and not the water level changes.
pub proof fn lemma_capture_takes_four_cards(
    game: GameView,
    who: int,
    kind: TreasureType,
    other: TreasureCard,
)
    requires
        0 <= who < game.adventurers.len(),
        game.capturable(who) == Some(kind),
    ensures
        game.apply_capture(who, kind).adventurers[who].hand == without_first(
            game.adventurers[who].hand,
            treasure_card(kind),
            4,
        ),
        game.apply_capture(who, kind).adventurers[who].hand.len() + 4
            == game.adventurers[who].hand.len(),
        game.adventurers[who].hand.to_multiset().count(other) == game.apply_capture(
            who,
            kind,
        ).adventurers[who].hand.to_multiset().count(other) + if other == treasure_card(kind) {
            4nat
        } else {
            0nat
        },
        game.apply_capture(who, kind) == (GameView {
            adventurers: game.apply_capture(who, kind).adventurers,
            captured: game.captured.insert(kind),
            ..game
        }),
        game.apply_capture(who, kind).adventurers[who].pos == game.adventurers[who].pos,
        game.apply_capture(who, kind).adventurers[who].role == game.adventurers[who].role,
        forall|seat: int|
            0 <= seat < game.adventurers.len() && seat != who ==> #[trigger] game.apply_capture(
                who,
                kind,
            ).adventurers[seat] == game.adventurers[seat],
{
    lemma_without_first(game.adventurers[who].hand, treasure_card(kind), 4);
    super::model::lemma_without_first_cards(
        game.adventurers[who].hand,
        treasure_card(kind),
        4,
        other,
    );
}

/// A treasure is captured by the action that captures it and by no other:
/// that action is only on offer to an adventurer that holds four cards of
/// the treasure and stands on one of its tiles, which has not sunk, and
/// every other action leaves the captured treasures as they are.
pub proof fn lemma_only_a_capture_captures<C: Chooser>(
    after: GameView,
    before: GameView,
    who: int,
    action: Action,
    source: C,
    then: C,
)
    requires
        0 <= who < before.adventurers.len(),
        after.acted_by(before, who, action, source, then),
    ensures
        match action {
            Action::CaptureTreasure(kind) => {
                &&& after.captured == before.captured.insert(kind)
                &&& !before.captured.contains(kind)
                &&& count_card(before.adventurers[who].hand, treasure_card(kind)) >= 4
                &&& before.board.cells[spec_slot(before.adventurers[who].pos)].can_retrieve
                    == Some(kind)
                &&& before.board.cells[spec_slot(before.adventurers[who].pos)].state
                    != IslandCardState::Sunk
            },
            _ => after.captured == before.captured,
        },
{
}

impl GameView {
    /// Every action among the options at the start of an action is on offer.
    pub proof fn lemma_options_are_offered(self, who: int, k: int)
        requires
            0 <= k < self.initial_options(who).len(),
        ensures
            self.is_offered(who, self.initial_options(who)[k]),
    {
    }
}

} // verus!
