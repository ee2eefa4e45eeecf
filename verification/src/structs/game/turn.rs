//! The actions phase of a turn: up to three actions, chosen one by one.

use vstd::prelude::*;
use vstd::string::*;

use super::chooser::{ask, asked, texts, Chooser};
use super::model::cards_in_hands;
use super::moves::Action;
use super::{Game, GameView};

verus! {

impl GameView {
    /// `action` where `offered`, else nothing.
    pub open spec fn offer(offered: bool, action: Action) -> Seq<Action> {
        if offered {
            seq![action]
        } else {
            Seq::empty()
        }
    }

    /// The actions on offer to the adventurer at `who` at the start of an
    /// action: to move where it can move, to shore up where a flooded tile
    /// is in reach, to give a card where it holds one and someone can
    /// receive it, to capture the treasure of its tile where it holds four
    /// of its cards, to play a special card where one can be played, and to
    /// end the turn.
    pub open spec fn initial_options(self, who: int) -> Seq<Action> {
        Self::offer(self.moves(self.adventurers[who]).len() > 0, Action::Move) + Self::offer(
            self.shore_options(who).len() > 0,
            Action::ShoreUp,
        ) + Self::offer(self.give_options(who).len() > 0, Action::GiveCard) + (match self.capturable(
            who,
        ) {
            Some(kind) => seq![Action::CaptureTreasure(kind)],
            None => Seq::empty(),
        }) + Self::offer(self.play_options().len() > 0, Action::PlayActionCard) + seq![
            Action::EndTurn,
        ]
    }

    /// The text that offers `action` to the adventurer at `who`.
    pub open spec fn initial_label(self, who: int, action: Action) -> Seq<char> {
        match action {
            Action::Move => "Move "@ + self.adventurers[who].role.spec_name(),
            Action::ShoreUp => "Shore up tile"@,
            Action::GiveCard => "Give card"@,
            Action::CaptureTreasure(kind) => "Capture "@ + kind.spec_name(),
            Action::PlayActionCard => "Play action card"@,
            _ => "End turn"@,
        }
    }

    /// The actions on offer to the adventurer at `who`, as text.
    pub open spec fn initial_labels(self, who: int) -> Seq<Seq<char>> {
        self.initial_options(who).map_values(|action: Action| self.initial_label(who, action))
    }

    /// Whether the game is `self` after `action`, on offer in `before`, has
    /// been carried out for the adventurer at `who`, with a decision source
    /// that went from `source` to `after`.
    pub open spec fn acted_by<C: Chooser>(
        self,
        before: GameView,
        who: int,
        action: Action,
        source: C,
        after: C,
    ) -> bool {
        &&& before.is_offered(who, action)
        &&& match action {
            Action::Move => self.moved_by(before, who, source, after),
            Action::ShoreUp => self.shored_up_by(before, who, source, after),
            Action::GiveCard => self.given_by(before, who, source, after),
            Action::CaptureTreasure(kind) => self == before.apply_capture(who, kind) && after
                == source,
            Action::PlayActionCard => self.played_by(before, source, after),
            _ => self == before && after == source,
        }
    }

    /// What `action` takes from the actions of a turn: nothing for a special
    /// card and for the end of the turn, one action otherwise.
    pub open spec fn cost(action: Action) -> nat {
        if action == Action::PlayActionCard || action == Action::EndTurn {
            0
        } else {
            1
        }
    }

    /// Whether the game is `self` after one step of the actions phase of the
    /// adventurer at `who` in `before`, which took `cost` from its actions:
    /// the source, which went from `source` to `after`, was asked about the
    /// actions on offer, picked one that does not end the turn, and that
    /// action was carried out.
    pub open spec fn stepped_by<C: Chooser>(
        self,
        before: GameView,
        who: int,
        cost: nat,
        source: C,
        after: C,
    ) -> bool {
        exists|index: int, then: C|
            #![trigger asked(source, then, Action::Initial, before.initial_labels(who), index)]
            asked(source, then, Action::Initial, before.initial_labels(who), index)
                && before.initial_options(who)[index] != Action::EndTurn && cost == Self::cost(
                before.initial_options(who)[index],
            ) && self.acted_by(before, who, before.initial_options(who)[index], then, after)
    }

    /// Whether the source, which went from `source` to `after`, was asked
    /// about the actions on offer to the adventurer at `who` and picked the
    /// end of the turn.
    pub open spec fn ended_turn_by<C: Chooser>(self, who: int, source: C, after: C) -> bool {
        exists|index: int|
            #![trigger self.initial_options(who)[index]]
            asked(source, after, Action::Initial, self.initial_labels(who), index)
                && self.initial_options(who)[index] == Action::EndTurn
    }

    /// Whether the game is `self` after `steps` steps of the actions phase
    /// of the adventurer at `who` in `before`, with `budget` actions to
    /// take, of which the steps took `spent`; each step was taken while
    /// actions were left.  The source went from `source` to `after`.
    pub open spec fn turn_from<C: Chooser>(
        self,
        before: GameView,
        who: int,
        budget: nat,
        steps: nat,
        spent: nat,
        source: C,
        after: C,
    ) -> bool
        decreases steps,
    {
        if steps == 0 {
            self == before && spent == 0 && after == source
        } else {
            exists|middle: GameView, then: C, cost: nat|
                #![trigger self.stepped_by(middle, who, cost, then, after)]
                cost <= spent && spent - cost < budget && middle.turn_from(
                    before,
                    who,
                    budget,
                    (steps - 1) as nat,
                    (spent - cost) as nat,
                    source,
                    then,
                ) && self.stepped_by(middle, who, cost, then, after)
        }
    }

    /// Whether the game is `self` after the actions phase of the adventurer
    /// at `who` in `before`, with `budget` actions to take and a source that
    /// went from `source` to `after`.  Step follows step while actions are
    /// left; the phase ends when they are used up, or when the source,
    /// asked once more, picks the end of the turn.
    pub open spec fn after_actions<C: Chooser>(
        self,
        before: GameView,
        who: int,
        budget: nat,
        source: C,
        after: C,
    ) -> bool {
        exists|steps: nat, spent: nat, then: C|
            #![trigger self.turn_from(before, who, budget, steps, spent, source, then)]
            self.turn_from(before, who, budget, steps, spent, source, then) && if spent < budget {
                self.ended_turn_by(who, then, after)
            } else {
                spent == budget && after == then
            }
    }

    /// Whether `action` is on offer to the adventurer at `who`.
    pub open spec fn is_offered(self, who: int, action: Action) -> bool {
        match action {
            Action::Move => self.moves(self.adventurers[who]).len() > 0,
            Action::ShoreUp => self.shore_options(who).len() > 0,
            Action::GiveCard => self.give_options(who).len() > 0,
            Action::CaptureTreasure(kind) => self.capturable(who) == Some(kind),
            Action::PlayActionCard => self.play_options().len() > 0,
            Action::EndTurn => true,
            _ => false,
        }
    }
}

impl Game {
    /// The actions on offer to the adventurer at position `who` of the
    /// roster at the start of an action.
    pub fn initial_options(&self, who: usize) -> (options: Vec<Action>)
        requires
            self@.wf(),
            who < self@.adventurers.len(),
        ensures
            options@ == self@.initial_options(who as int),
            options@.len() > 0,
            forall|k: int| 0 <= k < options@.len() ==> self@.is_offered(who as int, #[trigger] options@[k]),
    {
        let actor = &self.adventurers[who];
        assert(self@.adventurers[who as int] == actor@);
        let mut options: Vec<Action> = Vec::with_capacity(6);
        if self.can_move(actor) {
            options.push(Action::Move);
        }
        if self.can_shore_up(&actor.card, &actor.pos) {
            options.push(Action::ShoreUp);
        }
        if !self.give_options(who).is_empty() {
            options.push(Action::GiveCard);
        }
        match self.capturable(who) {
            Some(kind) => {
                options.push(Action::CaptureTreasure(kind));
            },
            None => {},
        }
        if self.can_play_special() {
            options.push(Action::PlayActionCard);
        }
        options.push(Action::EndTurn);
        assert(options@ =~= self@.initial_options(who as int));
        options
    }

    /// The text that offers `action` to the adventurer at position `who`.
    pub fn initial_label(&self, who: usize, action: &Action) -> (text: String)
        requires
            who < self@.adventurers.len(),
        ensures
            text@ == self@.initial_label(who as int, *action),
    {
        assert(self@.adventurers[who as int] == self.adventurers@[who as int]@);
        match action {
            Action::Move => {
                let mut text = String::from_str("Move ");
                text.append(self.adventurers[who].card.name().as_str());
                text
            },
            Action::ShoreUp => String::from_str("Shore up tile"),
            Action::GiveCard => String::from_str("Give card"),
            Action::CaptureTreasure(kind) => {
                let mut text = String::from_str("Capture ");
                text.append(kind.get_name().as_str());
                text
            },
            Action::PlayActionCard => String::from_str("Play action card"),
            _ => String::from_str("End turn"),
        }
    }

    /// Carries out `action`, which is on offer, for the adventurer at
    /// position `who` of the roster.  Returns whether the turn goes on:
    /// it does unless the action is to end the turn.
    pub fn take_action<C: Chooser>(&mut self, who: usize, action: Action, chooser: &mut C) -> (goes_on:
        bool)
        requires
            old(self)@.wf(),
            who < old(self)@.adventurers.len(),
            old(self)@.is_offered(who as int, action),
        ensures
            final(self)@.wf(),
            final(self)@.acted_from(old(self)@),
            final(self)@.acted_by(old(self)@, who as int, action, *old(chooser), *final(chooser)),
            goes_on == (action != Action::EndTurn),
            action == Action::PlayActionCard ==> cards_in_hands(final(self)@.adventurers) + 1
                == cards_in_hands(old(self)@.adventurers),
    {
        match action {
            Action::Move => {
                self.move_adventurer(who, chooser);
                true
            },
            Action::ShoreUp => {
                self.shore_up(who, chooser);
                true
            },
            Action::GiveCard => {
                self.give_card(who, chooser);
                true
            },
            Action::CaptureTreasure(kind) => {
                self.capture_treasure(who, kind);
                true
            },
            Action::PlayActionCard => {
                self.play_action_card(chooser);
                true
            },
            _ => false,
        }
    }

    /// The actions phase of the turn of the adventurer at position `who` of
    /// the roster: as long as actions are left, the decision source picks
    /// one of the actions on offer and it is carried out.  Every action but
    /// the play of a special card uses up one of the `actions_left`; ending
    /// the turn ends the phase.
    pub fn initial_actions<C: Chooser>(&mut self, who: usize, chooser: &mut C, actions_left: usize)
        requires
            old(self)@.wf(),
            who < old(self)@.adventurers.len(),
        ensures
            final(self)@.wf(),
            final(self)@.acted_from(old(self)@),
            final(self)@.after_actions(
                old(self)@,
                who as int,
                actions_left as nat,
                *old(chooser),
                *final(chooser),
            ),
            actions_left == 0 ==> final(self)@ == old(self)@,
    {
        let mut left: usize = actions_left;
        let ghost mut steps: nat = 0;
        let ghost mut spent: nat = 0;
        while left > 0
            invariant
                self@.wf(),
                who < self@.adventurers.len(),
                self@.acted_from(old(self)@),
                left <= actions_left,
                spent + left == actions_left,
                self@.turn_from(
                    old(self)@,
                    who as int,
                    actions_left as nat,
                    steps,
                    spent,
                    *old(chooser),
                    *chooser,
                ),
                actions_left == 0 ==> self@ == old(self)@,
            decreases left, cards_in_hands(self@.adventurers),
        {
            let ghost before = self@;
            let ghost source = *chooser;
            let options = self.initial_options(who);
            let mut labels: Vec<String> = Vec::new();
            let mut i: usize = 0;
            while i < options.len()
                invariant
                    i <= options@.len(),
                    who < self@.adventurers.len(),
                    labels@.len() == i,
                    forall|k: int|
                        0 <= k < i ==> (#[trigger] labels@[k])@ == self@.initial_label(
                            who as int,
                            options@[k],
                        ),
                decreases options@.len() - i,
            {
                labels.push(self.initial_label(who, &options[i]));
                i += 1;
            }
            assert(texts(labels@) =~= self@.initial_labels(who as int));
            let choice = ask(chooser, Action::Initial, &labels);
            let ghost then = *chooser;
            let action = options[choice];
            let goes_on = self.take_action(who, action, chooser);
            proof {
                self@.lemma_acted_twice(before, old(self)@);
            }
            if !goes_on {
                assert(before.initial_options(who as int)[choice as int] == Action::EndTurn);
                assert(self@.ended_turn_by(who as int, source, *chooser));
                return;
            }
            proof {
                let cost = GameView::cost(action);
                assert(asked(source, then, Action::Initial, before.initial_labels(who as int), choice as int));
                assert(self@.stepped_by(before, who as int, cost, source, *chooser));
                steps = steps + 1;
                spent = spent + cost;
                assert(self@.turn_from(
                    old(self)@,
                    who as int,
                    actions_left as nat,
                    steps,
                    spent,
                    *old(chooser),
                    *chooser,
                ));
            }
            if action != Action::PlayActionCard {
                left -= 1;
            }
        }
    }
}

} // verus!
