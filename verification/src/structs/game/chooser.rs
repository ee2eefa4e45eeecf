//! The decision source: whoever picks among the options that the rules
//! leave open.

use vstd::prelude::*;

use super::moves::Action;

verus! {

/// A source of decisions.  The game hands it the stage of the turn and the
/// options as text, and takes back the position of the chosen option.
pub trait Chooser {
    /// Whether the source, in the state `self`, may pick the option at
    /// `index` of `options` at `stage` and be in the state `after` then.
    /// A source that says nothing here decides freely: every answer is
    /// admitted.
    open spec fn answers(
        &self,
        after: &Self,
        stage: Action,
        options: Seq<Seq<char>>,
        index: usize,
    ) -> bool {
        true
    }

    /// Picks one of `options`, which is never empty.
    fn decide(&mut self, stage: Action, options: &Vec<String>) -> (index: usize)
        requires
            options@.len() > 0,
        ensures
            index < options@.len(),
            old(self).answers(final(self), stage, texts(options@), index),
    ;
}

/// The options as text.
pub open spec fn texts(options: Seq<String>) -> Seq<Seq<char>> {
    options.map_values(|option: String| option@)
}

/// Whether the source `before` was asked about `options` at `stage`, picked
/// the option at `index`, and is `after` since.
pub open spec fn asked<C: Chooser>(
    before: C,
    after: C,
    stage: Action,
    options: Seq<Seq<char>>,
    index: int,
) -> bool {
    &&& 0 <= index < options.len()
    &&& before.answers(&after, stage, options, index as usize)
}

/// Whether the decision among `options` at `stage` was settled with the
/// option at `index`: a single option is taken without asking, and the
/// source stays as it is; about several the source is asked.
pub open spec fn settled<C: Chooser>(
    before: C,
    after: C,
    stage: Action,
    options: Seq<Seq<char>>,
    index: int,
) -> bool {
    if options.len() == 1 {
        index == 0 && after == before
    } else {
        asked(before, after, stage, options, index)
    }
}

/// A decision source that plays from a script: it gives the answers of a
/// list in turn and starts again at the end of the list.  An answer that is
/// too large for the options at hand is reduced modulo their number.
#[derive(Debug)]
pub struct ScriptedChooser {
    pub answers: Vec<usize>,
    /// The position in `answers` of the next answer.
    pub next: usize,
}

impl ScriptedChooser {
    pub fn new(answers: Vec<usize>) -> (chooser: ScriptedChooser)
        ensures
            chooser.answers@ == answers@,
            chooser.next == 0,
    {
        ScriptedChooser { answers, next: 0 }
    }

    /// The answer that the script gives to `count` options when it stands
    /// at position `next`; the first option where the script is empty.
    pub open spec fn answer(self, count: nat) -> int {
        if self.answers@.len() == 0 {
            0
        } else {
            self.answers@[self.next as int % self.answers@.len() as int] as int % count as int
        }
    }
}

impl Chooser for ScriptedChooser {
    /// The script gives its next answer, reduced to the number of options,
    /// and moves on by one.
    open spec fn answers(
        &self,
        after: &Self,
        stage: Action,
        options: Seq<Seq<char>>,
        index: usize,
    ) -> bool {
        &&& index == self.answer(options.len())
        &&& after.answers@ == self.answers@
        &&& self.answers@.len() > 0 ==> after.next == (self.next as int % self.answers@.len() as int) + 1
        &&& self.answers@.len() == 0 ==> after.next == self.next
    }

    fn decide(&mut self, stage: Action, options: &Vec<String>) -> (index: usize)
        ensures
            index == old(self).answer(options@.len()),
            final(self).answers@ == old(self).answers@,
            old(self).answers@.len() > 0 ==> final(self).next == (old(self).next as int % old(
                self,
            ).answers@.len() as int) + 1,
    {
        if self.answers.len() == 0 {
            return 0;
        }
        let at: usize = self.next % self.answers.len();
        self.next = at + 1;
        self.answers[at] % options.len()
    }
}

/// Settles a decision: a single option is taken as it is, and `chooser` is
/// not asked; several are put to `chooser`, and what it decides is taken.
pub fn settle<C: Chooser>(chooser: &mut C, stage: Action, options: &Vec<String>) -> (index: usize)
    requires
        options@.len() > 0,
    ensures
        index < options@.len(),
        settled(*old(chooser), *final(chooser), stage, texts(options@), index as int),
{
    if options.len() == 1 {
        0
    } else {
        chooser.decide(stage, options)
    }
}

/// Puts a decision to `chooser`, however many options there are.
pub fn ask<C: Chooser>(chooser: &mut C, stage: Action, options: &Vec<String>) -> (index: usize)
    requires
        options@.len() > 0,
    ensures
        index < options@.len(),
        asked(*old(chooser), *final(chooser), stage, texts(options@), index as int),
{
    chooser.decide(stage, options)
}

} // verus!
