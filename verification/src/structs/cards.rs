//! Card types and the generic deck that holds them.

use vstd::prelude::*;
use vstd::std_specs::slice::into_iter_elts;
use std::slice::Iter;
use rand::seq::SliceRandom;
use rand_chacha::ChaCha20Rng;

pub mod adventurer;
pub mod flood;
pub mod island;
pub mod treasure;

verus! {

/// The four families of cards in the box.
#[derive(Debug, Clone, Copy, PartialEq, Eq, Structural)]
pub enum CardType {
    Island,
    Treasure,
    Flood,
    Adventurer,
}

/// What every card type offers: its family, its full starting deck, a
/// display name and an equality test on values.
pub trait Card: Copy {
    fn card_type() -> CardType;

    fn get_deck() -> Deck<Self>;

    fn as_string(&self) -> String;

    fn same(&self, other: &Self) -> (b: bool)
        ensures
            b == (*self == *other),
    ;
}

/// An ordered pile of cards.  Position 0 is the top of the pile; the view
/// is the sequence of cards from top to bottom.
#[derive(Debug, Clone, PartialEq, Eq, Hash)]
pub struct Deck<A> {
    pub cards: Vec<A>,
}

impl<A> View for Deck<A> {
    type V = Seq<A>;

    open spec fn view(&self) -> Seq<A> {
        self.cards@
    }
}

impl<T: Copy> Deck<T> {
    /// Copies `cards` into a new deck, first element on top.
    pub fn from(cards: &[T]) -> (deck: Deck<T>)
        ensures
            deck@ == cards@,
    {
        Deck { cards: vstd::slice::slice_to_vec(cards) }
    }

    /// An empty deck with room for `capacity` cards.
    pub fn with_capacity(capacity: usize) -> (deck: Deck<T>)
        ensures
            deck@ == Seq::<T>::empty(),
    {
        Deck { cards: Vec::with_capacity(capacity) }
    }

    /// An empty deck.
    pub fn new() -> (deck: Deck<T>)
        ensures
            deck@ == Seq::<T>::empty(),
    {
        Deck { cards: Vec::new() }
    }

    /// The card at `index`, counted from the top, if there is one.
    pub fn peak_card(&self, index: usize) -> (card: Option<&T>)
        ensures
            index < self@.len() ==> card == Some(&self@[index as int]),
            index >= self@.len() ==> card is None,
    {
        if index < self.cards.len() {
            Some(&self.cards[index])
        } else {
            None
        }
    }

    /// Takes the card at `index` out of the deck; the cards below it move up.
    pub fn pop_card(&mut self, index: usize) -> (card: Option<T>)
        ensures
            index < old(self)@.len() ==> card == Some(old(self)@[index as int]) && final(self)@
                == old(self)@.remove(index as int),
            index >= old(self)@.len() ==> card is None && final(self)@ == old(self)@,
    {
        if index >= self.cards.len() {
            None
        } else {
            Some(self.cards.remove(index))
        }
    }

    /// The top card, if the deck is not empty.
    pub fn peak_next(&self) -> (card: Option<&T>)
        ensures
            self@.len() > 0 ==> card == Some(&self@[0]),
            self@.len() == 0 ==> card is None,
    {
        self.peak_card(0)
    }

    /// Draws the top card.
    pub fn pop_next(&mut self) -> (card: Option<T>)
        ensures
            old(self)@.len() > 0 ==> card == Some(old(self)@[0]) && final(self)@ == old(
                self,
            )@.drop_first(),
            old(self)@.len() == 0 ==> card is None && final(self)@ == old(self)@,
    {
        let card = self.pop_card(0);
        assert(old(self)@.len() > 0 ==> old(self)@.remove(0) =~= old(self)@.drop_first());
        card
    }

    /// Puts `card` under the deck.
    pub fn insert(&mut self, card: T)
        ensures
            final(self)@ == old(self)@.push(card),
    {
        self.cards.push(card);
    }

    /// Moves every card of `other` under this deck, in order; `other` ends empty.
    pub fn stack(&mut self, other: &mut Deck<T>)
        ensures
            final(self)@ == old(self)@ + old(other)@,
            final(other)@ == Seq::<T>::empty(),
    {
        self.cards.append(&mut other.cards);
    }

    /// Moves every card of `other` on top of this deck, in order; `other`
    /// ends empty.
    pub fn stack_front(&mut self, other: &mut Deck<T>)
        ensures
            final(self)@ == old(other)@ + old(self)@,
            final(other)@ == Seq::<T>::empty(),
    {
        other.cards.append(&mut self.cards);
        self.cards.append(&mut other.cards);
        assert(self@ =~= old(other)@ + old(self)@);
    }


    /// The number of cards in the deck.
    pub fn len(&self) -> (n: usize)
        ensures
            n == self@.len(),
    {
        self.cards.len()
    }

    /// Whether the deck holds no card.
    pub fn is_empty(&self) -> (empty: bool)
        ensures
            empty == (self@.len() == 0),
    {
        self.cards.is_empty()
    }

    /// Shuffles the deck in place with `rand`'s `SliceRandom::shuffle`, which
    /// only swaps cards: the deck afterwards holds the same cards, each as
    /// often as before.  Their order depends on the generator and is not
    /// stated.
    #[verifier::external_body]
    pub fn shuffle(&mut self, rng: &mut ChaCha20Rng)
        ensures
            final(self)@.to_multiset() == old(self)@.to_multiset(),
    {
        self.cards.shuffle(rng);
    }

    /// An iterator over the cards from top to bottom.
    pub fn iter(&self) -> (cards: Iter<'_, T>)
        ensures
            into_iter_elts(cards) == self@,
    {
        let cards = self.cards.iter();
        assert(into_iter_elts(cards) =~= self@);
        cards
    }
}

impl<T: Card> Deck<T> {
    /// Whether some card of the deck equals `card`.
    pub fn contains(&self, card: &T) -> (found: bool)
        ensures
            found == self@.contains(*card),
    {
        let mut i: usize = 0;
        while i < self.cards.len()
            invariant
                i <= self@.len(),
                forall|j: int| 0 <= j < i ==> self@[j] != *card,
            decreases self@.len() - i,
        {
            if self.cards[i].same(card) {
                return true;
            }
            i += 1;
        }
        false
    }
}

} // verus!
