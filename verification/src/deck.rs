//! A deck of cards with its discard pile.
//!
//! Cards are stable handles into the rule data.  Drawing pops from the end
//! of the draw pile; discarding pushes onto the discard pile.  Every
//! operation accounts for each card: the multiset of cards held by the deck
//! and its discard pile changes only by exactly the card drawn or
//! discarded, so together with the players' hands the card population of
//! the game is conserved.

use vstd::multiset::Multiset;
use vstd::prelude::*;

verus! {

/// A draw pile and its discard pile.
#[derive(Debug)]
pub struct Deck {
    cards: Vec<u64>,
    discard: Vec<u64>,
}

impl Deck {
    /// The draw pile, bottom first; drawing takes the last element.
    pub closed spec fn draw_pile(&self) -> Seq<u64> {
        self.cards@
    }

    /// The discard pile, oldest first.
    pub closed spec fn discard_pile(&self) -> Seq<u64> {
        self.discard@
    }

    /// Every card this deck accounts for, wherever it currently lies.
    pub open spec fn total(&self) -> Multiset<u64> {
        self.draw_pile().to_multiset().add(self.discard_pile().to_multiset())
    }

    /// A new deck holding `cards`, shuffled at creation.
    pub fn new(cards: Vec<u64>) -> (r: Deck)
        ensures
            r.draw_pile().to_multiset() == cards@.to_multiset(),
            r.draw_pile().len() == cards@.len(),
            r.discard_pile() == Seq::<u64>::empty(),
    {
        let mut cards = cards;
        crate::rng::shuffle(&mut cards);
        Deck { cards, discard: Vec::new() }
    }

    /// A new deck holding `cards` in the given order, the last one on top;
    /// for rule data that arrives pre-arranged.
    pub fn new_ordered(cards: Vec<u64>) -> (r: Deck)
        ensures
            r.draw_pile() == cards@,
            r.discard_pile() == Seq::<u64>::empty(),
    {
        Deck { cards, discard: Vec::new() }
    }

    /// Number of cards left to draw.
    pub fn len(&self) -> (r: usize)
        ensures
            r == self.draw_pile().len(),
    {
        self.cards.len()
    }

    /// Number of cards in the discard pile.
    pub fn discard_len(&self) -> (r: usize)
        ensures
            r == self.discard_pile().len(),
    {
        self.discard.len()
    }

    /// Draw the top card, or nothing when the draw pile is exhausted.  The
    /// drawn card leaves the deck's account and becomes the caller's.
    pub fn draw(&mut self) -> (r: Option<u64>)
        ensures
            old(self).draw_pile().len() == 0 ==> {
                &&& r is None
                &&& final(self).draw_pile() == old(self).draw_pile()
                &&& final(self).discard_pile() == old(self).discard_pile()
            },
            old(self).draw_pile().len() > 0 ==> {
                &&& r == Some(old(self).draw_pile().last())
                &&& final(self).draw_pile() == old(self).draw_pile().drop_last()
                &&& final(self).discard_pile() == old(self).discard_pile()
                &&& final(self).total() == old(self).total().remove(old(self).draw_pile().last())
            },
    {
        let r = self.cards.pop();
        proof {
            broadcast use vstd::multiset::group_multiset_axioms;

            if old(self).draw_pile().len() > 0 {
                let s = old(self).draw_pile();
                assert(self.draw_pile() =~= s.remove(s.len() - 1));
                vstd::seq_lib::to_multiset_remove(s, s.len() - 1);
                s.to_multiset_ensures();
                assert(s.contains(s.last()));
                assert(self.total() =~= old(self).total().remove(s.last()));
            }
        }
        r
    }

    /// Put `card` on the discard pile; it enters the deck's account.
    pub fn discard(&mut self, card: u64)
        ensures
            final(self).draw_pile() == old(self).draw_pile(),
            final(self).discard_pile() == old(self).discard_pile().push(card),
            final(self).total() == old(self).total().insert(card),
    {
        self.discard.push(card);
        proof {
            broadcast use vstd::multiset::group_multiset_axioms;

            vstd::seq_lib::to_multiset_build(old(self).discard_pile(), card);
            assert(self.total() =~= old(self).total().insert(card));
        }
    }

    /// Shuffle the discard pile back under the draw pile and shuffle the
    /// whole deck; no card is gained or lost.
    pub fn reshuffle(&mut self)
        ensures
            final(self).total() == old(self).total(),
            final(self).discard_pile() == Seq::<u64>::empty(),
    {
        self.cards.append(&mut self.discard);
        proof {
            broadcast use vstd::multiset::group_multiset_axioms;

            vstd::seq_lib::lemma_multiset_commutative(
                old(self).draw_pile(),
                old(self).discard_pile(),
            );
            Seq::<u64>::empty().to_multiset_ensures();
            vstd::multiset::lemma_multiset_empty_len(Seq::<u64>::empty().to_multiset());
        }
        crate::rng::shuffle(&mut self.cards);
        proof {
            broadcast use vstd::multiset::group_multiset_axioms;

            assert(self.total() =~= old(self).total());
        }
    }
}

} // verus!
