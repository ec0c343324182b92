use vstd::prelude::*;
use vstd::multiset::Multiset;

use crate::cards::{Card, Deck};

verus! {

broadcast use
    vstd::seq_lib::group_to_multiset_ensures,
    vstd::multiset::group_multiset_axioms,
;

/// A player owns an active playing deck, drawn from directly, and a reserve
/// deck of won cards that is reshuffled into play once the playing deck is
/// exhausted.
pub struct Player {
    playing_deck: Deck,
    reserve_deck: Deck,
}

impl Player {
    /// The cards of the active playing deck, bottom to top.
    pub closed spec fn playing(self) -> Seq<Card> {
        self.playing_deck@
    }

    /// The cards of the reserve deck, bottom to top.
    pub closed spec fn reserve(self) -> Seq<Card> {
        self.reserve_deck@
    }

    /// How many cards the player holds across both decks.
    pub open spec fn card_count(self) -> nat {
        self.playing().len() + self.reserve().len()
    }

    /// Every card the player holds, as a multiset.
    pub open spec fn all_cards(self) -> Multiset<Card> {
        self.playing().to_multiset().add(self.reserve().to_multiset())
    }

    pub fn new() -> (p: Player)
        ensures
            p.playing() == Seq::<Card>::empty(),
            p.reserve() == Seq::<Card>::empty(),
    {
        Player { playing_deck: Deck::new(), reserve_deck: Deck::new() }
    }

    /// A player has lost exactly when both decks are empty.
    pub fn has_lost(&self) -> (r: bool)
        ensures
            r == (self.card_count() == 0),
    {
        self.playing_deck.cards().is_empty() && self.reserve_deck.cards().is_empty()
    }

    pub fn number_of_cards(&self) -> (n: usize)
        requires
            self.card_count() <= usize::MAX,
        ensures
            n == self.card_count(),
    {
        self.playing_deck.cards().len() + self.reserve_deck.cards().len()
    }

    /// Draws the top card of the playing deck. When the playing deck is
    /// empty, the whole reserve deck is first moved into the playing deck and
    /// shuffled; only a player with no cards at all draws nothing.
    pub fn draw(&mut self) -> (r: Option<Card>)
        ensures
            r is Some <==> old(self).card_count() > 0,
            r is None ==> final(self).playing() == old(self).playing() && final(self).reserve()
                == old(self).reserve(),
            r is Some ==> final(self).card_count() + 1 == old(self).card_count()
                && final(self).all_cards().insert(r->0) == old(self).all_cards(),
            old(self).playing().len() > 0 ==> r == Some(old(self).playing().last())
                && final(self).playing() == old(self).playing().drop_last() && final(self).reserve()
                == old(self).reserve(),
            old(self).playing().len() == 0 && old(self).reserve().len() > 0
                ==> final(self).reserve().len() == 0
                && final(self).playing().len() + 1 == old(self).reserve().len(),
    {
        let first = self.playing_deck.draw();
        match first {
            Some(card) => {
                proof {
                    assert(old(self).playing() =~= old(self).playing().drop_last().push(card));
                    assert(final(self).all_cards().insert(card) =~= old(self).all_cards());
                }
                return Some(card);
            },
            None => {},
        }

        if self.reserve_deck.cards().is_empty() {
            return None;
        }

        let ghost orig = *old(self);
        loop
            invariant
                self.playing_deck@.len() + self.reserve_deck@.len() == orig.reserve().len(),
                self.playing_deck@.to_multiset().add(self.reserve_deck@.to_multiset())
                    == orig.reserve().to_multiset(),
            ensures
                self.reserve_deck@.len() == 0,
                self.playing_deck@.len() == orig.reserve().len(),
                self.playing_deck@.to_multiset() == orig.reserve().to_multiset(),
            decreases self.reserve_deck@.len(),
        {
            let ghost pre = self.reserve_deck@;
            match self.reserve_deck.draw() {
                Some(card) => {
                    proof {
                        assert(pre =~= pre.drop_last().push(pre.last()));
                    }
                    self.playing_deck.put(card);
                },
                None => {
                    proof {
                        assert(self.playing_deck@.to_multiset().add(
                            self.reserve_deck@.to_multiset(),
                        ) =~= self.playing_deck@.to_multiset());
                    }
                    break ;
                },
            }
        }

        self.playing_deck.shuffle();
        let ghost full = self.playing_deck@;
        let out = self.playing_deck.draw();
        proof {
            vstd::multiset::lemma_multiset_empty_len(orig.playing().to_multiset());
            vstd::multiset::lemma_multiset_empty_len(self.reserve_deck@.to_multiset());
            assert(full =~= full.drop_last().push(full.last()));
            assert(full.drop_last().push(full.last()).to_multiset() =~= full.drop_last()
                .to_multiset().insert(full.last()));
            assert(final(self).all_cards().insert(out->0) =~= orig.all_cards());
        }
        out
    }

    /// Claims a whole stake of cards in order, front to back, and leaves the
    /// stake empty.
    pub(crate) fn claim_all(&mut self, cards: &mut Vec<Card>)
        ensures
            final(self).reserve() == old(self).reserve() + old(cards)@,
            final(self).playing() == old(self).playing(),
            final(self).all_cards() == old(self).all_cards().add(old(cards)@.to_multiset()),
            final(cards)@ == Seq::<Card>::empty(),
    {
        proof {
            assert(self.reserve() + cards@.take(0) =~= self.reserve());
        }
        let mut i: usize = 0;
        while i < cards.len()
            invariant
                i <= cards@.len(),
                cards@ == old(cards)@,
                self.playing() == old(self).playing(),
                self.reserve() == old(self).reserve() + cards@.take(i as int),
            decreases cards@.len() - i as int,
        {
            let card = cards[i];
            self.claim(card);
            proof {
                assert((old(self).reserve() + cards@.take(i as int)).push(cards@[i as int])
                    =~= old(self).reserve() + cards@.take(i as int + 1));
            }
            i = i + 1;
        }
        proof {
            assert(cards@.take(cards@.len() as int) =~= cards@);
            vstd::seq_lib::lemma_multiset_commutative(old(self).reserve(), old(cards)@);
            assert(self.all_cards() =~= old(self).all_cards().add(old(cards)@.to_multiset()));
        }
        cards.clear();
    }

    /// Won cards always go to the reserve deck.
    pub fn claim(&mut self, card: Card)
        ensures
            final(self).reserve() == old(self).reserve().push(card),
            final(self).playing() == old(self).playing(),
            final(self).all_cards() == old(self).all_cards().insert(card),
    {
        self.reserve_deck.put(card);
        proof {
            assert(self.all_cards() =~= old(self).all_cards().insert(card));
        }
    }
}

} // verus!
