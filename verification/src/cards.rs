use vstd::prelude::*;
use rand::seq::SliceRandom;

verus! {

#[derive(Clone, Copy, PartialEq, Eq, Debug)]
pub enum Suit {
    Hearts,
    Diamonds,
    Clubs,
    Spade,
}

#[derive(Clone, Copy, PartialEq, Eq, Debug)]
pub enum SuitRank {
    Two,
    Three,
    Four,
    Five,
    Six,
    Seven,
    Eight,
    Nine,
    Ten,
    Jack,
    Queen,
    King,
    Ace,
}

#[derive(Clone, Copy, PartialEq, Eq, PartialOrd, Ord, Debug)]
pub enum Rank {
    Two,
    Three,
    Four,
    Five,
    Six,
    Seven,
    Eight,
    Nine,
    Ten,
    Jack,
    Queen,
    King,
    Ace,
    Joker,
}

impl Rank {
    /// The position of this rank in the total order: Two is lowest,
    /// Joker is highest.
    pub open spec fn value(self) -> int {
        match self {
            Rank::Two => 0,
            Rank::Three => 1,
            Rank::Four => 2,
            Rank::Five => 3,
            Rank::Six => 4,
            Rank::Seven => 5,
            Rank::Eight => 6,
            Rank::Nine => 7,
            Rank::Ten => 8,
            Rank::Jack => 9,
            Rank::Queen => 10,
            Rank::King => 11,
            Rank::Ace => 12,
            Rank::Joker => 13,
        }
    }

    /// The executable form of `value`, used to compare two ranks.
    pub fn strength(&self) -> (n: u8)
        ensures
            n as int == self.value(),
    {
        match self {
            Rank::Two => 0,
            Rank::Three => 1,
            Rank::Four => 2,
            Rank::Five => 3,
            Rank::Six => 4,
            Rank::Seven => 5,
            Rank::Eight => 6,
            Rank::Nine => 7,
            Rank::Ten => 8,
            Rank::Jack => 9,
            Rank::Queen => 10,
            Rank::King => 11,
            Rank::Ace => 12,
            Rank::Joker => 13,
        }
    }

    pub open spec fn spec_from_suit_rank(suit_rank: SuitRank) -> Rank {
        match suit_rank {
            SuitRank::Two => Rank::Two,
            SuitRank::Three => Rank::Three,
            SuitRank::Four => Rank::Four,
            SuitRank::Five => Rank::Five,
            SuitRank::Six => Rank::Six,
            SuitRank::Seven => Rank::Seven,
            SuitRank::Eight => Rank::Eight,
            SuitRank::Nine => Rank::Nine,
            SuitRank::Ten => Rank::Ten,
            SuitRank::Jack => Rank::Jack,
            SuitRank::Queen => Rank::Queen,
            SuitRank::King => Rank::King,
            SuitRank::Ace => Rank::Ace,
        }
    }

    pub fn from_suit_rank(suit_rank: &SuitRank) -> (r: Rank)
        ensures
            r == Rank::spec_from_suit_rank(*suit_rank),
    {
        match suit_rank {
            SuitRank::Two => Rank::Two,
            SuitRank::Three => Rank::Three,
            SuitRank::Four => Rank::Four,
            SuitRank::Five => Rank::Five,
            SuitRank::Six => Rank::Six,
            SuitRank::Seven => Rank::Seven,
            SuitRank::Eight => Rank::Eight,
            SuitRank::Nine => Rank::Nine,
            SuitRank::Ten => Rank::Ten,
            SuitRank::Jack => Rank::Jack,
            SuitRank::Queen => Rank::Queen,
            SuitRank::King => Rank::King,
            SuitRank::Ace => Rank::Ace,
        }
    }
}

#[derive(Clone, Copy, PartialEq, Eq, Debug)]
pub enum Color {
    Black,
    Red,
}

#[derive(Clone, Copy, PartialEq, Eq, Debug)]
pub enum Card {
    SuitCard(Suit, SuitRank),
    Joker(Color),
}

impl Card {
    /// The comparison key of a card: suited cards map their face value
    /// to the rank of the same name, either joker maps to `Rank::Joker`.
    pub open spec fn spec_rank(self) -> Rank {
        match self {
            Card::Joker(_) => Rank::Joker,
            Card::SuitCard(_, suit_rank) => Rank::spec_from_suit_rank(suit_rank),
        }
    }

    pub fn rank(&self) -> (r: Rank)
        ensures
            r == self.spec_rank(),
    {
        match self {
            Card::Joker(_) => Rank::Joker,
            Card::SuitCard(_, suit_rank) => Rank::from_suit_rank(suit_rank),
        }
    }
}

/// The suit constructed at position `k` of a suit block, in the fixed
/// construction order of a standard deck.
pub open spec fn suit_at(k: int) -> Suit {
    if k == 0 {
        Suit::Hearts
    } else if k == 1 {
        Suit::Diamonds
    } else if k == 2 {
        Suit::Clubs
    } else {
        Suit::Spade
    }
}

/// The face value constructed at position `k` within one suit, in the fixed
/// construction order of a standard deck.
pub open spec fn suit_rank_at(k: int) -> SuitRank {
    if k == 0 {
        SuitRank::Two
    } else if k == 1 {
        SuitRank::Three
    } else if k == 2 {
        SuitRank::Four
    } else if k == 3 {
        SuitRank::Five
    } else if k == 4 {
        SuitRank::Six
    } else if k == 5 {
        SuitRank::Seven
    } else if k == 6 {
        SuitRank::Eight
    } else if k == 7 {
        SuitRank::Nine
    } else if k == 8 {
        SuitRank::Ten
    } else if k == 9 {
        SuitRank::Jack
    } else if k == 10 {
        SuitRank::Queen
    } else {
        if k == 11 {
            SuitRank::King
        } else {
            SuitRank::Ace
        }
    }
}

/// The card at position `i` of a standard deck: thirteen cards per suit,
/// suit by suit, followed by the black and the red joker.
pub open spec fn standard_card(i: int) -> Card {
    if i < 52 {
        Card::SuitCard(suit_at(i / 13), suit_rank_at(i % 13))
    } else if i == 52 {
        Card::Joker(Color::Black)
    } else {
        Card::Joker(Color::Red)
    }
}

/// The full 54-card standard deck, bottom to top, in construction order.
pub open spec fn standard_deck() -> Seq<Card> {
    Seq::new(54, |i: int| standard_card(i))
}

impl Suit {
    /// The position of this suit in the construction order.
    pub open spec fn index(self) -> int {
        match self {
            Suit::Hearts => 0,
            Suit::Diamonds => 1,
            Suit::Clubs => 2,
            Suit::Spade => 3,
        }
    }
}

impl SuitRank {
    /// The position of this face value in the construction order.
    pub open spec fn index(self) -> int {
        match self {
            SuitRank::Two => 0,
            SuitRank::Three => 1,
            SuitRank::Four => 2,
            SuitRank::Five => 3,
            SuitRank::Six => 4,
            SuitRank::Seven => 5,
            SuitRank::Eight => 6,
            SuitRank::Nine => 7,
            SuitRank::Ten => 8,
            SuitRank::Jack => 9,
            SuitRank::Queen => 10,
            SuitRank::King => 11,
            SuitRank::Ace => 12,
        }
    }
}

/// A standard deck holds 54 distinct cards: every suit and face value
/// combination exactly once, plus the two jokers.
pub proof fn lemma_standard_deck_contents()
    ensures
        standard_deck().len() == 54,
        forall|i: int, j: int|
            0 <= i < j < 54 ==> #[trigger] standard_deck()[i] != #[trigger] standard_deck()[j],
        forall|s: Suit, r: SuitRank| #[trigger] standard_deck().contains(Card::SuitCard(s, r)),
        standard_deck()[52] == Card::Joker(Color::Black),
        standard_deck()[53] == Card::Joker(Color::Red),
{
    assert forall|i: int, j: int| 0 <= i < j < 54 implies #[trigger] standard_deck()[i]
        != #[trigger] standard_deck()[j] by {
        if j < 52 {
            assert(0 <= i / 13 < 4 && 0 <= j / 13 < 4) by (nonlinear_arith)
                requires 0 <= i < 52 && 0 <= j < 52;
            assert(0 <= i % 13 < 13 && 0 <= j % 13 < 13) by (nonlinear_arith)
                requires 0 <= i < 52 && 0 <= j < 52;
            if standard_deck()[i] == standard_deck()[j] {
                assert(suit_at(i / 13) == suit_at(j / 13));
                assert(suit_rank_at(i % 13) == suit_rank_at(j % 13));
                assert(i / 13 == j / 13);
                assert(i % 13 == j % 13);
                assert(i == 13 * (i / 13) + i % 13) by (nonlinear_arith);
                assert(j == 13 * (j / 13) + j % 13) by (nonlinear_arith);
                assert(false);
            }
        }
    }
    assert forall|s: Suit, r: SuitRank| #[trigger]
        standard_deck().contains(Card::SuitCard(s, r)) by {
        let i = s.index() * 13 + r.index();
        assert(0 <= i < 52 && i / 13 == s.index() && i % 13 == r.index()) by (nonlinear_arith)
            requires
                0 <= s.index() < 4,
                0 <= r.index() < 13,
                i == s.index() * 13 + r.index(),
        ;
        assert(standard_deck()[i] == Card::SuitCard(s, r));
    }
}

/// Both jokers share the single highest rank, strictly above every suited
/// card; among suited cards the ranks rise from Two to Ace.
pub proof fn lemma_rank_order()
    ensures
        Card::Joker(Color::Black).spec_rank() == Card::Joker(Color::Red).spec_rank(),
        forall|s: Suit, r: SuitRank|
            (#[trigger] Card::SuitCard(s, r).spec_rank()).value() < Rank::Joker.value(),
        forall|s: Suit, a: SuitRank, b: SuitRank|
            a.index() < b.index() ==> (#[trigger] Card::SuitCard(s, a).spec_rank()).value()
                < (#[trigger] Card::SuitCard(s, b).spec_rank()).value(),
{
}

fn suit_from_index(k: u8) -> (s: Suit)
    requires
        k < 4,
    ensures
        s == suit_at(k as int),
{
    match k {
        0 => Suit::Hearts,
        1 => Suit::Diamonds,
        2 => Suit::Clubs,
        _ => Suit::Spade,
    }
}

fn suit_rank_from_index(k: u8) -> (r: SuitRank)
    requires
        k < 13,
    ensures
        r == suit_rank_at(k as int),
{
    match k {
        0 => SuitRank::Two,
        1 => SuitRank::Three,
        2 => SuitRank::Four,
        3 => SuitRank::Five,
        4 => SuitRank::Six,
        5 => SuitRank::Seven,
        6 => SuitRank::Eight,
        7 => SuitRank::Nine,
        8 => SuitRank::Ten,
        9 => SuitRank::Jack,
        10 => SuitRank::Queen,
        11 => SuitRank::King,
        _ => SuitRank::Ace,
    }
}

/// An ordered pile of cards; the end of the sequence is the top,
/// where cards are drawn from and put onto.
pub struct Deck {
    cards: Vec<Card>,
}

impl View for Deck {
    type V = Seq<Card>;

    closed spec fn view(&self) -> Seq<Card> {
        self.cards@
    }
}

impl Deck {
    pub fn new() -> (d: Deck)
        ensures
            d@ == Seq::<Card>::empty(),
    {
        let d = Deck { cards: Vec::new() };
        proof {
            assert(d@ =~= Seq::<Card>::empty());
        }
        d
    }

    /// Builds the fixed 54-card set: all thirteen face values of each of the
    /// four suits, then one black and one red joker, in construction order.
    pub fn standard() -> (d: Deck)
        ensures
            d@ == standard_deck(),
    {
        let mut cards: Vec<Card> = Vec::new();
        let mut i: u8 = 0;
        while i < 52
            invariant
                i <= 52,
                cards@.len() == i as int,
                forall|k: int| 0 <= k < i as int ==> cards@[k] == standard_card(k),
            decreases 52 - i as int,
        {
            let suit = suit_from_index(i / 13);
            let suit_rank = suit_rank_from_index(i % 13);
            cards.push(Card::SuitCard(suit, suit_rank));
            i = i + 1;
        }
        cards.push(Card::Joker(Color::Black));
        cards.push(Card::Joker(Color::Red));
        let d = Deck { cards };
        proof {
            assert(d@ =~= standard_deck());
        }
        d
    }

    /// Relies on rand's `SliceRandom::shuffle` (a Fisher-Yates shuffle that
    /// only swaps elements of the slice in place): the deck afterwards holds
    /// the same cards, as a multiset, as before. Which permutation comes out
    /// depends on the thread's random generator, so nothing more is stated.
    /// `rand::thread_rng` itself can fail only on its first use in a thread,
    /// and only if the operating system's randomness source is unavailable.
    #[verifier::external_body]
    pub fn shuffle(&mut self)
        ensures
            final(self)@.len() == old(self)@.len(),
            final(self)@.to_multiset() == old(self)@.to_multiset(),
    {
        self.cards.shuffle(&mut rand::thread_rng())
    }

    pub fn draw(&mut self) -> (r: Option<Card>)
        ensures
            old(self)@.len() == 0 ==> r is None && final(self)@ == old(self)@,
            old(self)@.len() > 0 ==> r == Some(old(self)@.last()) && final(self)@
                == old(self)@.drop_last(),
    {
        self.cards.pop()
    }

    pub fn put(&mut self, card: Card)
        ensures
            final(self)@ == old(self)@.push(card),
    {
        self.cards.push(card)
    }

    pub fn cards(&self) -> (r: &Vec<Card>)
        ensures
            r@ == self@,
    {
        &self.cards
    }

    /// Moves every card of `other` onto the top of this deck, keeping
    /// `other`'s internal order, and leaves `other` empty.
    pub fn append(&mut self, other: &mut Deck)
        ensures
            final(self)@ == old(self)@ + old(other)@,
            final(other)@ == Seq::<Card>::empty(),
    {
        self.cards.append(&mut other.cards);
    }
}

} // verus!
