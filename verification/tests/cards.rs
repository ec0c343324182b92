use war::cards::{Card, Color, Deck, Rank, Suit, SuitRank};

fn all_suits() -> Vec<Suit> {
    vec![Suit::Hearts, Suit::Diamonds, Suit::Clubs, Suit::Spade]
}

fn all_suit_ranks() -> Vec<SuitRank> {
    vec![
        SuitRank::Two,
        SuitRank::Three,
        SuitRank::Four,
        SuitRank::Five,
        SuitRank::Six,
        SuitRank::Seven,
        SuitRank::Eight,
        SuitRank::Nine,
        SuitRank::Ten,
        SuitRank::Jack,
        SuitRank::Queen,
        SuitRank::King,
        SuitRank::Ace,
    ]
}

#[test]
fn ranks() {
    assert_eq!(
        Card::Joker(Color::Black).rank(),
        Card::Joker(Color::Red).rank()
    );

    assert!(
        Card::Joker(Color::Black).rank() > Card::SuitCard(Suit::Spade, SuitRank::Ace).rank()
    );
}

#[test]
fn rank_total_order() {
    let chain = vec![
        Rank::Two,
        Rank::Three,
        Rank::Four,
        Rank::Five,
        Rank::Six,
        Rank::Seven,
        Rank::Eight,
        Rank::Nine,
        Rank::Ten,
        Rank::Jack,
        Rank::Queen,
        Rank::King,
        Rank::Ace,
        Rank::Joker,
    ];
    for i in 1..chain.len() {
        assert!(chain[i] > chain[i - 1]);
        assert!(chain[i].strength() > chain[i - 1].strength());
    }
    assert_eq!(Card::Joker(Color::Red).rank(), Rank::Joker);
    assert_eq!(
        Card::SuitCard(Suit::Hearts, SuitRank::Two).rank(),
        Rank::Two
    );
}

#[test]
fn standard_deck_contents() {
    let deck = Deck::standard();
    let cards = deck.cards();
    assert_eq!(cards.len(), 54);

    for i in 0..cards.len() {
        for j in 0..i {
            assert_ne!(cards[i], cards[j]);
        }
    }

    let mut jokers = 0;
    for card in cards.iter() {
        if let Card::Joker(_) = card {
            jokers += 1;
        }
    }
    assert_eq!(jokers, 2);

    for suit in all_suits() {
        for suit_rank in all_suit_ranks() {
            let wanted = Card::SuitCard(suit, suit_rank);
            assert_eq!(cards.iter().filter(|c| **c == wanted).count(), 1);
        }
    }
}

#[test]
fn shuffle_is_permutation() {
    let mut deck = Deck::standard();
    let before = deck.cards().clone();
    deck.shuffle();
    let after = deck.cards().clone();

    assert_eq!(before.len(), after.len());
    for card in before.iter() {
        let n_before = before.iter().filter(|c| *c == card).count();
        let n_after = after.iter().filter(|c| *c == card).count();
        assert_eq!(n_before, n_after);
    }
}

#[test]
fn deck_draw_put_append() {
    let mut deck = Deck::new();
    assert_eq!(deck.cards().len(), 0);
    assert_eq!(deck.draw(), None);

    let ace = Card::SuitCard(Suit::Clubs, SuitRank::Ace);
    let two = Card::SuitCard(Suit::Hearts, SuitRank::Two);
    deck.put(ace);
    deck.put(two);
    assert_eq!(deck.draw(), Some(two));
    assert_eq!(deck.draw(), Some(ace));
    assert_eq!(deck.draw(), None);

    let mut first = Deck::new();
    first.put(ace);
    let mut second = Deck::new();
    second.put(two);
    first.append(&mut second);
    assert_eq!(first.cards().len(), 2);
    assert_eq!(second.cards().len(), 0);
    assert_eq!(first.draw(), Some(two));
    assert_eq!(first.draw(), Some(ace));
}
