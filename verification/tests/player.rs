use war::cards::{Card, Suit, SuitRank};
use war::player::Player;

#[test]
fn fresh_player_has_lost() {
    let player = Player::new();
    assert!(player.has_lost());
    assert_eq!(player.number_of_cards(), 0);
}

#[test]
fn draw_from_empty_player() {
    let mut player = Player::new();
    assert_eq!(player.draw(), None);
    assert!(player.has_lost());
}

#[test]
fn draw_replenishes_from_reserve() {
    let mut player = Player::new();
    let queen = Card::SuitCard(Suit::Diamonds, SuitRank::Queen);
    player.claim(queen);
    assert!(!player.has_lost());
    assert_eq!(player.number_of_cards(), 1);

    // The playing deck is empty, so the reserve must be drained into it
    // before the draw; with one card the outcome is fully determined.
    assert_eq!(player.draw(), Some(queen));
    assert_eq!(player.number_of_cards(), 0);
    assert!(player.has_lost());
}

#[test]
fn draw_yields_every_claimed_card() {
    let mut player = Player::new();
    let claimed = vec![
        Card::SuitCard(Suit::Hearts, SuitRank::Five),
        Card::SuitCard(Suit::Spade, SuitRank::Jack),
        Card::SuitCard(Suit::Clubs, SuitRank::Nine),
    ];
    for card in claimed.iter() {
        player.claim(*card);
    }
    assert_eq!(player.number_of_cards(), 3);

    let mut drawn = Vec::new();
    while let Some(card) = player.draw() {
        drawn.push(card);
    }
    assert_eq!(drawn.len(), 3);
    assert!(player.has_lost());
    for card in claimed.iter() {
        assert_eq!(drawn.iter().filter(|c| *c == card).count(), 1);
    }
}
