use war::cards::Deck;
use war::game::{Game, Players};

#[test]
fn construct() {
    let _game = Game::new(false, false);
}

#[test]
fn deal_splits_evenly() {
    let game = Game::new(false, false);
    assert_eq!(game.player_cards(Players::Blue), 27);
    assert_eq!(game.player_cards(Players::Red), 27);
    assert!(!game.is_finished());
    assert_eq!(game.records().len(), 0);
}

#[test]
fn single_deck_game_runs_to_a_winner() {
    // A deliberately unshuffled standard deck, dealt round-robin.
    let deck = Deck::standard();
    let mut game = Game::from_deck(deck, false);
    assert_eq!(game.player_cards(Players::Blue), 27);
    assert_eq!(game.player_cards(Players::Red), 27);

    let results = game.play();
    assert!(game.is_finished());
    assert!(results.turns >= 1);

    let blue = game.player_cards(Players::Blue);
    let red = game.player_cards(Players::Red);
    assert!(blue == 0 || red == 0);
    assert_eq!(blue + red, 54);
    let (winner_cards, loser_cards) = if blue > 0 { (blue, red) } else { (red, blue) };
    assert_eq!(winner_cards, 54);
    assert_eq!(loser_cards, 0);
    let expected = if blue > 0 { Players::Blue } else { Players::Red };
    assert_eq!(results.winner, expected);
}

#[test]
fn double_deck_game_conserves_cards() {
    let mut game = Game::new(true, false);
    assert_eq!(game.player_cards(Players::Blue), 54);
    assert_eq!(game.player_cards(Players::Red), 54);

    let results = game.play();
    assert!(game.is_finished());
    assert!(results.turns >= 1);

    let blue = game.player_cards(Players::Blue);
    let red = game.player_cards(Players::Red);
    assert!(blue == 0 || red == 0);
    assert_eq!(blue + red, 108);
    let winner_cards = if blue > 0 { blue } else { red };
    assert_eq!(winner_cards, 108);
}

#[test]
fn recording_emits_one_record_per_turn() {
    let deck = Deck::standard();
    let mut game = Game::from_deck(deck, true);
    let results = game.play();

    let records = game.records();
    assert_eq!(records.len(), results.turns);

    let mut war_turns = 0;
    for record in records.iter() {
        assert_eq!(record.red_cards + record.blue_cards, 54);
        if record.war {
            war_turns += 1;
        }
    }
    assert!(war_turns <= results.wars);
}
