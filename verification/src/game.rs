use vstd::prelude::*;
use vstd::multiset::Multiset;

use crate::cards::{Card, Deck};
use crate::cards::standard_deck;
use crate::player::Player;

verus! {

broadcast use
    vstd::seq_lib::group_to_multiset_ensures,
    vstd::multiset::group_multiset_axioms,
;

/// The two sides of a game. Blue always acts first within a turn.
#[derive(Clone, Copy, PartialEq, Eq, Debug)]
pub enum Players {
    Blue,
    Red,
}

/// What is reported about one completed turn: both players' card counts
/// after the turn's winner has claimed, and whether the turn held a war.
#[derive(Clone, Copy, PartialEq, Eq, Debug)]
pub struct TurnRecord {
    pub red_cards: usize,
    pub blue_cards: usize,
    pub war: bool,
}

/// The outcome of a finished game.
pub struct GameResults {
    pub winner: Players,
    pub wars: usize,
    pub turns: usize,
}

/// A two-player game of War: two players, the turn and war counters, and the
/// per-turn records kept when recording is switched on.
pub struct Game {
    blue: Player,
    red: Player,
    wars: usize,
    turns: usize,
    record: bool,
    records: Vec<TurnRecord>,
    finished: bool,
    dealt: Ghost<nat>,
}

impl Game {
    pub closed spec fn blue_player(self) -> Player {
        self.blue
    }

    pub closed spec fn red_player(self) -> Player {
        self.red
    }

    pub closed spec fn spec_wars(self) -> nat {
        self.wars as nat
    }

    pub closed spec fn spec_turns(self) -> nat {
        self.turns as nat
    }

    pub closed spec fn recording(self) -> bool {
        self.record
    }

    pub closed spec fn spec_records(self) -> Seq<TurnRecord> {
        self.records@
    }

    pub closed spec fn spec_finished(self) -> bool {
        self.finished
    }

    /// How many cards the initial deal handed out.
    pub closed spec fn dealt_total(self) -> nat {
        self.dealt@
    }

    /// How many cards both players hold together.
    pub open spec fn total_cards(self) -> nat {
        self.blue_player().card_count() + self.red_player().card_count()
    }

    /// Every card held by either player, as a multiset.
    pub open spec fn held_cards(self) -> Multiset<Card> {
        self.blue_player().all_cards().add(self.red_player().all_cards())
    }

    /// The invariant that holds between turns: the recording mode fixes how
    /// many records exist, every record's two counts sum to the dealt total,
    /// and the players together hold exactly the cards that were dealt.
    pub open spec fn wf(self) -> bool {
        &&& (self.recording() ==> self.spec_records().len() == self.spec_turns())
        &&& (!self.recording() ==> self.spec_records().len() == 0)
        &&& (forall|i: int|
            0 <= i < self.spec_records().len()
                ==> (#[trigger] self.spec_records()[i]).red_cards
                + self.spec_records()[i].blue_cards == self.dealt_total())
        &&& self.total_cards() == self.dealt_total()
        &&& self.dealt_total() <= usize::MAX
    }

    /// Deals an already prepared (shuffled or deliberately ordered) deck,
    /// one card at a time to each player's reserve in turn, Blue first,
    /// until the deck is exhausted.
    pub fn from_deck(deck: Deck, record: bool) -> (g: Game)
        ensures
            g.wf(),
            !g.spec_finished(),
            g.spec_turns() == 0,
            g.spec_wars() == 0,
            g.recording() == record,
            g.spec_records() == Seq::<TurnRecord>::empty(),
            g.dealt_total() == deck@.len(),
            g.blue_player().playing().len() == 0,
            g.red_player().playing().len() == 0,
            g.held_cards() == deck@.to_multiset(),
            g.blue_player().card_count() + g.red_player().card_count() == deck@.len(),
            g.blue_player().card_count() == g.red_player().card_count()
                || g.blue_player().card_count() == g.red_player().card_count() + 1,
            deck@.len() % 2 == 0 ==> g.blue_player().card_count() == deck@.len() / 2
                && g.red_player().card_count() == deck@.len() / 2,
            forall|i: int|
                0 <= i < g.blue_player().reserve().len()
                    ==> #[trigger] g.blue_player().reserve()[i] == deck@[deck@.len() - 1 - 2 * i],
            forall|i: int|
                0 <= i < g.red_player().reserve().len()
                    ==> #[trigger] g.red_player().reserve()[i] == deck@[deck@.len() - 2 - 2 * i],
    {
        let ghost handed = deck@;
        let mut deck = deck;
        let handed_len = deck.cards().len();
        assert(handed.len() == handed_len);
        let mut blue = Player::new();
        let mut red = Player::new();
        proof {
            lemma_empty_player_cards(blue);
            lemma_empty_player_cards(red);
            assert(blue.all_cards().add(red.all_cards()).add(deck@.to_multiset())
                =~= handed.to_multiset());
        }
        proof {
            assert(deck@ =~= handed.take(deck@.len() as int));
        }
        loop
            invariant_except_break
                blue.card_count() == red.card_count(),
            invariant
                blue.playing().len() == 0,
                red.playing().len() == 0,
                blue.card_count() + red.card_count() + deck@.len() == handed.len(),
                blue.all_cards().add(red.all_cards()).add(deck@.to_multiset())
                    == handed.to_multiset(),
                deck@ == handed.take(deck@.len() as int),
                forall|i: int|
                    0 <= i < blue.reserve().len() ==> #[trigger] blue.reserve()[i]
                        == handed[handed.len() - 1 - 2 * i],
                forall|i: int|
                    0 <= i < red.reserve().len() ==> #[trigger] red.reserve()[i]
                        == handed[handed.len() - 2 - 2 * i],
            ensures
                deck@.len() == 0,
                blue.playing().len() == 0,
                red.playing().len() == 0,
                blue.card_count() == red.card_count()
                    || blue.card_count() == red.card_count() + 1,
                forall|i: int|
                    0 <= i < blue.reserve().len() ==> #[trigger] blue.reserve()[i]
                        == handed[handed.len() - 1 - 2 * i],
                forall|i: int|
                    0 <= i < red.reserve().len() ==> #[trigger] red.reserve()[i]
                        == handed[handed.len() - 2 - 2 * i],
            decreases deck@.len(),
        {
            let ghost before = deck@;
            match deck.draw() {
                Some(card) => {
                    proof {
                        assert(before =~= before.drop_last().push(before.last()));
                        assert(deck@ =~= handed.take(deck@.len() as int));
                        assert(card == handed[handed.len() - 1 - 2 * blue.reserve().len()]);
                    }
                    blue.claim(card);
                    proof {
                        assert(blue.all_cards().add(red.all_cards()).add(deck@.to_multiset())
                            =~= handed.to_multiset());
                    }
                },
                None => {
                    break ;
                },
            }
            let ghost before = deck@;
            match deck.draw() {
                Some(card) => {
                    proof {
                        assert(before =~= before.drop_last().push(before.last()));
                        assert(deck@ =~= handed.take(deck@.len() as int));
                        assert(card == handed[handed.len() - 2 - 2 * red.reserve().len()]);
                    }
                    red.claim(card);
                    proof {
                        assert(blue.all_cards().add(red.all_cards()).add(deck@.to_multiset())
                            =~= handed.to_multiset());
                    }
                },
                None => {
                    break ;
                },
            }
        }
        let g = Game {
            blue,
            red,
            wars: 0,
            turns: 0,
            record,
            records: Vec::new(),
            finished: false,
            dealt: Ghost(handed.len()),
        };
        proof {
            lemma_empty_seq_to_multiset(deck@);
            assert(g.held_cards() =~= handed.to_multiset());
            assert(g.spec_records() =~= Seq::<TurnRecord>::empty());
        }
        g
    }

    /// Builds a freshly shuffled standard deck (two of them, concatenated,
    /// in double-deck mode), and deals it out round-robin.
    pub fn new(double_deck: bool, record: bool) -> (g: Game)
        ensures
            g.wf(),
            !g.spec_finished(),
            g.spec_turns() == 0,
            g.spec_wars() == 0,
            g.recording() == record,
            g.spec_records() == Seq::<TurnRecord>::empty(),
            g.dealt_total() == (if double_deck { 108int } else { 54int }),
            g.blue_player().card_count() == (if double_deck { 54int } else { 27int }),
            g.red_player().card_count() == (if double_deck { 54int } else { 27int }),
            g.blue_player().playing().len() == 0,
            g.red_player().playing().len() == 0,
            !double_deck ==> g.held_cards() == standard_deck().to_multiset(),
            double_deck ==> g.held_cards() == standard_deck().to_multiset().add(
                standard_deck().to_multiset(),
            ),
    {
        let mut deck = Deck::standard();
        if double_deck {
            let mut second = Deck::standard();
            deck.append(&mut second);
            proof {
                vstd::seq_lib::lemma_multiset_commutative(standard_deck(), standard_deck());
            }
        }
        let ghost pool = deck@;
        deck.shuffle();
        assert(deck@.len() == (if double_deck { 108int } else { 54int }));
        assert(deck@.to_multiset() == pool.to_multiset());
        Game::from_deck(deck, record)
    }

    /// Hands the turn's winner both drawn cards and then the whole stake,
    /// front to back; the other player is untouched and the stake is left
    /// empty.
    fn win(&mut self, player: Players, stake: &mut Vec<Card>, blue_card: Card, red_card: Card)
        ensures
            final(stake)@ == Seq::<Card>::empty(),
            final(self).spec_wars() == old(self).spec_wars(),
            final(self).spec_turns() == old(self).spec_turns(),
            final(self).recording() == old(self).recording(),
            final(self).spec_records() == old(self).spec_records(),
            final(self).spec_finished() == old(self).spec_finished(),
            final(self).dealt_total() == old(self).dealt_total(),
            final(self).total_cards() == old(self).total_cards() + 2 + old(stake)@.len(),
            final(self).held_cards() == old(self).held_cards().insert(blue_card).insert(
                red_card,
            ).add(old(stake)@.to_multiset()),
            player == Players::Blue ==> final(self).blue_player().reserve()
                == old(self).blue_player().reserve().push(blue_card).push(red_card) + old(stake)@
                && final(self).blue_player().playing() == old(self).blue_player().playing()
                && final(self).red_player() == old(self).red_player(),
            player == Players::Red ==> final(self).red_player().reserve()
                == old(self).red_player().reserve().push(blue_card).push(red_card) + old(stake)@
                && final(self).red_player().playing() == old(self).red_player().playing()
                && final(self).blue_player() == old(self).blue_player(),
    {
        match player {
            Players::Blue => {
                self.blue.claim(blue_card);
                self.blue.claim(red_card);
                self.blue.claim_all(stake);
            },
            Players::Red => {
                self.red.claim(blue_card);
                self.red.claim(red_card);
                self.red.claim_all(stake);
            },
        }
        proof {
            assert(self.held_cards() =~= old(self).held_cards().insert(blue_card).insert(
                red_card,
            ).add(old(stake)@.to_multiset()));
        }
    }

    /// One war round: the tied pair goes onto the stake, then each player in
    /// turn stakes two further cards. Returns false as soon as a player
    /// cannot draw; the war counter has then still counted this war, and the
    /// whole stake goes to the player who could still draw, so that no card
    /// is ever lost.
    fn war_step(&mut self, stake: &mut Vec<Card>, blue_card: Card, red_card: Card) -> (ok: bool)
        requires
            old(self).spec_wars() < usize::MAX,
        ensures
            final(self).spec_wars() == old(self).spec_wars() + 1,
            final(self).spec_turns() == old(self).spec_turns(),
            final(self).recording() == old(self).recording(),
            final(self).spec_records() == old(self).spec_records(),
            final(self).spec_finished() == old(self).spec_finished(),
            final(self).dealt_total() == old(self).dealt_total(),
            final(self).held_cards().add(final(stake)@.to_multiset()) == old(
                self,
            ).held_cards().add(old(stake)@.to_multiset()).insert(blue_card).insert(red_card),
            ok ==> final(stake)@.len() == old(stake)@.len() + 6
                && final(stake)@.take(old(stake)@.len() as int) == old(stake)@
                && final(stake)@[old(stake)@.len() as int] == blue_card
                && final(stake)@[old(stake)@.len() as int + 1] == red_card
                && final(self).blue_player().card_count() + 2
                == old(self).blue_player().card_count()
                && final(self).red_player().card_count() + 2
                == old(self).red_player().card_count(),
            !ok ==> final(stake)@ == Seq::<Card>::empty()
                && (final(self).blue_player().card_count() == 0
                || final(self).red_player().card_count() == 0)
                && final(self).total_cards() == old(self).total_cards() + 2 + old(stake)@.len(),
    {
        self.wars = self.wars + 1;
        stake.push(blue_card);
        stake.push(red_card);
        let c1 = match self.blue.draw() {
            Some(c) => c,
            None => {
                self.red.claim_all(stake);
                proof {
                    lemma_empty_seq_to_multiset(stake@);
                    assert(self.held_cards().add(stake@.to_multiset()) =~= old(
                        self,
                    ).held_cards().add(old(stake)@.to_multiset()).insert(blue_card).insert(
                        red_card,
                    ));
                }
                return false;
            },
        };
        stake.push(c1);
        let c2 = match self.red.draw() {
            Some(c) => c,
            None => {
                self.blue.claim_all(stake);
                proof {
                    lemma_empty_seq_to_multiset(stake@);
                    assert(self.held_cards().add(stake@.to_multiset()) =~= old(
                        self,
                    ).held_cards().add(old(stake)@.to_multiset()).insert(blue_card).insert(
                        red_card,
                    ));
                }
                return false;
            },
        };
        stake.push(c2);
        let c3 = match self.blue.draw() {
            Some(c) => c,
            None => {
                self.red.claim_all(stake);
                proof {
                    lemma_empty_seq_to_multiset(stake@);
                    assert(self.held_cards().add(stake@.to_multiset()) =~= old(
                        self,
                    ).held_cards().add(old(stake)@.to_multiset()).insert(blue_card).insert(
                        red_card,
                    ));
                }
                return false;
            },
        };
        stake.push(c3);
        let c4 = match self.red.draw() {
            Some(c) => c,
            None => {
                self.blue.claim_all(stake);
                proof {
                    lemma_empty_seq_to_multiset(stake@);
                    assert(self.held_cards().add(stake@.to_multiset()) =~= old(
                        self,
                    ).held_cards().add(old(stake)@.to_multiset()).insert(blue_card).insert(
                        red_card,
                    ));
                }
                return false;
            },
        };
        stake.push(c4);
        proof {
            assert(stake@.take(old(stake)@.len() as int) =~= old(stake)@);
            assert(self.held_cards().add(stake@.to_multiset()) =~= old(self).held_cards().add(
                old(stake)@.to_multiset(),
            ).insert(blue_card).insert(red_card));
        }
        true
    }

    /// Resolves one turn: both players reveal a card, the higher rank claims
    /// everything at stake, and every tie escalates into a war round. Returns
    /// false, without counting a turn, as soon as either player cannot draw —
    /// the game's sole termination signal — and everything then in transit
    /// goes to the player who could still draw. The cards the players hold
    /// together are conserved in either case; a completed turn moves the
    /// winner up by one card per comparison plus three per war, and when
    /// recording is on it appends one record of the post-turn counts.
    fn play_turn(&mut self) -> (r: bool)
        requires
            old(self).spec_turns() < usize::MAX,
            old(self).spec_wars() + old(self).total_cards() <= usize::MAX,
        ensures
            final(self).recording() == old(self).recording(),
            final(self).spec_finished() == old(self).spec_finished(),
            final(self).dealt_total() == old(self).dealt_total(),
            final(self).spec_wars() >= old(self).spec_wars(),
            final(self).total_cards() == old(self).total_cards(),
            final(self).held_cards() == old(self).held_cards(),
            r ==> final(self).spec_turns() == old(self).spec_turns() + 1,
            r ==> final(self).blue_player().card_count()
                == old(self).blue_player().card_count() + 1
                + 3 * (final(self).spec_wars() - old(self).spec_wars())
                || final(self).red_player().card_count()
                == old(self).red_player().card_count() + 1
                + 3 * (final(self).spec_wars() - old(self).spec_wars()),
            r && old(self).recording() ==> final(self).spec_records().len()
                == old(self).spec_records().len() + 1
                && final(self).spec_records().take(old(self).spec_records().len() as int)
                == old(self).spec_records()
                && final(self).spec_records().last().red_cards
                == final(self).red_player().card_count()
                && final(self).spec_records().last().blue_cards
                == final(self).blue_player().card_count()
                && final(self).spec_records().last().war
                == (final(self).spec_wars() > old(self).spec_wars()),
            r && !old(self).recording() ==> final(self).spec_records()
                == old(self).spec_records(),
            !r ==> (final(self).blue_player().card_count() == 0
                || final(self).red_player().card_count() == 0)
                && final(self).spec_turns() == old(self).spec_turns()
                && final(self).spec_records() == old(self).spec_records(),
    {
        let mut stake: Vec<Card> = Vec::new();
        let mut war = false;
        let ghost t0 = old(self).total_cards();
        let ghost w0 = old(self).spec_wars();
        let ghost b0 = old(self).blue_player().card_count();
        let ghost r0 = old(self).red_player().card_count();
        let ghost h0 = old(self).held_cards();
        proof {
            lemma_empty_seq_to_multiset(stake@);
            assert(self.held_cards().add(stake@.to_multiset()) =~= h0);
        }
        loop
            invariant_except_break
                war == (self.spec_wars() > w0),
                6 * self.spec_wars() == 6 * w0 + stake@.len(),
                2 * self.blue_player().card_count() + stake@.len() == 2 * b0,
                2 * self.red_player().card_count() + stake@.len() == 2 * r0,
            invariant
                t0 == old(self).total_cards(),
                w0 == old(self).spec_wars(),
                b0 == old(self).blue_player().card_count(),
                r0 == old(self).red_player().card_count(),
                h0 == old(self).held_cards(),
                w0 + t0 <= usize::MAX,
                self.total_cards() + stake@.len() == t0,
                self.held_cards().add(stake@.to_multiset()) == h0,
                self.spec_wars() >= w0,
                self.spec_turns() == old(self).spec_turns(),
                self.spec_records() == old(self).spec_records(),
                self.recording() == old(self).recording(),
                self.spec_finished() == old(self).spec_finished(),
                self.dealt_total() == old(self).dealt_total(),
            ensures
                self.total_cards() == t0,
                self.held_cards() == h0,
                war == (self.spec_wars() > w0),
                self.blue_player().card_count() == b0 + 1 + 3 * (self.spec_wars() - w0)
                    || self.red_player().card_count() == r0 + 1 + 3 * (self.spec_wars() - w0),
            decreases self.total_cards(),
        {
            let blue_card = match self.blue.draw() {
                Some(c) => c,
                None => {
                    self.red.claim_all(&mut stake);
                    proof {
                        lemma_empty_seq_to_multiset(stake@);
                        assert(self.held_cards() =~= h0);
                    }
                    return false;
                },
            };
            let red_card = match self.red.draw() {
                Some(c) => c,
                None => {
                    self.blue.claim(blue_card);
                    self.blue.claim_all(&mut stake);
                    proof {
                        lemma_empty_seq_to_multiset(stake@);
                        assert(self.held_cards() =~= h0);
                    }
                    return false;
                },
            };
            let blue_strength = blue_card.rank().strength();
            let red_strength = red_card.rank().strength();
            if blue_strength > red_strength {
                self.win(Players::Blue, &mut stake, blue_card, red_card);
                proof {
                    assert(self.held_cards() =~= h0);
                }
                break ;
            } else if blue_strength < red_strength {
                self.win(Players::Red, &mut stake, blue_card, red_card);
                proof {
                    assert(self.held_cards() =~= h0);
                }
                break ;
            } else {
                war = true;
                let ghost held_mid = self.held_cards();
                let ghost stake_mid = stake@;
                proof {
                    assert(self.total_cards() + stake@.len() + 2 == t0);
                    assert(6 * self.spec_wars() < 6 * (w0 + t0));
                    assert(held_mid.insert(blue_card).insert(red_card).add(
                        stake_mid.to_multiset(),
                    ) =~= h0);
                }
                if !self.war_step(&mut stake, blue_card, red_card) {
                    proof {
                        lemma_empty_seq_to_multiset(stake@);
                        assert(self.held_cards().add(stake@.to_multiset()) == held_mid.add(
                            stake_mid.to_multiset(),
                        ).insert(blue_card).insert(red_card));
                        assert forall|v: Card| self.held_cards().count(v) == h0.count(v) by {
                            assert(self.held_cards().add(stake@.to_multiset()).count(v)
                                == held_mid.add(stake_mid.to_multiset()).insert(blue_card).insert(
                                red_card,
                            ).count(v));
                            assert(held_mid.insert(blue_card).insert(red_card).add(
                                stake_mid.to_multiset(),
                            ).count(v) == h0.count(v));
                        }
                        assert(self.held_cards() =~= h0);
                    }
                    return false;
                }
                proof {
                    assert(self.held_cards().add(stake@.to_multiset()) == held_mid.add(
                        stake_mid.to_multiset(),
                    ).insert(blue_card).insert(red_card));
                    assert(self.held_cards().add(stake@.to_multiset()) =~= h0);
                }
            }
        }

        self.turns = self.turns + 1;
        if self.record {
            let ghost prev = self.records@;
            let red_count = self.red.number_of_cards();
            let blue_count = self.blue.number_of_cards();
            self.records.push(TurnRecord { red_cards: red_count, blue_cards: blue_count, war });
            proof {
                assert(self.records@.take(prev.len() as int) =~= prev);
            }
        }
        true
    }

    /// Runs turns until either player cannot draw, then marks the game
    /// finished and names the player still holding cards the winner. The
    /// loop also stops, with no loser, in the unreachable event that a
    /// counter can no longer grow.
    pub fn play(&mut self) -> (r: GameResults)
        requires
            old(self).wf(),
            !old(self).spec_finished(),
        ensures
            final(self).wf(),
            final(self).spec_finished(),
            final(self).recording() == old(self).recording(),
            final(self).dealt_total() == old(self).dealt_total(),
            final(self).total_cards() == final(self).dealt_total(),
            final(self).held_cards() == old(self).held_cards(),
            final(self).spec_turns() >= old(self).spec_turns(),
            final(self).spec_wars() >= old(self).spec_wars(),
            r.turns == final(self).spec_turns(),
            r.wars == final(self).spec_wars(),
            r.winner == (if final(self).blue_player().card_count() > 0 {
                Players::Blue
            } else {
                Players::Red
            }),
            final(self).blue_player().card_count() == 0
                || final(self).red_player().card_count() == 0
                || final(self).spec_turns() == usize::MAX
                || final(self).spec_wars() + final(self).total_cards() > usize::MAX,
            final(self).blue_player().card_count() == 0
                || final(self).red_player().card_count() == 0 ==> (r.winner == Players::Blue
                ==> final(self).blue_player().card_count() == final(self).dealt_total()
                && final(self).red_player().card_count() == 0) && (r.winner == Players::Red
                ==> final(self).red_player().card_count() == final(self).dealt_total()
                && final(self).blue_player().card_count() == 0),
    {
        loop
            invariant
                self.recording() == old(self).recording(),
                self.dealt_total() == old(self).dealt_total(),
                self.spec_finished() == false,
                self.spec_turns() >= old(self).spec_turns(),
                self.spec_wars() >= old(self).spec_wars(),
                self.held_cards() == old(self).held_cards(),
                self.recording() ==> self.spec_records().len() == self.spec_turns(),
                !self.recording() ==> self.spec_records().len() == 0,
                forall|i: int|
                    0 <= i < self.spec_records().len()
                        ==> (#[trigger] self.spec_records()[i]).red_cards
                        + self.spec_records()[i].blue_cards == self.dealt_total(),
                self.total_cards() == self.dealt_total(),
                self.dealt_total() <= usize::MAX,
            ensures
                self.blue_player().card_count() == 0 || self.red_player().card_count() == 0
                    || self.spec_turns() == usize::MAX
                    || self.spec_wars() + self.total_cards() > usize::MAX,
            decreases usize::MAX - self.spec_turns(),
        {
            if self.turns == usize::MAX {
                break ;
            }
            let total = self.blue.number_of_cards() + self.red.number_of_cards();
            if self.wars > usize::MAX - total {
                break ;
            }
            let ghost prev = *self;
            if !self.play_turn() {
                break ;
            }
            proof {
                assert forall|i: int| 0 <= i < self.spec_records().len() implies (
                #[trigger] self.spec_records()[i]).red_cards + self.spec_records()[i].blue_cards
                    == self.dealt_total() by {
                    if i < prev.spec_records().len() {
                        assert(self.spec_records()[i]
                            == self.spec_records().take(prev.spec_records().len() as int)[i]);
                    } else {
                        assert(self.spec_records()[i] == self.spec_records().last());
                    }
                }
            }
        }
        self.finished = true;
        let winner = if !self.blue.has_lost() {
            Players::Blue
        } else {
            Players::Red
        };
        GameResults { winner, wars: self.wars, turns: self.turns }
    }

    /// How many cards one player holds across both of that player's decks.
    pub fn player_cards(&self, player: Players) -> (n: usize)
        requires
            self.wf(),
        ensures
            player == Players::Blue ==> n == self.blue_player().card_count(),
            player == Players::Red ==> n == self.red_player().card_count(),
    {
        match player {
            Players::Blue => self.blue.number_of_cards(),
            Players::Red => self.red.number_of_cards(),
        }
    }

    /// The records taken so far, one per completed turn when recording.
    pub fn records(&self) -> (r: &Vec<TurnRecord>)
        ensures
            r@ == self.spec_records(),
    {
        &self.records
    }

    /// Whether `play` has already consumed this game.
    pub fn is_finished(&self) -> (r: bool)
        ensures
            r == self.spec_finished(),
    {
        self.finished
    }
}

/// A sequence with no elements holds the empty multiset.
proof fn lemma_empty_seq_to_multiset(s: Seq<Card>)
    requires
        s.len() == 0,
    ensures
        s.to_multiset() == Multiset::<Card>::empty(),
{
    vstd::multiset::lemma_multiset_empty_len(s.to_multiset());
}

/// A freshly created player holds no cards at all.
proof fn lemma_empty_player_cards(p: Player)
    requires
        p.playing().len() == 0,
        p.reserve().len() == 0,
    ensures
        p.all_cards() == Multiset::<Card>::empty(),
{
    vstd::multiset::lemma_multiset_empty_len(p.playing().to_multiset());
    vstd::multiset::lemma_multiset_empty_len(p.reserve().to_multiset());
    assert(p.all_cards() =~= Multiset::<Card>::empty());
}

} // verus!
