//! A verified engine for the two-player card game War: card ranking, deck
//! construction and shuffling, the players' draw-with-replenish rule, and
//! the turn/war resolution loop that plays a dealt game to a winner.

pub mod cards;
pub mod game;
pub mod player;
