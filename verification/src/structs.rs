//! The game's data: cards, decks, the board and the game itself.

pub mod board;
pub mod cards;
pub mod game;
