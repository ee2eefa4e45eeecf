//! Rules engine for a cooperative island-survival board game.
//!
//! A team of adventurers explores a sinking island, trades treasure cards,
//! captures the four treasures and has to fly out from the landing site
//! before the water wins.  Every rule is executable code with a proved
//! contract; decisions are delegated to a [`structs::game::chooser::Chooser`].

pub mod decks;
pub mod structs;
