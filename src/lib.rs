//! Session and lobby registry for a two-player, turn-based board game.

mod assoc;
pub mod error;
pub mod game;
pub mod lobby;
pub mod messages;
pub mod random;
pub mod session;
pub mod state;
