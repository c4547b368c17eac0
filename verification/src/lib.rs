//! Game rules and state of a networked Dune board game: the board and card
//! vocabulary, the phase cycle, the event-sourced game state that every client
//! and the server keep in step, and the server's turn logic.

pub mod collections;
pub mod components;
pub mod data;
pub mod laws;
pub mod network;
pub mod object;
pub mod phase;
pub mod reduce;
pub mod rules;
pub mod server;
pub mod stack;
pub mod state;
pub mod util;
