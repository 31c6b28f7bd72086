//! Authoritative rule engine and session logic for a two-player Stratego-style game.

pub mod board;
pub mod codec;
pub mod engine;
pub mod packet;
pub mod pig;
pub mod room;
pub mod player;
pub mod server;
pub mod settings;
pub mod util;
