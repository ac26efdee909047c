//! A solver for a solitaire tile-placement game on an 11x11 grid.

pub mod grid;
pub mod mask;
pub mod game;
pub mod board;
pub mod deck;
pub mod card;
pub mod timer;
mod text;
pub mod scoring;
pub mod search;
pub mod json;
pub mod protocol;
pub mod socketio;
pub mod driver;
