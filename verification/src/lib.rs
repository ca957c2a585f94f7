//! A turn-based strategy simulation: civilizations with one city each manage a
//! single resource, queue buildings and units, and send armies across a
//! terrain grid.

pub mod actions;
pub mod agent;
pub mod ast;
pub mod combat;
pub mod economy;
pub mod game;
pub mod laws;
pub mod map;
pub mod path;
pub mod random_ai;
pub mod rules;
pub mod screen;
pub mod setup;
pub mod state;
pub mod text;
pub mod turn;
pub mod utils;
