//! A population of rock, paper and scissor agents on a bounded plane: each agent jitters,
//! pursues and converts agents of other teams, and keeps apart from its teammates.
pub mod engine;
pub mod game;
pub mod geometry;
pub mod laws;
pub mod main_menu;
pub mod model;
pub mod random;

pub use game::ClientGameState;
pub use main_menu::{GameState, MainMenuState};
pub use model::{Player, Spawn, Team};
