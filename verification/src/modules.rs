pub mod config;
pub mod error;
pub mod evaluator;
pub mod game;
pub mod laws;
pub mod revelation;
pub mod solver;
pub mod state;
pub mod words;
