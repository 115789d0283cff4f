//! Tic-tac-toe and ultimate tic-tac-toe: the two boards, the rules that
//! decide their outcomes, and the agents that plan moves over them.

pub mod ai;
pub mod app;
pub mod cli;
pub mod game;
pub mod scenes;
pub mod ui;
pub mod utils;
