//! Rules engine for Klondike solitaire: cards, piles, stacking rules, dealing,
//! the undo log, win detection and the auto-solver.

pub mod card;
pub mod stack;
pub mod deal;
pub mod session;
pub mod solver;
pub mod laws;
