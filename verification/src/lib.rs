//! A deduction puzzle played with swaps.
//!
//! Every player is given a secret pattern, an arrangement of distinct
//! symbols. Starting from a first guess, the player exchanges two symbols
//! of the guess per move and is told after each move how many positions of
//! the guess agree with the pattern. A player has finished once the guess
//! equals the pattern; finishing players are ranked in the order in which
//! they finish.
//!
//! The modules, leaf first: [`alphabet`] holds the symbols, [`scoring`]
//! counts agreeing positions and exchanges symbols, [`generator`] draws
//! patterns, [`validation`] judges a first guess, [`player`] keeps one
//! player's pattern, guess and rank, [`game`] keeps the players of one
//! session and hands out the ranks, and [`announce`] words what a move
//! brought about.

pub mod alphabet;
pub mod scoring;
pub mod generator;
pub mod validation;
pub mod player;
pub mod game;
pub mod announce;

pub use game::Game;
pub use player::Player;
pub use validation::InitialGuessError;
