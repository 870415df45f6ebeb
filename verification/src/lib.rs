//! A verified Tetris engine core: bitboard, collision maps, piece movement,
//! line clears, garbage, the seeded piece generator, board evaluation, the
//! search for the keys that reach a placement, and the decisions of the chat
//! bot that drives the engine.
pub mod bits;
pub mod board;
pub mod stats;
pub mod rng;
pub mod draw;
pub mod piece;
pub mod game;
pub mod queue;
pub mod eval;
pub mod keyfinder;
pub mod bot;
pub mod falcon;
pub mod damage;
pub mod trainer;
pub mod laws;
