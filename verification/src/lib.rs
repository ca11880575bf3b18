//! Decision engine for a two-party, round-based dice-auction game.
//!
//! Each round two groups of five dice are offered; both players bid blind for
//! the right to take one group, then commit five dice from their pool to one
//! of twelve single-use scoring categories. The library holds the scoring
//! evaluator, the per-player state tracker, the bidding and placement
//! heuristics, and the match-level bookkeeping; the line-based transport
//! around them stays outside.

pub mod dice;
pub mod game;
pub mod rules;
pub mod session;
pub mod state;
