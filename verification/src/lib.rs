//! Verified core of a UCI chess-engine orchestrator.
//!
//! The crate covers the UCI wire-protocol codec, the game-history rule
//! engine (draw claims, outcomes), the engine-session lifecycle state
//! machine and the orchestration logic that drives two engines through a
//! game. Board rules (move legality, position hashing, FEN and SAN
//! rendering) are delegated to the `shakmaty` crate behind a small trusted
//! boundary.

pub mod bytes;
pub mod codec;
pub mod game;
pub mod moves;
pub mod orchestrator;
pub mod pgn;
pub mod position;
pub mod session;
