//! A two-player chess rules engine: board representation, per-piece move
//! generation, check detection, and terminal-state (checkmate/draw) evaluation.
//!
//! The engine deliberately implements no castling, en passant, promotion,
//! repetition or fifty-move rules. Checkmate and draw detection scan only the
//! ranks below `SCAN_RANKS`; that truncated range is pinned as a named
//! constant so the behaviour stays testable.

pub mod field;
pub mod moves;
pub mod game;
pub mod laws;
