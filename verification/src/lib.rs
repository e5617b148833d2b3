//! A verified rules engine for Hnefatafl-family board games.
//!
//! The engine keeps the authoritative state of one game (board, side to
//! move, move counter, terminal result), enumerates the legal moves of the
//! side to move, resolves the sandwich capture rule (with the all-sides
//! surround rule for the king) and detects the two win conditions.
//!
//! `rules` states the game mathematically; `game` is the executable engine,
//! proved against that statement; `laws` proves the properties that relate
//! several operations.

pub mod game;
pub mod laws;
pub mod rules;
