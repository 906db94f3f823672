//! Core of a command-line scorekeeping tool.
//!
//! The library keeps two kinds of records: players (a collection of uniquely
//! named players) and games (per-game-name collections of score sheets, each
//! with a unique identifier, a date and a map from player name to score).
//! Command values validate the raw argument lists, and pure `apply` functions
//! turn a loaded document plus a command into the document to store back,
//! enforcing the domain invariants: unique player names, player-existence
//! checks before a score is recorded, and unique game identifiers.
//!
//! File handling and JSON encoding sit outside the library; it works on
//! already-loaded documents and hands back the documents to persist.

pub mod add_player;
pub mod add_score;
pub mod args;
pub mod assoc;
pub mod date;
pub mod delete_player;
pub mod delete_score;
pub mod game;
pub mod ids;
pub mod list_games;
pub mod player;
pub mod score;
pub mod storage;
pub mod strutil;

pub use args::Command;
