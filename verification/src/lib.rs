//! A browser-style memory-matching game, as a verified library.
//!
//! The deck store keeps the authored cards, the match engine turns a deck
//! into a shuffled board and runs the two-click guess protocol, and the
//! ingestion module turns a dropped image file into a thumbnail data URI.

pub mod deck;
pub mod engine;
pub mod ingest;
