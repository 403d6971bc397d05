//! Detection of Paradox Interactive strategy games installed through a
//! third-party game-distribution client, and enumeration of the mods
//! installed for each detected game.
//!
//! The heart of the crate is a pair of verified text parsers over a shared
//! brace-delimited "keyed values" grammar: one for the client's game-library
//! manifest, one for per-mod descriptor files.

pub mod errors;
pub mod models;
pub mod parser;
pub mod detector;
