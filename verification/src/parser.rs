//! The text-format parsing subsystem.
//!
//! `text` holds the primitives both dialects share (whitespace, quoted
//! strings, decimal numerals); `vdf` parses the game-library manifest;
//! `descriptor` parses a mod-descriptor file against its strict grammar;
//! `mod_file` is a lenient line-oriented reader of the same format.

pub mod descriptor;
pub mod mod_file;
pub mod text;
pub mod vdf;
