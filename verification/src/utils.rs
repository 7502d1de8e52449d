//! Text-level helpers: number literals, canonical rendering, match extraction.

pub mod ascii;
pub mod extractor;
pub mod formatters;
pub mod parser;
pub mod text;
