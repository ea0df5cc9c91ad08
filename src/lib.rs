//! Colourises lines of text by the rules of a configuration: each rule pairs a
//! regular expression with the colours of its capture groups.

pub mod catalog;
pub mod codec;
pub mod colorize;
pub mod laws;
pub mod parser;
pub mod pattern;
pub mod text;
