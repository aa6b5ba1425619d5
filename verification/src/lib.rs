//! A two-pass assembler for a 16-bit, word-addressed register machine.
//!
//! Source lines are split into tokens, a first pass assigns an address to
//! every label, and a second pass packs each statement into machine words.
//! Every function is verified against a contract stated over sequences of
//! characters, tokens and words.

pub mod assembler;
pub mod encoder;
pub mod enums;
pub mod error;
pub mod generate;
pub mod laws;
pub mod number;
pub mod output;
pub mod scan;
pub mod symbols;
pub mod text;
pub mod utils;
