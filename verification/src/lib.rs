//! A two-pass assembler for a 20-bit-word, register-addressed processor.
//!
//! The pipeline is: source lines -> [`lexer`] -> token sequence -> [`parser`]
//! -> intermediate representation -> [`generator`] -> 20-bit instruction
//! words.  Every stage is a pure function with a full functional
//! specification; the binary encoding, label address resolution and relative
//! jump arithmetic are proved against those specifications.

pub mod generator;
pub mod ir;
pub mod lexer;
pub mod parser;
