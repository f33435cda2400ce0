//! Lexer and evaluator for unsigned 64-bit integer expressions written with
//! prefixed literals (`0x`, `0o`, `0b`), arithmetic and bitwise operators,
//! and brackets; and the rules that pick a display width and split a value
//! into bit fields.
pub mod token;
pub mod lexer;
pub mod number;
pub mod ops;
pub mod eval;
pub mod laws;
pub mod width;
pub mod fields;
