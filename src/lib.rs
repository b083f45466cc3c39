//! An interpreter and C translator for the eight-symbol tape-machine language
//! (`> < + - . , [ ]`), running on a fixed-size circular tape of byte cells.

pub mod interpreter;
pub mod laws;
pub mod machine;
pub mod program;
pub mod translate;
