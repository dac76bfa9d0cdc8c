//! A two-pass assembler for a 16-bit computer architecture.
//!
//! The pipeline normalizes source lines, builds a symbol table (predefined
//! symbols, then labels, then user variables), parses each content line into
//! a typed instruction, and encodes each instruction as a fixed-width string
//! of 16 binary digits.

pub mod lines;

pub mod symbol;

pub mod parser;

pub mod code;
