//! TermInfo format parsing.

pub mod compiled;
