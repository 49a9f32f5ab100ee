//! Parsers of file contents.

pub mod javascript;
