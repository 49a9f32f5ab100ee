//! Per-language handlers.

pub mod javascript;
