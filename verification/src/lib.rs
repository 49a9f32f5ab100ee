//! Static analysis of a JavaScript/TypeScript source tree: resolution of
//! import specifiers against the known project files and declared packages,
//! and assembly of the resulting reference graph.

pub mod database;
pub mod parser;
pub mod path;
pub mod project;
pub mod text;
