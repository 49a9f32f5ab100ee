//! Extraction of the imports of every source file of a project.

pub mod javascript;
