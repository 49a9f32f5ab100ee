//! The records under which the project is kept in the local cache.

pub mod sqlite;
