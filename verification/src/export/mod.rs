//! Space exports and their archives.

pub mod package;
pub mod types;
