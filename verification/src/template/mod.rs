//! Space templates.

pub mod blob;
pub mod config;
pub mod instantiator;
pub mod items;
pub mod laws;
pub mod types;
