//! Converters from other trackers to space exports.

pub mod adf;
pub mod adf_laws;
pub mod common;
pub mod jira;
pub mod linear;
pub mod same;
