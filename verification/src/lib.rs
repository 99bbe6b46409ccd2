//! Conversion of issue-tracker data into space documents.
//!
//! The crate turns fetched Jira and Linear data, and exported or templated
//! spaces, into the documents that a space is made of. Everything here is a
//! computation on plain values; reading files, talking to a tracker and turning
//! bytes into values is left to the program around it.

pub mod calendar;
pub mod codec;
pub mod export;
pub mod filter_laws;
pub mod filter_token;
pub mod import;
pub mod json;
pub mod markdown;
pub mod order;
pub mod read_back;
pub mod rich_text;
pub mod scan_laws;
pub mod str_map;
pub mod template;
pub mod text;
pub mod ydoc;
pub mod update_levels;
pub mod update_scan;
pub mod yrs_xml_copy;
