//! A tree-listing library: version ordering, ignore and info files,
//! command-line options and the output building blocks.

pub mod verscmp;
pub mod bytes;
pub mod decimal;
pub mod pattern;
pub mod filter;
pub mod info;
pub mod text;
pub mod options;
pub mod parse_laws;
pub mod walk;
pub mod output;
