//! The interactive client: its options and the parsing of its command lines.

pub mod args;
pub mod handler;
