//! A small command runner: named shell commands are loaded from a TOML
//! configuration file into an ordered catalog, looked up by name and
//! executed with their output split into lines as it arrives, or the whole
//! catalog is rendered as a JSON listing.

pub mod lines;
pub mod list;
pub mod parse;
pub mod resolve;
pub mod structs;
