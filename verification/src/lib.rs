//! Layout, formatting and selection logic of a horror-themed terminal fetch tool.
pub mod text;
pub mod ansi;
pub mod layout;
pub mod fetch;
pub mod paint;
pub mod term;
pub mod cli;
pub mod assets;
