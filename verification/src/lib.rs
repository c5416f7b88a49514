//! Token counting for files, strings and directory trees.
//!
//! The crate classifies file contents (binary / empty / invalid encoding /
//! oversized / tokenizable text), counts language-model tokens through an
//! external encoder, and builds a directory tree whose nodes carry
//! per-directory size and token totals, rendered as an indented report.

pub mod classify;
pub mod error;
pub mod numfmt;
pub mod params;
pub mod report;
pub mod tokenizer;
pub mod tree;
