//! Distributes per-language text snippets into a directory tree that branches
//! one subdirectory per language, and edits target files at precise line
//! positions (append, insert-before-anchor, delete).
//!
//! The crate holds the logic only: parsing language/payload records, locating
//! a target file in a snapshot of a directory tree, scanning for an anchor
//! line, and computing the line-level edits. Reading and writing the real
//! filesystem, the command line, and the translation backend live with the
//! caller, which hands snapshots in and applies the returned writes.
use vstd::prelude::*;

pub mod file_handling;
pub mod lang;
pub mod text;
pub mod translate;

verus! {

/// The source of the raw translation text: either the contents of a file
/// (to be read by the caller) or a literal string.
#[derive(Debug)]
pub enum Input {
    File(String),
    Text(String),
}

} // verus!
