//! The correction engine of a source-code spell checker.
//!
//! Text is addressed by line and column, edits are normalised into patches,
//! and a single forward pass merges a sorted patch list into the text of a
//! file. Every executable function carries a contract that Verus proves.
//!
//! - [`position`] and [`cursor`]: line and column, spans, and the walk that
//!   tags every scalar value of a text with its offset and position.
//! - [`encoding`]: what the merge needs to know of UTF-8.
//! - [`bandaid`] and [`patch`]: proposed edits and their normalised form.
//! - [`merge`]: the merge itself, and what it writes for any patch list.
//! - [`laws`]: what holds of every merge.
//! - [`origin`], [`suggestion`], [`interactive`]: what analyzers and the
//!   user hand over.
//! - [`action`]: the modes of operation, and what each asks to be done on
//!   disk.

pub mod action;
pub mod bandaid;
pub mod cursor;
pub mod encoding;
pub mod interactive;
pub mod laws;
pub mod merge;
pub mod origin;
pub mod patch;
pub mod position;
pub mod suggestion;
